//! Linux error numbers.
use vstd::prelude::*;

verus! {

#[derive(Clone, Copy, Debug, PartialEq, Eq, Structural)]
pub enum Errno {
    OK,
    EPERM,
    ENOENT,
    ENXIO,
    EBADF,
    ECHILD,
    EAGAIN,
    ENOMEM,
    EACCES,
    EFAULT,
    EEXIST,
    EINVAL,
    ENOTTY,
    ESPIPE,
    EROFS,
    ERANGE,
    ENOSYS,
    ENOTSOCK,
    EAFNOSUPPORT,
    ETIMEDOUT,
}

/// The number of an error.
pub open spec fn errno_number(e: Errno) -> i32 {
    match e {
        Errno::OK => 0,
        Errno::EPERM => 1,
        Errno::ENOENT => 2,
        Errno::ENXIO => 6,
        Errno::EBADF => 9,
        Errno::ECHILD => 10,
        Errno::EAGAIN => 11,
        Errno::ENOMEM => 12,
        Errno::EACCES => 13,
        Errno::EFAULT => 14,
        Errno::EEXIST => 17,
        Errno::EINVAL => 22,
        Errno::ENOTTY => 25,
        Errno::ESPIPE => 29,
        Errno::EROFS => 30,
        Errno::ERANGE => 34,
        Errno::ENOSYS => 38,
        Errno::ENOTSOCK => 88,
        Errno::EAFNOSUPPORT => 97,
        Errno::ETIMEDOUT => 110,
    }
}

impl Errno {
    pub fn as_i32(self) -> (n: i32)
        ensures
            n == errno_number(self),
    {
        match self {
            Errno::OK => 0,
            Errno::EPERM => 1,
            Errno::ENOENT => 2,
            Errno::ENXIO => 6,
            Errno::EBADF => 9,
            Errno::ECHILD => 10,
            Errno::EAGAIN => 11,
            Errno::ENOMEM => 12,
            Errno::EACCES => 13,
            Errno::EFAULT => 14,
            Errno::EEXIST => 17,
            Errno::EINVAL => 22,
            Errno::ENOTTY => 25,
            Errno::ESPIPE => 29,
            Errno::EROFS => 30,
            Errno::ERANGE => 34,
            Errno::ENOSYS => 38,
            Errno::ENOTSOCK => 88,
            Errno::EAFNOSUPPORT => 97,
            Errno::ETIMEDOUT => 110,
        }
    }
}

/// Different errors have different numbers, and each number is the one that Linux gives it.
pub proof fn law_error_numbers(e: Errno, f: Errno)
    ensures
        errno_number(e) == errno_number(f) ==> e == f,
        errno_number(e) == 0 <==> e == Errno::OK,
        0 <= errno_number(e) < 4096,
        errno_number(e) == 1 <==> e == Errno::EPERM,
        errno_number(e) == 2 <==> e == Errno::ENOENT,
        errno_number(e) == 6 <==> e == Errno::ENXIO,
        errno_number(e) == 9 <==> e == Errno::EBADF,
        errno_number(e) == 10 <==> e == Errno::ECHILD,
        errno_number(e) == 11 <==> e == Errno::EAGAIN,
        errno_number(e) == 12 <==> e == Errno::ENOMEM,
        errno_number(e) == 13 <==> e == Errno::EACCES,
        errno_number(e) == 14 <==> e == Errno::EFAULT,
        errno_number(e) == 17 <==> e == Errno::EEXIST,
        errno_number(e) == 22 <==> e == Errno::EINVAL,
        errno_number(e) == 25 <==> e == Errno::ENOTTY,
        errno_number(e) == 29 <==> e == Errno::ESPIPE,
        errno_number(e) == 30 <==> e == Errno::EROFS,
        errno_number(e) == 34 <==> e == Errno::ERANGE,
        errno_number(e) == 38 <==> e == Errno::ENOSYS,
        errno_number(e) == 88 <==> e == Errno::ENOTSOCK,
        errno_number(e) == 97 <==> e == Errno::EAFNOSUPPORT,
        errno_number(e) == 110 <==> e == Errno::ETIMEDOUT,
{
}

} // verus!
