//! Initialisers of a module.
use vstd::prelude::*;
use crate::backend::{Backend, BackendError, Machine};

verus! {

/// An initialiser that stands in an array of function addresses.
pub struct AbsoluteInitFunction {
    pub load_base: u64,
    pub lib_name: String,
    /// The address that the array held when the module was loaded.
    pub addr: u64,
    /// Where in the array it stands.
    pub ptr: u64,
}

/// The function to run, if there is one: an address of zero or of all ones is none.
pub open spec fn callable(address: u64) -> Option<u64> {
    if address == 0 || address == u64::MAX {
        None
    } else {
        Some(address)
    }
}

impl AbsoluteInitFunction {
    pub fn new(load_base: u64, lib_name: String, ptr: u64, backend: &Backend) -> (r: Result<
        AbsoluteInitFunction,
        BackendError,
    >)
        ensures
            match backend@.read_u64(ptr as int) {
                Some(addr) => r == Ok::<AbsoluteInitFunction, BackendError>(
                    AbsoluteInitFunction { load_base, lib_name, addr, ptr },
                ),
                None => r == Err::<AbsoluteInitFunction, BackendError>(BackendError::Unmapped),
            },
    {
        match backend.mem_read_u64(ptr) {
            Ok(addr) => Ok(AbsoluteInitFunction { load_base, lib_name, addr, ptr }),
            Err(e) => Err(e),
        }
    }

    pub fn addr(&self) -> (r: u64)
        ensures
            r == self.addr,
    {
        self.addr
    }

    /// What to run: what the array holds now, or what it held at load time where it
    /// holds zero now.
    pub open spec fn target(self, m: Machine) -> Option<Option<u64>> {
        match m.read_u64(self.ptr as int) {
            Some(now) => Some(
                callable(
                    if now == 0 {
                        self.addr
                    } else {
                        now
                    },
                ),
            ),
            None => None,
        }
    }

    /// What to run, if anything. What the function returns is the call's result, and
    /// zero where it did not finish.
    pub fn call(&self, backend: &Backend) -> (r: Result<Option<u64>, BackendError>)
        ensures
            match self.target(backend@) {
                Some(t) => r == Ok::<Option<u64>, BackendError>(t),
                None => r == Err::<Option<u64>, BackendError>(BackendError::Unmapped),
            },
    {
        let mut address: u64 = match backend.mem_read_u64(self.ptr) {
            Ok(a) => a,
            Err(e) => {
                return Err(e);
            },
        };
        if address == 0 {
            address = self.addr;
        }
        if address == 0 || address == u64::MAX {
            return Ok(None);
        }
        Ok(Some(address))
    }
}

/// An initialiser at a fixed offset in the image.
pub struct LinuxInitFunction {
    pub load_base: u64,
    pub lib_name: String,
    pub addr: u64,
}

impl LinuxInitFunction {
    pub fn new(load_base: u64, lib_name: String, addr: u64) -> (r: LinuxInitFunction)
        ensures
            r == (LinuxInitFunction { load_base, lib_name, addr }),
    {
        LinuxInitFunction { load_base, lib_name, addr }
    }

    /// The function's address fits in the address space.
    pub open spec fn wf(self) -> bool {
        self.addr + self.load_base <= u64::MAX
    }

    pub fn addr(&self) -> (r: u64)
        requires
            self.wf(),
        ensures
            r == self.addr + self.load_base,
    {
        self.addr + self.load_base
    }

    pub open spec fn target(self) -> Option<u64> {
        if self.addr == 0 {
            None
        } else {
            callable((self.addr + self.load_base) as u64)
        }
    }

    /// What to run, if anything.
    pub fn call(&self) -> (r: Option<u64>)
        requires
            self.wf(),
        ensures
            r == self.target(),
    {
        if self.addr == 0 || self.addr() == u64::MAX {
            return None;
        }
        Some(self.addr())
    }
}

pub enum InitFunction {
    ABSOLUTE(AbsoluteInitFunction),
    LINUX(LinuxInitFunction),
}

impl InitFunction {
    pub open spec fn wf(self) -> bool {
        self matches InitFunction::LINUX(f) ==> f.wf()
    }

    /// What to run; nothing at all where the address cannot be read.
    pub open spec fn target(self, m: Machine) -> Option<Option<u64>> {
        match self {
            InitFunction::ABSOLUTE(f) => f.target(m),
            InitFunction::LINUX(f) => Some(f.target()),
        }
    }

    pub fn call(&self, backend: &Backend) -> (r: Result<Option<u64>, BackendError>)
        requires
            self.wf(),
        ensures
            match self.target(backend@) {
                Some(t) => r == Ok::<Option<u64>, BackendError>(t),
                None => r == Err::<Option<u64>, BackendError>(BackendError::Unmapped),
            },
    {
        match self {
            InitFunction::ABSOLUTE(f) => f.call(backend),
            InitFunction::LINUX(f) => Ok(f.call()),
        }
    }

    /// What the initialiser gives back, once its function returned `ret`.
    pub fn result(&self, ret: Option<u64>) -> (r: u64)
        ensures
            r == match self {
                InitFunction::ABSOLUTE(_) => match ret {
                    Some(v) => v,
                    None => 0,
                },
                InitFunction::LINUX(f) => f.addr,
            },
    {
        match self {
            InitFunction::ABSOLUTE(_) => match ret {
                Some(v) => v,
                None => 0,
            },
            InitFunction::LINUX(f) => f.addr,
        }
    }
}

/// What an initialiser runs. One that stands in an array runs what its slot holds now, or,
/// where that is zero, what the slot held when the image was loaded; one at a fixed offset
/// runs the load base and the offset. An address of zero or of all ones is no function.
pub proof fn law_initialiser_targets(f: AbsoluteInitFunction, g: LinuxInitFunction, m: Machine)
    requires
        g.addr + g.load_base <= u64::MAX,
    ensures
        InitFunction::ABSOLUTE(f).target(m) == match m.read_u64(f.ptr as int) {
            None => None,
            Some(now) => {
                let address = if now != 0 {
                    now
                } else {
                    f.addr
                };
                if address == 0 || address == 0xffff_ffff_ffff_ffff {
                    Some(None::<u64>)
                } else {
                    Some(Some(address))
                }
            },
        },
        InitFunction::LINUX(g).target(m) == if g.addr == 0 || g.addr + g.load_base
            == 0xffff_ffff_ffff_ffff {
            Some(None::<u64>)
        } else {
            Some(Some((g.load_base + g.addr) as u64))
        },
{
}

} // verus!
