//! The guest machine: registers, memory, words and texts.
use rnidbg::backend::{
    Backend, BackendError, RegisterARM64, PERM_NONE, PERM_READ, PERM_READ_WRITE,
};
use rnidbg::le::{
    get_le32, get_le64, put_le16, put_le32, put_le64, put_le_i32, put_zeros,
};
use rnidbg::num::{
    from_bits_i32, from_bits_i64, max_u64, min_u64, to_bits_i32, to_bits_i64, to_low32,
};
use rnidbg::text::{
    chars_of, contains, digit_text, ends_with, hex_text, join2, join3, starts_with, str_eq,
    text_before,
};
use rnidbg::tool::{align_addr, align_size, get_segment_protection};

#[test]
fn registers_hold_what_was_written() {
    let mut b = Backend::new();
    b.reg_write(RegisterARM64::X0, 0xffff_ffff_ffff_fffe);
    b.reg_write(RegisterARM64::TPIDR_EL0, 77);
    b.reg_write(RegisterARM64::XZR, 5);
    assert_eq!(b.reg_read(RegisterARM64::X0), 0xffff_ffff_ffff_fffe);
    assert_eq!(b.reg_read_i64(RegisterARM64::X0), -2);
    assert_eq!(b.reg_read_i32(RegisterARM64::X0), -2);
    assert_eq!(b.reg_read_u32(RegisterARM64::X0), 0xffff_fffe);
    assert_eq!(b.reg_read(RegisterARM64::TPIDR_EL0), 77);
    assert_eq!(b.reg_read(RegisterARM64::XZR), 0);
    b.reg_write_i64(RegisterARM64::LR, -1);
    assert_eq!(b.reg_read(RegisterARM64::LR), u64::MAX);
}

#[test]
fn contexts_bring_registers_back() {
    let mut b = Backend::new();
    b.reg_write(RegisterARM64::X7, 70);
    b.reg_write(RegisterARM64::PC, 0x4000);
    let mut c = Backend::context_alloc();
    b.context_save(&mut c);
    b.reg_write(RegisterARM64::X7, 1);
    b.reg_write(RegisterARM64::PC, 2);
    b.context_restore(&c);
    assert_eq!(b.reg_read(RegisterARM64::X7), 70);
    assert_eq!(b.reg_read(RegisterARM64::PC), 0x4000);
}

#[test]
fn a_write_is_read_back_and_nothing_else_changes() {
    let mut b = Backend::new();
    b.mem_map(0x1000, 0x2000, PERM_READ_WRITE).unwrap();
    b.mem_write(0x1ffe, &[1, 2, 3, 4]).unwrap();
    assert_eq!(b.mem_read_as_vec(0x1ffe, 4).unwrap(), vec![1, 2, 3, 4]);
    assert_eq!(b.mem_read_as_vec(0x1ffd, 1).unwrap(), vec![0]);
    assert_eq!(b.mem_read_as_vec(0x2002, 1).unwrap(), vec![0]);
    b.mem_write_u64(0x1008, 0x0102_0304_0506_0708).unwrap();
    assert_eq!(b.mem_read_u64(0x1008), Ok(0x0102_0304_0506_0708));
    assert_eq!(b.mem_read_as_vec(0x1008, 8).unwrap(), vec![8, 7, 6, 5, 4, 3, 2, 1]);
    assert_eq!(b.mem_read_u32(0x1008), Ok(0x0506_0708));
    b.mem_write_u32(0x1008, 1).unwrap();
    b.mem_write_u16(0x1010, 0xabcd).unwrap();
    b.mem_write_i32(0x1014, -1).unwrap();
    assert_eq!(b.mem_read_u64(0x1008), Ok(0x0102_0304_0000_0001));
    assert_eq!(b.mem_read_u64(0x1010), Ok(0xffff_ffff_0000_abcd));
}

#[test]
fn unmapped_memory_is_neither_read_nor_written() {
    let mut b = Backend::new();
    b.mem_map(0x1000, 0x1000, PERM_READ).unwrap();
    assert_eq!(b.mem_write(0x1fff, &[1, 2]), Err(BackendError::Unmapped));
    assert_eq!(b.mem_read_as_vec(0x1fff, 1).unwrap(), vec![0]);
    b.mem_try_write(0x1fff, &[1, 2]);
    assert_eq!(b.mem_read_as_vec(0x1fff, 1).unwrap(), vec![0]);
    b.mem_try_write(0x1fff, &[9]);
    assert_eq!(b.mem_read_as_vec(0x1fff, 1).unwrap(), vec![9]);
    assert_eq!(b.mem_read_u64(0x1ffc), Err(BackendError::Unmapped));
    assert_eq!(b.mem_read_as_vec(0x5000, 1), Err(BackendError::Unmapped));
    assert!(b.mem_read_as_vec(0x5000, 0).is_ok());
    assert!(b.is_mapped(0x1000, 0x1000));
    assert!(!b.is_mapped(0x1000, 0x1001));
}

#[test]
fn unmapping_what_was_mapped_gives_the_machine_back() {
    let mut b = Backend::new();
    b.mem_map(0x1000, 0x1000, PERM_READ_WRITE).unwrap();
    b.mem_write(0x1000, &[5]).unwrap();
    b.mem_map(0x8000, 0x3000, PERM_READ_WRITE).unwrap();
    assert_eq!(b.mem_map(0xa000, 0x1000, PERM_NONE), Err(BackendError::Mapped));
    b.mem_unmap(0x8000, 0x3000).unwrap();
    assert!(!b.is_mapped(0x8000, 1));
    assert_eq!(b.mem_read_as_vec(0x1000, 1).unwrap(), vec![5]);
    assert_eq!(b.mem_unmap(0x8000, 0x1000), Err(BackendError::Unmapped));
    assert_eq!(b.mem_protect(0x8000, 0x1000, PERM_READ), Err(BackendError::Unmapped));
    assert_eq!(b.mem_protect(0x1000, 0x1000, PERM_READ), Ok(()));
}

#[test]
fn only_whole_pages_are_mapped() {
    let mut b = Backend::new();
    assert_eq!(b.mem_map(0x1001, 0x1000, PERM_READ), Err(BackendError::Range));
    assert_eq!(b.mem_map(0x1000, 0, PERM_READ), Err(BackendError::Range));
    assert_eq!(b.mem_map(0x1000, 0x800, PERM_READ), Err(BackendError::Range));
    assert_eq!(b.mem_unmap(0x1000, 1), Err(BackendError::Range));
    assert_eq!(b.mem_protect(1, 0x1000, PERM_READ), Err(BackendError::Range));
    assert_eq!(b.mem_map(0xffff_ffff_ffff_f000, 0x2000, PERM_READ), Err(BackendError::Range));
    assert_eq!(b.mem_map(0xffff_ffff_ffff_f000, 0x1000, PERM_READ), Ok(()));
}

#[test]
fn texts_end_at_their_zero() {
    let mut b = Backend::new();
    b.mem_map(0x1000, 0x1000, PERM_READ_WRITE).unwrap();
    b.mem_write(0x1000, b"na\xc3\xafve\0rest").unwrap();
    assert_eq!(b.mem_read_c_string(0x1000).unwrap(), "na\u{ef}ve");
    assert_eq!(b.mem_read_c_string(0x1006).unwrap(), "");
    b.mem_write(0x1100, b"\xff\xfe\0").unwrap();
    assert_eq!(b.mem_read_c_string(0x1100), Err(BackendError::Encoding));
    b.mem_write(0x1ffe, b"ab").unwrap();
    assert_eq!(b.mem_read_c_string(0x1ffe), Err(BackendError::Unmapped));
}

#[test]
fn words_survive_their_bytes() {
    for x in [0u32, 1, 0x0102_0304, u32::MAX] {
        assert_eq!(get_le32(&put_le32(x)), x);
    }
    for x in [0u64, 0x0102_0304_0506_0708, u64::MAX] {
        assert_eq!(get_le64(&put_le64(x)), x);
    }
    assert_eq!(put_le16(0x0102), vec![2, 1]);
    assert_eq!(put_le_i32(-480), vec![0x20, 0xfe, 0xff, 0xff]);
    assert_eq!(put_zeros(3), vec![0, 0, 0]);
}

#[test]
fn signed_bits_round_trip() {
    for v in [0i64, -1, i64::MIN, i64::MAX, 42] {
        assert_eq!(to_bits_i64(v), v as u64);
        assert_eq!(from_bits_i64(to_bits_i64(v)), v);
    }
    for v in [0i32, -1, i32::MIN, i32::MAX] {
        assert_eq!(to_bits_i32(v), v as u32);
        assert_eq!(from_bits_i32(to_bits_i32(v)), v);
    }
    assert_eq!(to_low32(0x1_2345_6789), 0x2345_6789);
    assert_eq!(min_u64(3, 4), 3);
    assert_eq!(max_u64(3, 4), 4);
}

#[test]
fn rounding_out_covers_the_range() {
    let a = align_addr(0x1234, 0x10, 0x1000);
    assert_eq!((a.address, a.size), (0x1000, 0x1000));
    let a = align_addr(0x1ff8, 0x10, 0x1000);
    assert_eq!((a.address, a.size), (0x1000, 0x2000));
    let a = align_addr(0, 0x2345, 0x1000);
    assert_eq!((a.address, a.size), (0, 0x3000));
    assert_eq!(align_size(0), 0);
    assert_eq!(align_size(1), 16);
    assert_eq!(align_size(16), 16);
    assert_eq!(align_size(17), 32);
}

#[test]
fn segment_flags_become_protection() {
    assert_eq!(get_segment_protection(4), 1);
    assert_eq!(get_segment_protection(2), 2);
    assert_eq!(get_segment_protection(1), 4);
    assert_eq!(get_segment_protection(5), 5);
    assert_eq!(get_segment_protection(7), 7);
    assert_eq!(get_segment_protection(0), 0);
}

#[test]
fn text_tests_look_at_characters() {
    assert_eq!(chars_of("a\u{e9}"), vec!['a', '\u{e9}']);
    assert!(str_eq("abc", "abc"));
    assert!(!str_eq("abc", "abd"));
    assert!(!str_eq("abc", "ab"));
    assert!(starts_with("/system", "/"));
    assert!(!starts_with("", "/"));
    assert!(ends_with("a/libnetd_client.so", "libnetd_client.so"));
    assert!(!ends_with("client.so", "libnetd_client.so"));
    assert!(contains("/sbin/su", "/su"));
    assert!(!contains("/s/u", "/su"));
    assert!(contains("x", ""));
    assert_eq!(text_before("libfekit.so.1", '.'), "libfekit");
    assert_eq!(text_before("plain", '.'), "plain");
    assert_eq!(join2("a", "b"), "ab");
    assert_eq!(join3("a", "b", "c"), "abc");
    assert_eq!(digit_text(11), "b");
    assert_eq!(hex_text(0), "0");
    assert_eq!(hex_text(0x1f3), "1f3");
    assert_eq!(hex_text(u64::MAX), "ffffffffffffffff");
}
