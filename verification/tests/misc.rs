use sftrace::bytes::{bytes_eq, push_le32, push_le64, read_le64};
use sftrace::config::{Allocator, Config, Object};
use sftrace::layout::{is_trace_signature, trace_signature, u32_is_zero, Kind, SIGN_TRACE};
use sftrace::text::parse_select;
use sftrace::util::{u128_is_zero, u64_is_zero, MProtect};

#[test]
fn trace_signature_bytes() {
    assert_eq!(trace_signature(), b"sf\0trace".to_vec());
    assert_eq!(SIGN_TRACE.to_le_bytes(), *b"sf\0trace");
    assert!(is_trace_signature(b"sf\0trace"));
    assert!(!is_trace_signature(b"sf\0filte"));
    assert!(!is_trace_signature(b"sf\0trac"));
    assert!(!is_trace_signature(b"sf\0trace!"));
    assert!(!is_trace_signature(b""));
}

#[test]
fn kind_codes() {
    let kinds = [
        Kind::Entry,
        Kind::Exit,
        Kind::TailCall,
        Kind::Alloc,
        Kind::Dealloc,
        Kind::ReallocAlloc,
        Kind::ReallocDealloc,
    ];
    for (n, &kind) in kinds.iter().enumerate() {
        assert_eq!(kind.code() as usize, n + 1);
        assert_eq!(Kind::from_code((n + 1) as u8), Some(kind));
    }
    assert_eq!(Kind::from_code(0), None);
    assert_eq!(Kind::from_code(8), None);
    assert_eq!(Kind::from_code(255), None);
}

#[test]
fn zero_tests() {
    assert!(u32_is_zero(&0));
    assert!(!u32_is_zero(&1));
    assert!(u64_is_zero(&0));
    assert!(!u64_is_zero(&(1 << 40)));
    assert!(u128_is_zero(&0));
    assert!(!u128_is_zero(&(1 << 100)));
}

#[test]
fn little_endian_bytes() {
    let mut out = vec![0xffu8];
    push_le32(&mut out, 0x0403_0201);
    push_le64(&mut out, 0x0c0b_0a09_0807_0605);
    assert_eq!(out, vec![0xff, 1, 2, 3, 4, 5, 6, 7, 8, 9, 10, 11, 12]);
    assert_eq!(read_le64(&out, 5), 0x0c0b_0a09_0807_0605);
    assert_eq!(read_le64(&out, 1), 0x0807_0605_0403_0201);
    assert!(bytes_eq(b"abc", b"abc"));
    assert!(!bytes_eq(b"abc", b"abC"));
    assert!(!bytes_eq(b"abc", b"abcd"));
    assert!(bytes_eq(b"", b""));
}

#[test]
fn text_guard_relocks_only_what_was_unlocked() {
    let guard = MProtect::unlock(0x1000, 0x2000, true);
    assert_eq!(guard.relock(), Some((0x1000, 0x2000)));
    let guard = MProtect::unlock(0x1000, 0x2000, false);
    assert_eq!(guard.relock(), None);
    assert_eq!(guard, MProtect { flag: false, addr: 0x1000, size: 0x2000 });
}

fn allocator() -> Allocator {
    Allocator {
        alloc: "__rust_alloc".to_string(),
        dealloc: "__rust_dealloc".to_string(),
        alloc_zeroed: "__rust_alloc_zeroed".to_string(),
        realloc: "__rust_realloc".to_string(),
    }
}

#[test]
fn allocator_names() {
    let names = allocator();
    assert!(names.contains(b"__rust_alloc"));
    assert!(names.contains(b"__rust_dealloc"));
    assert!(names.contains(b"__rust_alloc_zeroed"));
    assert!(names.contains(b"__rust_realloc"));
    assert!(!names.contains(b"__rust_allo"));
    assert!(!names.contains(b"malloc"));
    assert!(!names.contains(b""));
}

#[test]
fn config_getters() {
    let empty = Config { object: None };
    assert_eq!(empty.path(), None);
    assert_eq!(empty.rlibs(), None);
    assert!(empty.allocator().is_none());

    let bare = Config { object: Some(Object { path: None, rlibs: None, allocator: None }) };
    assert_eq!(bare.path(), None);
    assert_eq!(bare.rlibs(), None);
    assert!(bare.allocator().is_none());

    let full = Config {
        object: Some(Object {
            path: Some("target/app".to_string()),
            rlibs: Some("deps/*.rlib".to_string()),
            allocator: Some(allocator()),
        }),
    };
    assert_eq!(full.path(), Some("target/app"));
    assert_eq!(full.rlibs(), Some("deps/*.rlib"));
    assert_eq!(full.allocator().unwrap().realloc, "__rust_realloc");
}

#[test]
fn stage_lists() {
    assert_eq!(parse_select(b"0"), Some(vec![0]));
    assert_eq!(parse_select(b"1,2"), Some(vec![1, 2]));
    assert_eq!(parse_select(b"10,0,007,+3"), Some(vec![10, 0, 7, 3]));
    assert_eq!(parse_select(b"2,2"), Some(vec![2, 2]));
    assert_eq!(
        parse_select(usize::MAX.to_string().as_bytes()),
        Some(vec![usize::MAX])
    );
}

#[test]
fn stage_lists_that_are_refused() {
    assert_eq!(parse_select(b""), None);
    assert_eq!(parse_select(b","), None);
    assert_eq!(parse_select(b"1,"), None);
    assert_eq!(parse_select(b",1"), None);
    assert_eq!(parse_select(b"1,,2"), None);
    assert_eq!(parse_select(b"+"), None);
    assert_eq!(parse_select(b"-1"), None);
    assert_eq!(parse_select(b"++1"), None);
    assert_eq!(parse_select(b" 1"), None);
    assert_eq!(parse_select(b"1 "), None);
    assert_eq!(parse_select(b"1;2"), None);
    assert_eq!(parse_select(b"0x10"), None);
    assert_eq!(parse_select(b"18446744073709551616"), None);
    assert_eq!(parse_select(b"99999999999999999999999999"), None);
    assert_eq!(parse_select(b"1,18446744073709551616"), None);
}

#[test]
fn stage_lists_agree_with_the_standard_parser() {
    let texts: [&str; 12] =
        ["", "0", "+0", "-0", "12", "1,2", "1,", "a", "+", "00", "1,+2,03", "4294967296"];
    for text in texts {
        let expected: Option<Vec<usize>> = text.split(',').map(|n| n.parse().ok()).collect();
        assert_eq!(parse_select(text.as_bytes()), expected);
    }
}
