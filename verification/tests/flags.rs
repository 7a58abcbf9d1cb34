use sftrace::flags::{FuncFlag, FuncId};

#[test]
fn func_id_pack_then_unpack_gives_index_and_flag() {
    for &idx in &[0u32, 1, 5, 1000, 0x00ff_fffe] {
        for &log in &[false, true] {
            let flag = FuncFlag { log };
            let id = FuncId::pack(idx, flag).expect("index fits");
            assert_eq!(id.unpack(), (idx, flag));
        }
    }
}

#[test]
fn func_id_raw_layout() {
    let id = FuncId::pack(4, FuncFlag::log()).unwrap();
    assert_eq!(id.raw(), 0x0100_0005);
    let id = FuncId::pack(4, FuncFlag::empty()).unwrap();
    assert_eq!(id.raw(), 0x0000_0005);
}

#[test]
fn func_id_pack_rejects_index_that_does_not_fit() {
    assert!(FuncId::pack(0x00ff_fffe, FuncFlag::empty()).is_some());
    assert!(FuncId::pack(0x00ff_ffff, FuncFlag::empty()).is_none());
    assert!(FuncId::pack(u32::MAX, FuncFlag::log()).is_none());
}

#[test]
fn func_id_from_raw_rejects_unset() {
    assert!(FuncId::from_raw(0).is_none());
    assert!(FuncId::from_raw(0x0100_0000).is_none());
    let id = FuncId::from_raw(0x0100_0007).unwrap();
    assert_eq!(id.raw(), 0x0100_0007);
    assert_eq!(id.unpack(), (6, FuncFlag { log: true }));
}

#[test]
fn func_flag_bits() {
    assert_eq!(FuncFlag::empty().bits(), 0);
    assert_eq!(FuncFlag::log().bits(), 1);
    assert_eq!(FuncFlag::from_bits_truncate(0), FuncFlag::empty());
    assert_eq!(FuncFlag::from_bits_truncate(1), FuncFlag::log());
    assert_eq!(FuncFlag::from_bits_truncate(0xfe), FuncFlag::empty());
    assert_eq!(FuncFlag::from_bits_truncate(0xff), FuncFlag::log());
}

#[test]
fn func_flag_contains_and_union() {
    let none = FuncFlag::empty();
    let log = FuncFlag::log();
    assert!(log.contains(log));
    assert!(log.contains(none));
    assert!(none.contains(none));
    assert!(!none.contains(log));
    assert_eq!(none.union(log), log);
    assert_eq!(none.union(none), none);
}
