use sftrace::filter::{build_id_hash, FilterError, FilterMap, FilterMark, FilterMode};
use sftrace::flags::FuncFlag;
use siphasher::sip::SipHasher24;
use std::hash::Hasher;

fn sample_file() -> Vec<u8> {
    let marks = vec![
        FilterMark::new(0x30, FuncFlag::log()).unwrap(),
        FilterMark::new(0x10, FuncFlag::log()).unwrap(),
        FilterMark::new(0x20, FuncFlag::empty()).unwrap(),
    ];
    FilterMap::from_marks(Some(b"abc"), FilterMode::Filter, marks).to_bytes()
}

#[test]
fn filter_mark_roundtrip() {
    for &addr in &[0u64, 1, 0x10, 0xdead_beef, (1u64 << 54) - 1] {
        for &log in &[false, true] {
            let flag = FuncFlag { log };
            let mark = FilterMark::new(addr, flag).unwrap();
            assert_eq!(mark.addr(), addr);
            assert_eq!(mark.flag(), flag);
        }
    }
}

#[test]
fn filter_mark_layout() {
    assert_eq!(FilterMark::new(0x1234, FuncFlag::log()).unwrap().raw, 0x0100_0000_0000_1234);
    assert_eq!(FilterMark::new(0x1234, FuncFlag::empty()).unwrap().raw, 0x1234);
}

#[test]
fn filter_mark_rejects_wide_address() {
    assert!(FilterMark::new(1u64 << 54, FuncFlag::empty()).is_none());
    assert!(FilterMark::new(u64::MAX, FuncFlag::log()).is_none());
}

#[test]
fn filter_mark_ignores_unknown_flag_bits() {
    let mark = FilterMark { raw: 0xfe00_0000_0000_0040 };
    assert_eq!(mark.addr(), 0x40);
    assert_eq!(mark.flag(), FuncFlag::empty());
}

#[test]
fn filter_map_round_trip() {
    let bytes = sample_file();
    let map = FilterMap::parse(&bytes, Some(b"abc")).unwrap();
    assert_eq!(map.mode(), FilterMode::Filter);
    let mark = map.check(0x20).unwrap();
    assert_eq!(mark.flag(), FuncFlag::empty());
    assert_eq!(mark.addr(), 0x20);
    assert_eq!(map.check(0x25), None);
    assert!(map.check(0x30).unwrap().flag().log);
    assert!(map.check(0x10).unwrap().flag().log);
    assert_eq!(map.check(0), None);
    assert_eq!(map.check(0x31), None);
}

#[test]
fn filter_file_layout() {
    let bytes = sample_file();
    assert_eq!(bytes.len(), 24 + 3 * 8);
    assert_eq!(&bytes[0..8], b"sf\0filte");
    assert_eq!(&bytes[8..16], &build_id_hash(b"abc").to_le_bytes());
    assert_eq!(&bytes[16..24], &1u64.to_le_bytes());
    assert_eq!(&bytes[24..32], &0x0100_0000_0000_0010u64.to_le_bytes());
    assert_eq!(&bytes[32..40], &0x20u64.to_le_bytes());
    assert_eq!(&bytes[40..48], &0x0100_0000_0000_0030u64.to_le_bytes());
}

#[test]
fn filter_map_without_build_id_is_read_by_anyone() {
    let marks = vec![FilterMark::new(7, FuncFlag::empty()).unwrap()];
    let bytes = FilterMap::from_marks(None, FilterMode::Mark, marks).to_bytes();
    assert_eq!(&bytes[8..16], &[0u8; 8]);
    let map = FilterMap::parse(&bytes, None).unwrap();
    assert_eq!(map.mode(), FilterMode::Mark);
    assert!(map.check(7).is_some());
}

#[test]
fn filter_map_from_marks_drops_repeated_addresses() {
    let marks = vec![
        FilterMark::new(9, FuncFlag::empty()).unwrap(),
        FilterMark::new(3, FuncFlag::empty()).unwrap(),
        FilterMark::new(9, FuncFlag::empty()).unwrap(),
        FilterMark::new(3, FuncFlag::empty()).unwrap(),
    ];
    let bytes = FilterMap::from_marks(None, FilterMode::Filter, marks).to_bytes();
    assert_eq!(bytes.len(), 24 + 2 * 8);
    assert_eq!(&bytes[24..32], &3u64.to_le_bytes());
    assert_eq!(&bytes[32..40], &9u64.to_le_bytes());
}

#[test]
fn filter_map_from_marks_keeps_the_first_mark_of_an_address() {
    let marks = vec![
        FilterMark::new(9, FuncFlag::log()).unwrap(),
        FilterMark::new(3, FuncFlag::empty()).unwrap(),
        FilterMark::new(9, FuncFlag::empty()).unwrap(),
        FilterMark::new(3, FuncFlag::log()).unwrap(),
    ];
    let bytes = FilterMap::from_marks(None, FilterMode::Mark, marks).to_bytes();
    let map = FilterMap::parse(&bytes, None).unwrap();
    assert_eq!(map.check(3).unwrap().flag(), FuncFlag::empty());
    assert_eq!(map.check(9).unwrap().flag(), FuncFlag::log());
}

#[test]
fn filter_map_rejects_bad_magic() {
    let mut bytes = sample_file();
    bytes[3] = b't';
    let found = u64::from_le_bytes(*b"sf\0tilte");
    assert_eq!(FilterMap::parse(&bytes, Some(b"abc")).err(), Some(FilterError::BadSign { found }));
    assert_eq!(FilterMap::parse(&bytes, None).err(), Some(FilterError::BadSign { found }));
}

#[test]
fn filter_map_rejects_other_build_id() {
    let bytes = sample_file();
    let err = FilterMap::parse(&bytes, Some(b"abd")).err().unwrap();
    assert_eq!(
        err,
        FilterError::HashMismatch { image: build_id_hash(b"abd"), map: build_id_hash(b"abc") }
    );
    assert!(FilterMap::parse(&bytes, None).is_ok());
}

#[test]
fn filter_map_rejects_malformed_length() {
    let bytes = sample_file();
    assert_eq!(FilterMap::parse(&bytes[..23], None).err(), Some(FilterError::Malformed));
    assert_eq!(FilterMap::parse(&bytes[..47], None).err(), Some(FilterError::Malformed));
    assert_eq!(FilterMap::parse(&[], None).err(), Some(FilterError::Malformed));
    assert!(FilterMap::parse(&bytes[..24], None).is_ok());
}

#[test]
fn filter_map_rejects_unknown_mode() {
    let mut bytes = sample_file();
    bytes[16] = 2;
    assert_eq!(FilterMap::parse(&bytes, None).err(), Some(FilterError::BadMode { found: 2 }));
}

#[test]
fn filter_map_rejects_unsorted_marks() {
    let mut bytes = sample_file();
    bytes[32] = 0x10;
    assert_eq!(FilterMap::parse(&bytes, None).err(), Some(FilterError::Unsorted));
    let mut bytes = sample_file();
    bytes[24] = 0x40;
    assert_eq!(FilterMap::parse(&bytes, None).err(), Some(FilterError::Unsorted));
}

#[test]
fn filter_map_checks_in_order() {
    // A bad signature is reported before a hash that does not match.
    let mut bytes = sample_file();
    bytes[0] = 0;
    assert!(matches!(
        FilterMap::parse(&bytes, Some(b"other")).err(),
        Some(FilterError::BadSign { .. })
    ));
    // A hash that does not match is reported before an unknown mode.
    let mut bytes = sample_file();
    bytes[16] = 9;
    assert!(matches!(
        FilterMap::parse(&bytes, Some(b"other")).err(),
        Some(FilterError::HashMismatch { .. })
    ));
}

#[test]
fn build_id_hash_is_siphash_2_4_with_zero_keys() {
    let mut hasher = SipHasher24::new_with_keys(0, 0);
    hasher.write(b"abc");
    assert_eq!(build_id_hash(b"abc"), hasher.finish());
    assert_ne!(build_id_hash(b"abc"), build_id_hash(b"abd"));
    assert_ne!(build_id_hash(b""), 0);
}

#[test]
fn filter_mode_codes() {
    assert_eq!(FilterMode::Mark.code(), 0);
    assert_eq!(FilterMode::Filter.code(), 1);
    assert_eq!(FilterMode::from_code(0), Some(FilterMode::Mark));
    assert_eq!(FilterMode::from_code(1), Some(FilterMode::Filter));
    assert_eq!(FilterMode::from_code(2), None);
}
