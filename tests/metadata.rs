use cilium_lb::fdinfo::parse_number;
use cilium_lb::{BpfMap, DecodeError, MapType};

const LISTING: &str = "pos:\t0\nflags:\t02000002\nmnt_id:\t15\nmap_type:\t1\nkey_size:\t8\nvalue_size:\t12\nmax_entries:\t65536\nmap_flags:\t0x1\nmemlock:\t4096\n";

#[test]
fn parses_a_full_listing() {
    let m = BpfMap::from_fdinfo(3, LISTING.as_bytes()).unwrap();
    assert_eq!(m.fd, 3);
    assert_eq!(m.map_type, MapType::Hash);
    assert_eq!(m.key_size, 8);
    assert_eq!(m.value_size, 12);
    assert_eq!(m.max_entries, 65536);
    assert_eq!(m.map_flags, 1);
}

#[test]
fn missing_fields_stay_zero() {
    let m = BpfMap::from_fdinfo(4, b"key_size:\t4\nunrelated line\n").unwrap();
    assert_eq!(m.map_type, MapType::Unspec);
    assert_eq!(m.key_size, 4);
    assert_eq!((m.value_size, m.max_entries, m.map_flags), (0, 0, 0));
}

#[test]
fn flags_are_hexadecimal() {
    let m = BpfMap::from_fdinfo(5, b"map_flags:\t0x1a\n").unwrap();
    assert_eq!(m.map_flags, 26);
    let m = BpfMap::from_fdinfo(5, b"map_flags:\t0").unwrap();
    assert_eq!(m.map_flags, 0);
}

#[test]
fn unknown_map_type_is_an_error() {
    assert_eq!(
        BpfMap::from_fdinfo(3, b"map_type:\t12\n"),
        Err(DecodeError::MapType { code: 12 })
    );
    assert_eq!(
        BpfMap::from_fdinfo(3, b"map_type:\t11\n").unwrap().map_type,
        MapType::LPMTrie
    );
}

#[test]
fn unparsable_field_is_an_error() {
    assert_eq!(BpfMap::from_fdinfo(3, b"key_size:\tabc\n"), Err(DecodeError::Field));
    assert_eq!(BpfMap::from_fdinfo(3, b"value_size:\t\n"), Err(DecodeError::Field));
    assert_eq!(
        BpfMap::from_fdinfo(3, b"max_entries:\t99999999999999999999999\n"),
        Err(DecodeError::Field)
    );
}

#[test]
fn map_type_codes() {
    assert_eq!(MapType::from_code(0), Ok(MapType::Unspec));
    assert_eq!(MapType::from_code(9), Ok(MapType::LRUHash));
    assert_eq!(MapType::LRUPerCPUHash.code(), 10);
    assert_eq!(MapType::from_code(255), Err(DecodeError::MapType { code: 255 }));
}

#[test]
fn numbers_in_both_bases() {
    assert_eq!(parse_number(b"4096", 10), Some(4096));
    assert_eq!(parse_number(b"ff", 16), Some(255));
    assert_eq!(parse_number(b"FF", 16), Some(255));
    assert_eq!(parse_number(b"ff", 10), None);
    assert_eq!(parse_number(b"", 10), None);
    assert_eq!(parse_number(b"18446744073709551615", 10), Some(u64::MAX));
    assert_eq!(parse_number(b"18446744073709551616", 10), None);
}
