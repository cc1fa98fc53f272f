use redis_lite::rdb_parser::{
    get_decoded_expiry_time_ms, get_decoded_expiry_time_seconds, get_decoded_string,
    parse_rdb_file, skip_header_metadata, RdbError, RdbParser,
};

const HEADER: &[u8] = b"REDIS0011";

fn string_record(key: &[u8], value: &[u8]) -> Vec<u8> {
    let mut out = vec![0x00u8];
    out.push(key.len() as u8);
    out.extend_from_slice(key);
    out.push(value.len() as u8);
    out.extend_from_slice(value);
    out
}

fn file(records: &[Vec<u8>]) -> Vec<u8> {
    let mut out = HEADER.to_vec();
    out.extend_from_slice(&[0xFBu8, 0x01, 0x00]);
    for r in records {
        out.extend_from_slice(r);
    }
    out.push(0xFFu8);
    out
}

#[test]
fn header_only_file_yields_empty_keyspace() {
    let ks = RdbParser::new(HEADER.to_vec()).populate_database().unwrap();
    assert!(ks.keys().is_empty());
}

#[test]
fn empty_buffer_yields_empty_keyspace() {
    let ks = RdbParser::new(Vec::new()).populate_database().unwrap();
    assert!(ks.keys().is_empty());
}

#[test]
fn single_pair_without_expiry() {
    let bytes = file(&[string_record(b"mykey", b"myval")]);
    let ks = RdbParser::new(bytes).populate_database().unwrap();
    assert_eq!(ks.keys(), vec![b"mykey".to_vec()]);
    // no expiry: visible at any instant
    assert_eq!(ks.get(&b"mykey".to_vec(), u64::MAX), Some(b"myval".to_vec()));
}

#[test]
fn pair_with_millisecond_expiry() {
    let mut rec = vec![0xFCu8];
    rec.extend_from_slice(&5000u64.to_le_bytes());
    rec.extend_from_slice(&string_record(b"k", b"v"));
    let ks = RdbParser::new(file(&[rec])).populate_database().unwrap();
    assert_eq!(ks.get(&b"k".to_vec(), 5000), Some(b"v".to_vec()));
    assert_eq!(ks.get(&b"k".to_vec(), 5001), None);
}

#[test]
fn pair_with_second_expiry() {
    let mut rec = vec![0xFDu8];
    rec.extend_from_slice(&7u32.to_le_bytes());
    rec.extend_from_slice(&string_record(b"k", b"v"));
    let ks = RdbParser::new(file(&[rec])).populate_database().unwrap();
    assert_eq!(ks.get(&b"k".to_vec(), 7000), Some(b"v".to_vec()));
    assert_eq!(ks.get(&b"k".to_vec(), 7001), None);
}

#[test]
fn expiry_attaches_to_the_next_pair_only() {
    let mut rec1 = vec![0xFCu8];
    rec1.extend_from_slice(&100u64.to_le_bytes());
    rec1.extend_from_slice(&string_record(b"first", b"a"));
    let rec2 = string_record(b"second", b"b");
    let ks = RdbParser::new(file(&[rec1, rec2])).populate_database().unwrap();
    assert_eq!(ks.get(&b"first".to_vec(), 101), None);
    assert_eq!(ks.get(&b"second".to_vec(), u64::MAX), Some(b"b".to_vec()));
}

#[test]
fn several_pairs_load_in_order() {
    let bytes = file(&[
        string_record(b"a", b"1"),
        string_record(b"b", b"2"),
        string_record(b"a", b"3"),
    ]);
    let ks = RdbParser::new(bytes).populate_database().unwrap();
    // the later record for the same key wins
    assert_eq!(ks.get(&b"a".to_vec(), 0), Some(b"3".to_vec()));
    assert_eq!(ks.get(&b"b".to_vec(), 0), Some(b"2".to_vec()));
}

#[test]
fn truncated_expiry_is_an_error() {
    let mut bytes = HEADER.to_vec();
    bytes.extend_from_slice(&[0xFBu8, 0x01, 0x00, 0xFC, 0x10, 0x20]);
    assert!(RdbParser::new(bytes).populate_database().is_err());
}

#[test]
fn truncated_value_is_an_error() {
    let mut bytes = HEADER.to_vec();
    bytes.extend_from_slice(&[0xFBu8, 0x01, 0x00, 0x00, 0x01, b'k', 0x09, b'v']);
    assert!(RdbParser::new(bytes).populate_database().is_err());
}

#[test]
fn unknown_record_type_stops_with_pairs_so_far() {
    let mut bytes = HEADER.to_vec();
    bytes.extend_from_slice(&[0xFBu8, 0x01, 0x00]);
    bytes.extend_from_slice(&string_record(b"kept", b"v"));
    bytes.push(0x09); // a record type this decoder does not know
    bytes.extend_from_slice(&string_record(b"lost", b"w"));
    let ks = RdbParser::new(bytes).populate_database().unwrap();
    assert_eq!(ks.get(&b"kept".to_vec(), 0), Some(b"v".to_vec()));
    assert_eq!(ks.get(&b"lost".to_vec(), 0), None);
}

#[test]
fn unsupported_length_encoding_stops_with_pairs_so_far() {
    let mut bytes = HEADER.to_vec();
    bytes.extend_from_slice(&[0xFBu8, 0x01, 0x00]);
    bytes.extend_from_slice(&string_record(b"kept", b"v"));
    bytes.extend_from_slice(&[0x00u8, 0xC0, 0x7F]); // special integer encoding
    let ks = RdbParser::new(bytes).populate_database().unwrap();
    assert_eq!(ks.get(&b"kept".to_vec(), 0), Some(b"v".to_vec()));
    assert_eq!(ks.keys().len(), 1);
}

#[test]
fn file_without_selector_is_empty() {
    let mut bytes = HEADER.to_vec();
    bytes.extend_from_slice(&string_record(b"ignored", b"v"));
    let ks = RdbParser::new(bytes).populate_database().unwrap();
    assert!(ks.keys().is_empty());
}

#[test]
fn fourteen_bit_length_is_decoded() {
    let key = vec![b'x'; 300];
    let mut bytes = HEADER.to_vec();
    bytes.extend_from_slice(&[0xFBu8, 0x01, 0x00, 0x00]);
    bytes.push(0x40 | (300u16 >> 8) as u8);
    bytes.push((300u16 & 0xFF) as u8);
    bytes.extend_from_slice(&key);
    bytes.extend_from_slice(&[0x01, b'v', 0xFF]);
    let ks = RdbParser::new(bytes).populate_database().unwrap();
    assert_eq!(ks.get(&key, 0), Some(b"v".to_vec()));
}

#[test]
fn thirty_two_bit_length_is_decoded() {
    let key = vec![b'y'; 70000];
    let mut bytes = HEADER.to_vec();
    bytes.extend_from_slice(&[0xFBu8, 0x01, 0x00, 0x00, 0x80]);
    bytes.extend_from_slice(&70000u32.to_be_bytes());
    bytes.extend_from_slice(&key);
    bytes.extend_from_slice(&[0x01, b'v', 0xFF]);
    let ks = RdbParser::new(bytes).populate_database().unwrap();
    assert_eq!(ks.get(&key, 0), Some(b"v".to_vec()));
}

#[test]
fn skip_header_metadata_lands_after_table_sizes() {
    let bytes = file(&[]);
    assert_eq!(skip_header_metadata(&bytes), 12);
    assert_eq!(skip_header_metadata(HEADER), HEADER.len());
    assert_eq!(skip_header_metadata(b"short"), 5);
}

#[test]
fn decoded_string_reads_length_prefixed_bytes() {
    let buf = b"\x03abcrest".to_vec();
    let (s, next) = get_decoded_string(&buf, 0).unwrap();
    assert_eq!(s, b"abc".to_vec());
    assert_eq!(next, 4);
    assert_eq!(get_decoded_string(&b"\x05ab".to_vec(), 0), Err(RdbError::Truncated));
    assert_eq!(get_decoded_string(&b"\xC1ab".to_vec(), 0), Err(RdbError::UnsupportedLength));
}

#[test]
fn decoded_expiries_are_little_endian() {
    let mut buf = 123456789u64.to_le_bytes().to_vec();
    buf.push(0xAA);
    assert_eq!(get_decoded_expiry_time_ms(&buf, 0), Ok((123456789, 8)));
    assert_eq!(get_decoded_expiry_time_ms(&buf[..7].to_vec(), 0), Err(RdbError::Truncated));
    let sbuf = 9u32.to_le_bytes().to_vec();
    assert_eq!(get_decoded_expiry_time_seconds(&sbuf, 0), Ok((9000, 4)));
    assert_eq!(
        get_decoded_expiry_time_seconds(&sbuf[..3].to_vec(), 0),
        Err(RdbError::Truncated),
    );
}

#[test]
fn parse_rdb_file_entry_point() {
    let bytes = file(&[string_record(b"k", b"v")]);
    let ks = parse_rdb_file(&bytes).unwrap();
    assert_eq!(ks.get(&b"k".to_vec(), 0), Some(b"v".to_vec()));
}
