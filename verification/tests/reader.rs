use esmerge::merge::bytes_eq;
use esmerge::model::FormatError;
use esmerge::reader::{parse_record_header, read_ident, read_u16, read_u32, read_u8, skip};

#[test]
fn primitive_reads_advance_in_little_endian_order() {
    let data = vec![0x01u8, 0x02, 0x03, 0x04, 0x05, 0x06, 0x07];
    let mut pos = 0usize;
    assert_eq!(read_u8(&data, &mut pos).unwrap(), 0x01);
    assert_eq!(read_u16(&data, &mut pos).unwrap(), 0x0302);
    assert_eq!(read_u32(&data, &mut pos).unwrap(), 0x07060504);
    assert_eq!(pos, 7);
    assert_eq!(read_u8(&data, &mut pos).unwrap_err(), FormatError::TruncatedStream);
}

#[test]
fn ident_reads_four_tag_bytes() {
    let data = b"HEDRx".to_vec();
    let mut pos = 0usize;
    assert_eq!(read_ident(&data, &mut pos).unwrap(), u32::from_le_bytes(*b"HEDR"));
    assert_eq!(pos, 4);
}

#[test]
fn skip_requires_enough_bytes() {
    let data = vec![0u8; 10];
    let mut pos = 0usize;
    assert!(skip(&data, &mut pos, 10).is_ok());
    assert_eq!(pos, 10);
    let mut pos2 = 0usize;
    assert_eq!(skip(&data, &mut pos2, 11).unwrap_err(), FormatError::TruncatedStream);
    assert_eq!(pos2, 0);
}

#[test]
fn record_header_fields_come_back_in_order() {
    let mut data = Vec::new();
    data.extend_from_slice(b"MUSC");
    data.extend_from_slice(&55u32.to_le_bytes());
    data.extend_from_slice(&0xAAu32.to_le_bytes());
    data.extend_from_slice(&0x0900_0001u32.to_le_bytes());
    data.extend_from_slice(&2u32.to_le_bytes());
    data.extend_from_slice(&44u16.to_le_bytes());
    data.extend_from_slice(&9u16.to_le_bytes());
    let mut pos = 0usize;
    let h = parse_record_header(&data, &mut pos).unwrap();
    assert_eq!(pos, 24);
    assert_eq!(h.record_type, u32::from_le_bytes(*b"MUSC"));
    assert_eq!(h.size, 55);
    assert_eq!(h.flags, 0xAA);
    assert_eq!(h.id, 0x0900_0001);
    assert_eq!(h.revision, 2);
    assert_eq!(h.version, 44);
    assert_eq!(h.unknown, 9);
}

#[test]
fn bytes_eq_compares_contents() {
    assert!(bytes_eq(&b"abc".to_vec(), &b"abc".to_vec()));
    assert!(!bytes_eq(&b"abc".to_vec(), &b"abd".to_vec()));
    assert!(!bytes_eq(&b"abc".to_vec(), &b"ab".to_vec()));
    assert!(bytes_eq(&Vec::new(), &Vec::new()));
}
