use libcsp::codec::{pack_header, unpack_header, CspId, HeaderVersion};
use libcsp::codes::CspError;

fn sample_id() -> CspId {
    CspId { pri: 1, flags: 5, src: 2, dst: 3, dport: 4, sport: 6 }
}

#[test]
fn header_len_by_version() {
    assert_eq!(HeaderVersion::Legacy.header_len(), 4);
    assert_eq!(HeaderVersion::Current.header_len(), 6);
}

#[test]
fn pack_current_exact_bytes() {
    let bytes = pack_header(&sample_id(), HeaderVersion::Current);
    assert_eq!(bytes, vec![0x40, 0x03, 0x00, 0x08, 0x41, 0x85]);
}

#[test]
fn pack_legacy_exact_bytes() {
    let id = CspId { pri: 1, flags: 0xAB, src: 2, dst: 3, dport: 4, sport: 6 };
    let bytes = pack_header(&id, HeaderVersion::Legacy);
    assert_eq!(bytes, vec![0x44, 0x31, 0x06, 0xAB]);
}

#[test]
fn header_round_trip_current() {
    let id = sample_id();
    let bytes = pack_header(&id, HeaderVersion::Current);
    let back = unpack_header(&bytes, HeaderVersion::Current).unwrap();
    assert_eq!(back, id);
}

#[test]
fn header_round_trip_current_extremes() {
    let id = CspId { pri: 3, flags: 63, src: 16383, dst: 16383, dport: 63, sport: 63 };
    let bytes = pack_header(&id, HeaderVersion::Current);
    let back = unpack_header(&bytes, HeaderVersion::Current).unwrap();
    assert_eq!(back, id);
}

#[test]
fn header_round_trip_legacy() {
    let id = CspId { pri: 2, flags: 0xFF, src: 31, dst: 30, dport: 63, sport: 62 };
    let bytes = pack_header(&id, HeaderVersion::Legacy);
    let back = unpack_header(&bytes, HeaderVersion::Legacy).unwrap();
    assert_eq!(back, id);
}

#[test]
fn unpack_rejects_wrong_length() {
    let short: Vec<u8> = vec![1, 2, 3];
    assert_eq!(unpack_header(&short, HeaderVersion::Current), Err(CspError::Inval));
    assert_eq!(unpack_header(&short, HeaderVersion::Legacy), Err(CspError::Inval));
    let long: Vec<u8> = vec![0; 7];
    assert_eq!(unpack_header(&long, HeaderVersion::Current), Err(CspError::Inval));
}

#[test]
fn unpack_is_inverse_of_pack_on_wire_bytes() {
    let bytes: Vec<u8> = vec![0x40, 0x03, 0x00, 0x08, 0x41, 0x85];
    let id = unpack_header(&bytes, HeaderVersion::Current).unwrap();
    assert_eq!(pack_header(&id, HeaderVersion::Current), bytes);
}

#[test]
fn validity_respects_field_widths() {
    let too_wide = CspId { pri: 4, flags: 0, src: 0, dst: 0, dport: 0, sport: 0 };
    assert!(!too_wide.is_valid(HeaderVersion::Current));
    let wide_src = CspId { pri: 0, flags: 0, src: 40, dst: 0, dport: 0, sport: 0 };
    assert!(wide_src.is_valid(HeaderVersion::Current));
    assert!(!wide_src.is_valid(HeaderVersion::Legacy));
}
