use cyclescan::codec::{
    decode_project, decode_unit, encode_project, encode_unit, nat_to_u128, ProjectRecord,
    UnitRecord,
};
use cyclescan::types::ProxyType;

#[test]
fn unit_record_round_trips() {
    let rec = UnitRecord {
        proxy_id: 0xDEAD_BEEF_1234_5678,
        proxy_type: ProxyType::GroupedRoot,
        valid: false,
        project_name: Some("alpha".to_string()),
    };
    let bytes = encode_unit(&rec);
    let back = decode_unit(&bytes).unwrap();
    assert_eq!(back.proxy_id, rec.proxy_id);
    assert!(matches!(back.proxy_type, ProxyType::GroupedRoot));
    assert!(!back.valid);
    assert_eq!(back.project_name.as_deref(), Some("alpha"));
}

#[test]
fn unit_record_without_name_round_trips() {
    let rec = UnitRecord {
        proxy_id: 7,
        proxy_type: ProxyType::Direct,
        valid: true,
        project_name: None,
    };
    let bytes = encode_unit(&rec);
    let back = decode_unit(&bytes).unwrap();
    assert_eq!(back.proxy_id, 7);
    assert!(matches!(back.proxy_type, ProxyType::Direct));
    assert!(back.valid);
    assert_eq!(back.project_name, None);
}

#[test]
fn legacy_unit_record_defaults_validity_true() {
    // Version 0: proxy id, mechanism byte, no-name marker — no validity.
    let mut bytes = vec![0u8];
    bytes.extend_from_slice(&7u64.to_le_bytes());
    bytes.push(1); // GroupedRoot
    bytes.push(0); // no name
    let back = decode_unit(&bytes).unwrap();
    assert_eq!(back.proxy_id, 7);
    assert!(matches!(back.proxy_type, ProxyType::GroupedRoot));
    assert!(back.valid);
    assert_eq!(back.project_name, None);
}

#[test]
fn legacy_unit_record_with_name_decodes() {
    let mut bytes = vec![0u8];
    bytes.extend_from_slice(&9u64.to_le_bytes());
    bytes.push(0); // Direct
    bytes.push(1); // name present
    bytes.push(2); // two bytes
    bytes.extend_from_slice(b"ok");
    let back = decode_unit(&bytes).unwrap();
    assert!(back.valid);
    assert_eq!(back.project_name.as_deref(), Some("ok"));
}

#[test]
fn invalid_utf8_name_degrades_to_absent() {
    let mut bytes = vec![1u8];
    bytes.extend_from_slice(&9u64.to_le_bytes());
    bytes.push(0); // Direct
    bytes.push(1); // valid
    bytes.push(1); // name present
    bytes.push(2); // two bytes
    bytes.extend_from_slice(&[0xFF, 0xFE]);
    let back = decode_unit(&bytes).unwrap();
    assert_eq!(back.project_name, None);
    assert!(back.valid);
}

#[test]
fn malformed_unit_records_are_refused() {
    assert!(decode_unit(&Vec::new()).is_none());
    assert!(decode_unit(&vec![1u8, 2, 3]).is_none());
    assert!(decode_unit(&vec![9u8; 20]).is_none());
    // Truncated name payload.
    let mut bytes = vec![1u8];
    bytes.extend_from_slice(&9u64.to_le_bytes());
    bytes.push(0);
    bytes.push(1);
    bytes.push(1);
    bytes.push(5);
    bytes.extend_from_slice(b"ab");
    assert!(decode_unit(&bytes).is_none());
}

#[test]
fn project_record_round_trips() {
    let rec = ProjectRecord { website: Some("https://example.test".to_string()) };
    let back = decode_project(&encode_project(&rec)).unwrap();
    assert_eq!(back.website.as_deref(), Some("https://example.test"));
    let none = ProjectRecord { website: None };
    assert_eq!(decode_project(&encode_project(&none)).unwrap().website, None);
}

#[test]
fn legacy_project_record_has_no_website() {
    let back = decode_project(&vec![0u8]).unwrap();
    assert_eq!(back.website, None);
}

#[test]
fn nat_magnitudes_read_little_endian_and_saturate() {
    assert_eq!(nat_to_u128(&Vec::new()), 0);
    assert_eq!(nat_to_u128(&vec![1]), 1);
    assert_eq!(nat_to_u128(&vec![0x34, 0x12]), 0x1234);
    assert_eq!(nat_to_u128(&vec![0xFF; 16]), u128::MAX);
    assert_eq!(nat_to_u128(&vec![0; 17]), u128::MAX);
}
