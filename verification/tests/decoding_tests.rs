use c8y_oms_parser_service::mbus::{
    parse_bcd_bytes, parse_dif_dife_metadata, parse_mbus_date, parse_mbus_datetime_f, parse_vif,
    parse_wmbus_records,
};
use c8y_oms_parser_service::traits::{DllHeader, MeasurementValue, ParseError, Scale};

fn scaled(v: &MeasurementValue) -> Option<(i64, Scale)> {
    match v {
        MeasurementValue::Scaled { raw, scale } => Some((*raw, *scale)),
        _ => None,
    }
}

#[test]
fn bcd_bytes_little_endian() {
    assert_eq!(parse_bcd_bytes(&[0x34, 0x12]), 1234);
    assert_eq!(parse_bcd_bytes(&[0x78, 0x56, 0x34, 0x12]), 12345678);
    assert_eq!(parse_bcd_bytes(&[]), 0);
}

#[test]
fn bcd_bytes_filler_nibbles_count_as_zero() {
    assert_eq!(parse_bcd_bytes(&[0xFF, 0x12]), 1200);
    assert_eq!(parse_bcd_bytes(&[0x1A]), 10);
}

#[test]
fn date_type_g() {
    assert_eq!(parse_mbus_date(&[0x0F, 0x33]), Some("2024-03-15".to_string()));
    assert_eq!(parse_mbus_date(&[0xFF, 0xFF]), Some("Unset".to_string()));
    assert_eq!(parse_mbus_date(&[0x0F, 0x30]), None);
    assert_eq!(parse_mbus_date(&[0x0F]), None);
}

#[test]
fn datetime_type_f() {
    assert_eq!(parse_mbus_datetime_f(&[0x0D, 0x0A, 0x5D, 0x36]), Some("2026-06-29 10:13:00".to_string()));
    assert_eq!(parse_mbus_datetime_f(&[0x0D, 0x0A, 0x5D, 0x3D]), None);
    assert_eq!(parse_mbus_datetime_f(&[0x3C, 0x0A, 0x5D, 0x36]), None);
    assert_eq!(parse_mbus_datetime_f(&[0x0D, 0x0A, 0x5D]), None);
}

#[test]
fn dif_metadata_from_extensions() {
    assert_eq!(parse_dif_dife_metadata(&[]), (0, 0, 0));
    assert_eq!(parse_dif_dife_metadata(&[0x44]), (1, 0, 0));
    assert_eq!(parse_dif_dife_metadata(&[0x84, 0x10]), (0, 1, 0));
    assert_eq!(parse_dif_dife_metadata(&[0xC4, 0x41]), (3, 0, 1));
    assert_eq!(parse_dif_dife_metadata(&[0x84, 0x80, 0x11]), (32, 4, 0));
}

#[test]
fn vif_tables() {
    let (d, u, s) = parse_vif(0x13, &[0x13]);
    assert_eq!((d.as_str(), u.as_str(), s), ("Volume", "m³", Scale::Pow10(-3)));
    let (d, _, _) = parse_vif(0x93, &[0x93, 0x3B]);
    assert_eq!(d, "Forward Volume");
    let (d, _, _) = parse_vif(0x93, &[0x93, 0x3C]);
    assert_eq!(d, "Backward Volume");
    let (d, u, s) = parse_vif(0xFD, &[0xFD, 0x74]);
    assert_eq!((d.as_str(), u.as_str(), s), ("Remaining Battery Lifetime", "days", Scale::Times(1)));
    let (d, u, _) = parse_vif(0xFD, &[0xFD, 0x17]);
    assert_eq!((d.as_str(), u.as_str()), ("Diagnostic Error Flags", "bitfield"));
    let (d, u, s) = parse_vif(0x22, &[0x22]);
    assert_eq!((d.as_str(), u.as_str(), s), ("On Time", "seconds", Scale::Times(3600)));
    let (d, u, s) = parse_vif(0x25, &[0x25]);
    assert_eq!((d.as_str(), u.as_str(), s), ("Operating Time", "seconds", Scale::Times(60)));
    let (d, u, s) = parse_vif(0x03, &[0x03]);
    assert_eq!((d.as_str(), u.as_str(), s), ("Energy", "Wh", Scale::Pow10(0)));
    let (d, u, s) = parse_vif(0x0A, &[0x0A]);
    assert_eq!((d.as_str(), u.as_str(), s), ("Energy", "J", Scale::Pow10(2)));
    let (d, u, s) = parse_vif(0x1B, &[0x1B]);
    assert_eq!((d.as_str(), u.as_str(), s), ("Mass", "kg", Scale::Pow10(0)));
    let (d, u, s) = parse_vif(0x2B, &[0x2B]);
    assert_eq!((d.as_str(), u.as_str(), s), ("Power", "W", Scale::Pow10(0)));
    let (d, u, s) = parse_vif(0x33, &[0x33]);
    assert_eq!((d.as_str(), u.as_str(), s), ("Power", "J/h", Scale::Pow10(3)));
    let (d, u, s) = parse_vif(0x61, &[0x61]);
    assert_eq!((d.as_str(), u.as_str(), s), ("Temperature Difference", "K", Scale::Pow10(-2)));
    let (d, u, s) = parse_vif(0x65, &[0x65]);
    assert_eq!((d.as_str(), u.as_str(), s), ("External Temperature", "°C", Scale::Pow10(-2)));
    let (d, u, s) = parse_vif(0x69, &[0x69]);
    assert_eq!((d.as_str(), u.as_str(), s), ("Pressure", "bar", Scale::Pow10(-2)));
    let (d, u, _) = parse_vif(0x6D, &[0x6D]);
    assert_eq!((d.as_str(), u.as_str()), ("Date and Time", "ISO8601"));
    let (d, u, s) = parse_vif(0x5A, &[0x5A]);
    assert_eq!((d.as_str(), u.as_str(), s), ("Flow Temperature", "°C", Scale::Pow10(-1)));
    let (d, u, _) = parse_vif(0x7F, &[0x7F]);
    assert_eq!((d.as_str(), u.as_str()), ("Unknown Metric", "raw"));
}

#[test]
fn records_stop_at_end_marker() {
    let recs = parse_wmbus_records(&[0x2F, 0x2F, 0x04, 0x13, 0xE8, 0x03, 0x00, 0x00, 0x0F, 0x04, 0x13]);
    assert_eq!(recs.len(), 1);
    assert_eq!(recs[0].header_raw, "0413");
    assert_eq!(recs[0].dib, "04");
    assert_eq!(recs[0].vib, "13");
    assert_eq!(recs[0].description, "Volume");
    assert_eq!(scaled(&recs[0].value), Some((1000, Scale::Pow10(-3))));
}

#[test]
fn records_of_empty_and_truncated_input() {
    assert!(parse_wmbus_records(&[]).is_empty());
    assert!(parse_wmbus_records(&[0x04, 0x13, 0xE8]).is_empty());
}

#[test]
fn records_decode_signed_and_dates() {
    let recs = parse_wmbus_records(&[0x02, 0x5A, 0xF0, 0xD8, 0x04, 0x6D, 0x0D, 0x0A, 0x5D, 0x36]);
    assert_eq!(recs.len(), 2);
    assert_eq!(recs[0].description, "Flow Temperature");
    assert_eq!(scaled(&recs[0].value), Some((-10000, Scale::Pow10(-1))));
    assert_eq!(recs[1].description, "Date and Time");
    assert_eq!(recs[1].unit, "ISO8601");
    assert!(matches!(&recs[1].value, MeasurementValue::Text(s) if s == "2026-06-29 10:13:00"));
}

#[test]
fn records_keep_storage_and_extensions() {
    let recs = parse_wmbus_records(&[0x84, 0x10, 0x13, 0x01, 0x00, 0x00, 0x00]);
    assert_eq!(recs.len(), 1);
    assert_eq!(recs[0].header_raw, "841013");
    assert_eq!((recs[0].storage_no, recs[0].tariff, recs[0].device), (0, 1, 0));
}

#[test]
fn header_requires_ten_bytes() {
    assert!(matches!(DllHeader::from_bytes(&[1, 2, 3]), Err(ParseError::HeaderTooShort)));
    let h = DllHeader::from_bytes(&[0x0E, 0x44, 0xA5, 0x11, 0x11, 0x22, 0x33, 0x44, 0x01, 0x07]).unwrap();
    assert_eq!(h.manufacturer_code(), "DME");
    assert_eq!(h.manufacturer_hex(), "11A5");
    assert_eq!(h.version, 0x01);
    assert_eq!(h.device_type, 0x07);
}

#[test]
fn error_messages() {
    let e = ParseError::NoMatchingDriver { manufacturer: "KAM".to_string(), device_type: 7, version: 1 };
    assert_eq!(e.message(), "No matching driver found for M-Field: KAM, Device Type: 0x07, Version: 0x01");
    assert_eq!(ParseError::HeaderTooShort.message(), "Header too short (minimum 10 bytes required)");
    assert_eq!(ParseError::DecryptionError("x".to_string()).message(), "Decryption failed: x");
    assert_eq!(ParseError::HeaderError("y".to_string()).message(), "Header error: y");
    assert_eq!(ParseError::InvalidFrame("z".to_string()).message(), "Invalid frame structure: z");
    assert_eq!(ParseError::InvalidHeader.message(), "Invalid header offset");
}
