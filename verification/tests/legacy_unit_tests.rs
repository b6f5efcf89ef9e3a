use base64::Engine;
use c8y_oms_parser_service::legacy::{
    decrypt_mode_7, parse_mbus_stream, parse_payload, parse_signed, parse_unsigned, JsonValue, ParseRequest,
};

fn b64(bytes: &[u8]) -> String {
    base64::engine::general_purpose::STANDARD.encode(bytes)
}

fn request(payload: &str, oms_mode: Option<u8>, key: Option<&str>) -> ParseRequest {
    ParseRequest { payload: payload.to_string(), oms_mode, encryptionkey: key.map(|k| k.to_string()) }
}

/// A mode 5 telegram (CI 0x8C) whose payload decrypts under key 00..0F.
const MODE5: &str = "ckQtLHhWNBIBB4wqAIiPFplSRwroo6hbKqfNt0I=";
const KEY: &str = "000102030405060708090A0B0C0D0E0F";

#[test]
fn legacy_stream_decodes_value_kinds() {
    let recs = parse_mbus_stream(&[
        0x2F, 0x2F, 0x02, 0x59, 0xF0, 0xD8, 0x03, 0x3B, 0x10, 0x00, 0x00, 0x0D, 0x13, 0x02, 0xAB, 0xCD, 0x04,
        0x22, 0x05, 0x00, 0x00, 0x00, 0x01, 0x7F, 0x09,
    ]);
    assert_eq!(recs.len(), 5);
    assert_eq!(recs[0].Name, "Flow Temperature");
    assert_eq!(recs[0].Unit, "°C");
    assert!(matches!(recs[0].Value, JsonValue::Rounded { raw: -10000, exponent: -2, decimals: 2 }));
    assert_eq!(recs[1].Name, "Current Flow");
    assert!(matches!(recs[1].Value, JsonValue::RoundedUnsigned { raw: 16, exponent: -3, decimals: 3 }));
    assert_eq!(recs[2].Name, "Special Data");
    assert_eq!(recs[2].HeaderRaw, "0D13");
    assert!(matches!(&recs[2].Value, JsonValue::Text(s) if s == "ABCD"));
    assert_eq!(recs[3].Name, "On Time");
    assert_eq!(recs[3].Unit, "hours");
    assert!(matches!(recs[3].Value, JsonValue::Unsigned(5)));
    assert_eq!(recs[4].Name, "Metric");
    assert_eq!(recs[4].Quantity, "Unknown");
    assert!(matches!(recs[4].Value, JsonValue::Unsigned(9)));
    for (i, r) in recs.iter().enumerate() {
        assert_eq!(r.RecordIndex, i);
    }
    assert_eq!(recs[0].DIF, "0x02");
    assert_eq!(recs[0].VIF, "0x59");
}

#[test]
fn legacy_volume_prefers_strict_bcd() {
    let recs = parse_mbus_stream(&[0x0C, 0x13, 0x45, 0x23, 0x01, 0x00, 0x0C, 0x13, 0x4A, 0x00, 0x00, 0x00]);
    assert_eq!(recs.len(), 2);
    assert!(matches!(recs[0].Value, JsonValue::RoundedUnsigned { raw: 12345, exponent: -3, decimals: 3 }));
    assert!(matches!(recs[1].Value, JsonValue::RoundedUnsigned { raw: 0x4A, exponent: -3, decimals: 3 }));
}

#[test]
fn legacy_battery_and_error_flags() {
    let recs = parse_mbus_stream(&[0x01, 0xFD, 0x74, 0x61, 0x01, 0xFD, 0x17, 0x03, 0x01, 0xFD, 0x25, 0x02]);
    assert_eq!(recs.len(), 3);
    assert_eq!(recs[0].Unit, "months");
    assert!(matches!(recs[0].Value, JsonValue::Unsigned(97)));
    assert_eq!(recs[1].Name, "Error Flags");
    assert_eq!(recs[1].Quantity, "StatusAndDiagnostics");
    assert_eq!(recs[2].Unit, "years");
}

#[test]
fn legacy_invalid_date_falls_through() {
    let recs = parse_mbus_stream(&[0x04, 0x6D, 0x0D, 0x0A, 0x5E, 0x32]);
    assert_eq!(recs.len(), 1);
    assert_eq!(recs[0].Name, "Metric");
    let recs = parse_mbus_stream(&[0x04, 0x6D, 0x0D, 0x0A, 0x5D, 0x36]);
    assert!(matches!(&recs[0].Value, JsonValue::Text(s) if s == "2026-06-29 10:13:00"));
}

#[test]
fn legacy_mode7_short_input_gives_nothing() {
    assert!(decrypt_mode_7(&[0u8; 20], &[0u8; 16], 0, 0).is_empty());
    assert!(decrypt_mode_7(&[0u8; 40], &[0u8; 16], 0, 0).is_empty());
}

#[test]
fn legacy_service_rejects_bad_base64() {
    match parse_payload(&request("!!!!", None, None)) {
        Err((code, msg)) => {
            assert_eq!(code, 400);
            assert_eq!(msg, "Base64 decode error: Invalid symbol 33, offset 0.");
        },
        Ok(_) => panic!("not Base64"),
    }
}

#[test]
fn legacy_service_rejects_short_payload() {
    match parse_payload(&request(&b64(&[1, 2, 3, 4, 5]), None, None)) {
        Err((code, msg)) => {
            assert_eq!(code, 400);
            assert_eq!(msg, "Payload too short");
        },
        Ok(_) => panic!("too short"),
    }
}

#[test]
fn legacy_service_rejects_bad_keys() {
    match parse_payload(&request(MODE5, Some(5), Some("zz"))) {
        Err((code, msg)) => {
            assert_eq!(code, 400);
            assert_eq!(msg, "Invalid key hex: Invalid character 'z' at position 0");
        },
        Ok(_) => panic!("bad key"),
    }
    match parse_payload(&request(MODE5, Some(5), Some("0011"))) {
        Err((code, msg)) => {
            assert_eq!(code, 400);
            assert_eq!(msg, "Key must be 16 bytes");
        },
        Ok(_) => panic!("short key"),
    }
}

#[test]
fn legacy_service_decrypts_mode5() {
    let resp = parse_payload(&request(MODE5, Some(5), Some(KEY))).unwrap();
    assert_eq!(resp.ProgState, "Success");
    assert_eq!(resp.DLL.DeviceType, "WaterMeter");
    assert_eq!(resp.DLL.Manufacturer, "4472");
    assert_eq!(resp.DLL.IdentificationNo, "56782C2D");
    let recs = &resp.ParsedMeasurements;
    assert_eq!(recs.len(), 2);
    assert_eq!(recs[0].HeaderRaw, "0413");
    assert!(matches!(recs[0].Value, JsonValue::RoundedUnsigned { raw: 1000, exponent: -3, decimals: 3 }));
    assert_eq!(recs[1].HeaderRaw, "02FD74");
    assert!(matches!(recs[1].Value, JsonValue::Unsigned(97)));
}

#[test]
fn legacy_service_defaults_to_mode5() {
    let resp = parse_payload(&request(MODE5, None, Some(KEY))).unwrap();
    assert_eq!(resp.ParsedMeasurements.len(), 2);
}

#[test]
fn legacy_service_skips_decryption_without_usable_key() {
    let blank = parse_payload(&request(MODE5, Some(5), Some(" \t\u{3000} "))).unwrap();
    let none = parse_payload(&request(MODE5, Some(5), None)).unwrap();
    let mode0 = parse_payload(&request(MODE5, Some(0), Some(KEY))).unwrap();
    assert_eq!(blank.ParsedMeasurements.len(), none.ParsedMeasurements.len());
    assert_eq!(mode0.ParsedMeasurements.len(), none.ParsedMeasurements.len());
    for (a, b) in blank.ParsedMeasurements.iter().zip(none.ParsedMeasurements.iter()) {
        assert_eq!(a.HeaderRaw, b.HeaderRaw);
    }
}

#[test]
fn legacy_service_leaves_plaintext_alone() {
    let plain = [0x72, 0x44, 0x2D, 0x2C, 0x78, 0x56, 0x34, 0x12, 0x01, 0x07, 0x7A, 0x2A, 0x00, 0x2F, 0x2F, 0x04, 0x13,
        0xE8, 0x03, 0x00, 0x00];
    let resp = parse_payload(&request(&b64(&plain), Some(5), Some("zz"))).unwrap();
    assert_eq!(resp.ParsedMeasurements.len(), 1);
    assert_eq!(resp.ParsedMeasurements[0].Name, "Volume");
}

#[test]
fn legacy_integer_readings() {
    assert_eq!(parse_signed(&[0xF0, 0xD8]), -10000);
    assert_eq!(parse_signed(&[0xFF]), -1);
    assert_eq!(parse_signed(&[0x7F]), 127);
    assert_eq!(parse_signed(&[]), 0);
    assert_eq!(parse_signed(&[0xFF; 9]), -1);
    assert_eq!(parse_unsigned(&[0xF0, 0xD8]), 0xD8F0);
    assert_eq!(parse_unsigned(&[1, 0, 0, 0, 0, 0, 0, 0, 5]), 1);
}

#[test]
fn legacy_mode7_ignores_fallback_fields() {
    let raw = base64::engine::general_purpose::STANDARD
        .decode("U0SlERRWIBBjB4wAopAPACwl+QEAANenWzqH/MGler9wMQcQCpITda+/Piwi5ZLtWp27vOPvpx/8gqu/Ybv2FSWfzq6L9OT1yzSw9F9ue+gxII2V")
        .unwrap();
    let key = [0x55u8; 16];
    assert_eq!(decrypt_mode_7(&raw, &key, 0x20, 0x10), decrypt_mode_7(&raw, &key, 0x00, 0xFF));
}
