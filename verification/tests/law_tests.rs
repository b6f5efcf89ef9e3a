use base64::Engine;
use c8y_oms_parser_service::legacy::{decrypt_mode_7, parse_mbus_stream};
use c8y_oms_parser_service::mbus::parse_wmbus_records;
use c8y_oms_parser_service::registry::build_driver_registry;
use c8y_oms_parser_service::security::{EncryptionMode, SecurityEngine};
use c8y_oms_parser_service::service::{handle_parse_request, hex_to_bytes, mask_key, ParseRequest};
use c8y_oms_parser_service::text::hex_encode_upper;
use c8y_oms_parser_service::traits::DllHeader;

const AXIOMA: &str = "YUQJB3RFcgkgB3pKEAAABG0NCl02BCCgNUcBBBMAAAAABJM7AAAAAASTPAAAAAACOwAAAlnw2ERtAABBNkQTAAAAAESTOwAAAABEkzwAAAAANP0XAQAAAAQkVzNHAQH9dGE=";

fn decode(s: &str) -> Vec<u8> {
    base64::engine::general_purpose::STANDARD.decode(s).unwrap()
}

#[test]
fn law_example_hex_key_roundtrip() {
    let key = vec![0x55, 0x8D, 0x41, 0xBE, 0x00, 0xFF, 0x0A, 0xA0];
    let text = hex_encode_upper(&key);
    assert_eq!(text, "558D41BE00FF0AA0");
    assert_eq!(hex_to_bytes(&text), Ok(key.clone()));
    let lower = hex::encode(&key);
    assert_eq!(lower, "558d41be00ff0aa0");
    assert_eq!(hex_to_bytes(&lower), Ok(key));
}

#[test]
fn law_example_record_count_bounded() {
    for raw in [decode(AXIOMA), vec![0x01, 0x13, 0x05, 0x01, 0x13, 0x06], vec![]] {
        assert!(2 * parse_wmbus_records(&raw).len() <= raw.len());
    }
    assert_eq!(parse_wmbus_records(&[0x00, 0x7F, 0x00, 0x7F, 0x00, 0x7F]).len(), 3);
}

#[test]
fn law_example_mask_hides_middle() {
    let a = "0011223344556677".to_string();
    let b = "0011XXXXXXXXXXXXXXXX6677".to_string();
    assert_eq!(mask_key(Some(&a)), mask_key(Some(&b)));
    assert_eq!(mask_key(Some(&"abc".to_string())), mask_key(Some(&"12345678".to_string())));
}

#[test]
fn law_example_response_shape() {
    let reg = build_driver_registry();
    for (payload, key) in [("!!!!", None), ("AAAA", None), ("AAAA", Some("0")), (AXIOMA, None)] {
        let req = ParseRequest { payload: payload.to_string(), oms_mode: None, encryptionkey: key.map(|k: &str| k.to_string()) };
        let (code, resp) = handle_parse_request(&reg, &req);
        assert!(code == 200 || code == 400 || code == 422);
        assert_eq!(code == 200, resp.status == "success");
        assert_eq!(code == 200, resp.data.is_some());
        assert_eq!(code == 200, resp.error.is_none());
    }
}

#[test]
fn law_example_sanitized_has_no_fill() {
    let raw = [0u8, 0x2F, 0x2F, 0x07, 0x2F, 0x08, 0x2F];
    let r = SecurityEngine::decrypt_and_sanitize(EncryptionMode::Unencrypted, &raw, 1, None).unwrap();
    assert_eq!(r, vec![0x07, 0x2F, 0x08]);
    let again = SecurityEngine::decrypt_and_sanitize(EncryptionMode::Unencrypted, &r, 0, None).unwrap();
    assert_eq!(again, r);
}

#[test]
fn law_example_manufacturer_code_roundtrip() {
    for code in ["KAM", "DME", "AXI", "@@@", "___"] {
        let c: Vec<u8> = code.bytes().collect();
        let v = (c[0] as u16 - 64) * 1024 + (c[1] as u16 - 64) * 32 + (c[2] as u16 - 64);
        let raw = [0x0E, 0x44, (v % 256) as u8, (v / 256) as u8, 0, 0, 0, 0, 0, 0];
        assert_eq!(DllHeader::from_bytes(&raw).unwrap().manufacturer_code(), code);
        let high = [0x0E, 0x44, (v % 256) as u8, (v / 256) as u8 | 0x80, 0, 0, 0, 0, 0, 0];
        assert_eq!(DllHeader::from_bytes(&high).unwrap().manufacturer_code(), code);
    }
}

#[test]
fn law_example_decoders_frame_alike() {
    let raw = decode(AXIOMA);
    let new = parse_wmbus_records(&raw);
    let old = parse_mbus_stream(&raw);
    assert_eq!(new.len(), old.len());
    assert!(!new.is_empty());
    for (i, (a, b)) in old.iter().zip(new.iter()).enumerate() {
        assert_eq!(a.HeaderRaw, b.header_raw);
        assert_eq!(a.DIF, format!("0x{}", b.dib));
        assert_eq!(a.VIF, format!("0x{}", b.vib));
        assert_eq!(a.RecordIndex, i);
    }
}

#[test]
fn law_example_header_begins_with_dib() {
    for r in parse_wmbus_records(&decode(AXIOMA)) {
        assert!(r.header_raw.len() >= 4);
        assert_eq!(r.header_raw.len() % 2, 0);
        assert_eq!(&r.header_raw[0..2], r.dib);
        assert_eq!(r.dib.len(), 2);
        assert_eq!(r.vib.len(), 2);
    }
}

#[test]
fn law_example_mode7_plaintext_or_empty() {
    let raw = decode("U0SlERRWIBBjB4wAopAPACwl+QEAANenWzqH/MGler9wMQcQCpITda+/Piwi5ZLtWp27vOPvpx/8gqu/Ybv2FSWfzq6L9OT1yzSw9F9ue+gxII2V");
    let key = hex::decode("558D41BE475C5BC1C187510D6EE992DA").unwrap();
    let d = decrypt_mode_7(&raw, &key, 0, 0);
    assert!(d.is_empty() || (d[0] == 0x2F && d[1] == 0x2F) || d[0] == 0x78 || d[0] == 0x7A || d[0] == 0x72);
}

#[test]
fn law_example_diehl_keeps_record_identity() {
    let raw = [0x0E, 0x44, 0xA5, 0x11, 0, 0, 0, 0, 1, 7, 0x4C, 0x13, 0x00, 0x00, 0x00, 0x00, 0x42, 0x6C, 0xFF, 0xFF];
    let r = build_driver_registry().process(&raw, None, None).unwrap();
    let plain = parse_wmbus_records(&raw[10..]);
    assert_eq!(r.parsed_measurements.len(), plain.len());
    for (a, b) in r.parsed_measurements.iter().zip(plain.iter()) {
        assert_eq!(a.header_raw, b.header_raw);
        assert_eq!(a.dib, b.dib);
        assert_eq!(a.vib, b.vib);
        assert_eq!((a.storage_no, a.tariff, a.device), (b.storage_no, b.tariff, b.device));
    }
    assert_eq!(r.parsed_measurements[1].description, "Target Billing Date (Unset)");
}
