use base64::Engine;
use c8y_oms_parser_service::registry::build_driver_registry;
use c8y_oms_parser_service::service::{
    format_oms_mode, handle_parse_request, hex_key_is_sliceable, hex_to_bytes, mask_key, try_handle_parse_request,
    ParseRequest,
};

fn b64(bytes: &[u8]) -> String {
    base64::engine::general_purpose::STANDARD.encode(bytes)
}

fn request(payload: String, oms_mode: Option<u8>, key: Option<&str>) -> ParseRequest {
    ParseRequest { payload, oms_mode, encryptionkey: key.map(|k| k.to_string()) }
}

const MTX_TELEGRAM: [u8; 18] = [
    0x0E, 0x44, 0x98, 0x36, 0x11, 0x22, 0x33, 0x44, 0x01, 0x07, 0x2F, 0x2F, 0x04, 0x13, 0xE8, 0x03, 0x00, 0x00,
];

#[test]
fn hex_keys_decode_pairwise() {
    assert_eq!(hex_to_bytes("00ff7A"), Ok(vec![0x00, 0xFF, 0x7A]));
    assert_eq!(hex_to_bytes(""), Ok(vec![]));
    assert_eq!(hex_to_bytes("+A0B"), Ok(vec![0x0A, 0x0B]));
}

#[test]
fn hex_key_errors() {
    assert_eq!(hex_to_bytes("ABC"), Err("Hex string must have an even length".to_string()));
    assert_eq!(hex_to_bytes("0G"), Err("invalid digit found in string".to_string()));
    assert_eq!(hex_to_bytes("00-1"), Err("invalid digit found in string".to_string()));
}

#[test]
fn hex_key_slicing_check() {
    assert!(hex_key_is_sliceable("00ff"));
    assert!(hex_key_is_sliceable("abc"));
    assert!(hex_key_is_sliceable("0é"));
    assert!(!hex_key_is_sliceable("aé0"));
    assert!(hex_key_is_sliceable("é00"));
}

#[test]
fn keys_are_masked_for_logs() {
    assert_eq!(mask_key(None), "NONE");
    assert_eq!(mask_key(Some(&"short".to_string())), "***");
    assert_eq!(mask_key(Some(&"0011223344556677".to_string())), "0011***6677");
    assert_eq!(mask_key(Some(&"12345678".to_string())), "***");
    assert_eq!(mask_key(Some(&"123456789".to_string())), "1234***6789");
}

#[test]
fn oms_mode_for_logs() {
    assert_eq!(format_oms_mode(Some(7)), "7");
    assert_eq!(format_oms_mode(Some(255)), "255");
    assert_eq!(format_oms_mode(None), "AUTO");
}

#[test]
fn service_rejects_bad_base64() {
    let (code, resp) = handle_parse_request(&build_driver_registry(), &request("!!!!".to_string(), None, None));
    assert_eq!(code, 400);
    assert_eq!(resp.status, "error");
    assert!(resp.data.is_none());
    assert_eq!(resp.error, Some("Invalid base64 payload: Invalid symbol 33, offset 0.".to_string()));
}

#[test]
fn service_rejects_bad_key() {
    let reg = build_driver_registry();
    let (code, resp) = handle_parse_request(&reg, &request(b64(&MTX_TELEGRAM), None, Some("ABC")));
    assert_eq!(code, 400);
    assert_eq!(resp.error, Some("Invalid encryption key format: Hex string must have an even length".to_string()));
    let (code, resp) = handle_parse_request(&reg, &request(b64(&MTX_TELEGRAM), None, Some("zz")));
    assert_eq!(code, 400);
    assert_eq!(resp.error, Some("Invalid encryption key format: invalid digit found in string".to_string()));
}

#[test]
fn service_reports_processing_errors() {
    let reg = build_driver_registry();
    let (code, resp) = handle_parse_request(&reg, &request(b64(&[1, 2, 3]), None, None));
    assert_eq!(code, 422);
    assert_eq!(resp.status, "error");
    assert_eq!(resp.error, Some("Header too short (minimum 10 bytes required)".to_string()));
    let (code, resp) = handle_parse_request(&reg, &request(b64(&MTX_TELEGRAM), Some(5), Some("")));
    assert_eq!(code, 422);
    assert_eq!(resp.error, Some("Decryption failed: Invalid key length: expected 16 bytes, got 0".to_string()));
    let mut kam = MTX_TELEGRAM;
    kam[2] = 0x2D;
    kam[3] = 0x2C;
    let (code, resp) = handle_parse_request(&reg, &request(b64(&kam), None, None));
    assert_eq!(code, 200);
    assert_eq!(resp.data.unwrap().driver_name, "StandardOmsDriver");
}

#[test]
fn service_returns_driver_result() {
    let (code, resp) = handle_parse_request(&build_driver_registry(), &request(b64(&MTX_TELEGRAM), None, None));
    assert_eq!(code, 200);
    assert_eq!(resp.status, "success");
    assert!(resp.error.is_none());
    let data = resp.data.unwrap();
    assert_eq!(data.driver_name, "MeterXDriver");
    assert_eq!(data.parsed_measurements.len(), 1);
}

#[test]
fn service_checks_key_slicing_only_for_base64_payloads() {
    let reg = build_driver_registry();
    match try_handle_parse_request(&reg, &request("!!!!".to_string(), None, Some("aé0"))) {
        Some((code, resp)) => {
            assert_eq!(code, 400);
            assert_eq!(resp.error, Some("Invalid base64 payload: Invalid symbol 33, offset 0.".to_string()));
        },
        None => panic!("the payload is rejected before the key is read"),
    }
    assert!(try_handle_parse_request(&reg, &request(b64(&MTX_TELEGRAM), None, Some("aé0"))).is_none());
    let answer = try_handle_parse_request(&reg, &request(b64(&MTX_TELEGRAM), None, None)).unwrap();
    assert_eq!(answer.0, 200);
}
