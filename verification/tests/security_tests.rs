use base64::Engine;
use c8y_oms_parser_service::security::{EncryptionMode, SecurityEngine};
use c8y_oms_parser_service::traits::ParseError;

const HEADER: [u8; 10] = [0x2E, 0x44, 0x2D, 0x2C, 0x78, 0x56, 0x34, 0x12, 0x01, 0x07];
const KEY: [u8; 16] = [0, 1, 2, 3, 4, 5, 6, 7, 8, 9, 10, 11, 12, 13, 14, 15];

fn with_header(body: &[u8]) -> Vec<u8> {
    let mut v = HEADER.to_vec();
    v.extend_from_slice(body);
    v
}

fn decryption_text(r: Result<Vec<u8>, ParseError>) -> String {
    match r {
        Err(ParseError::DecryptionError(s)) => s,
        other => panic!("expected a decryption error, got {:?}", other),
    }
}

#[test]
fn mode_from_number() {
    assert_eq!(EncryptionMode::from(Some(5)), EncryptionMode::Mode5);
    assert_eq!(EncryptionMode::from(Some(7)), EncryptionMode::Mode7);
    assert_eq!(EncryptionMode::from(Some(0)), EncryptionMode::Unencrypted);
    assert_eq!(EncryptionMode::from(Some(6)), EncryptionMode::Unencrypted);
    assert_eq!(EncryptionMode::from(None), EncryptionMode::Unencrypted);
}

#[test]
fn unencrypted_payload_is_stripped_of_filler() {
    let raw = with_header(&[0x2F, 0x2F, 0x01, 0xFD, 0x17, 0x05, 0x2F]);
    let r = SecurityEngine::decrypt_and_sanitize(EncryptionMode::Unencrypted, &raw, 10, None).unwrap();
    assert_eq!(r, vec![0x01, 0xFD, 0x17, 0x05]);
}

#[test]
fn all_filler_payload_becomes_empty() {
    let raw = with_header(&[0x2F, 0x2F, 0x2F]);
    let r = SecurityEngine::decrypt_and_sanitize(EncryptionMode::Unencrypted, &raw, 10, None).unwrap();
    assert!(r.is_empty());
}

#[test]
fn header_longer_than_payload() {
    let r = SecurityEngine::decrypt_and_sanitize(EncryptionMode::Unencrypted, &[1, 2, 3], 10, None);
    match r {
        Err(ParseError::HeaderError(s)) => assert_eq!(s, "Payload shorter than specified header length"),
        other => panic!("unexpected {:?}", other),
    }
}

#[test]
fn mode5_needs_a_key() {
    let raw = with_header(&[0u8; 16]);
    let r = SecurityEngine::decrypt_and_sanitize(EncryptionMode::Mode5, &raw, 10, None);
    assert_eq!(decryption_text(r), "OMS Mode 5 requires a 128-bit key");
}

#[test]
fn mode5_rejects_short_key() {
    let raw = with_header(&[0u8; 16]);
    let r = SecurityEngine::decrypt_and_sanitize(EncryptionMode::Mode5, &raw, 10, Some(&[1, 2, 3]));
    assert_eq!(decryption_text(r), "Invalid key length: expected 16 bytes, got 3");
}

#[test]
fn mode5_rejects_empty_body() {
    let r = SecurityEngine::decrypt_and_sanitize(EncryptionMode::Mode5, &HEADER, 10, Some(&KEY));
    assert_eq!(decryption_text(r), "Payload to decrypt is empty");
}

#[test]
fn mode5_rejects_partial_block() {
    let raw = with_header(&[0u8; 5]);
    let r = SecurityEngine::decrypt_and_sanitize(EncryptionMode::Mode5, &raw, 10, Some(&KEY));
    assert_eq!(decryption_text(r), "Mode 5 payload length (5) is not a multiple of 16 bytes");
}

#[test]
fn mode5_decrypts_with_address_iv() {
    let raw = hex::decode("2e442d2c785634120107930f1b734f5b56a08c4704a4638ba22e").unwrap();
    let r = SecurityEngine::decrypt_and_sanitize(EncryptionMode::Mode5, &raw, 10, Some(&KEY)).unwrap();
    assert_eq!(r, vec![0x04, 0x13, 0xE8, 0x03, 0x00, 0x00]);
}

#[test]
fn mode7_needs_a_key() {
    let raw = with_header(&[0u8; 40]);
    let r = SecurityEngine::decrypt_and_sanitize(EncryptionMode::Mode7, &raw, 10, None);
    assert_eq!(decryption_text(r), "OMS Mode 7 requires a 128-bit key");
}

#[test]
fn mode7_rejects_short_telegram() {
    let raw = with_header(&[0u8; 10]);
    let r = SecurityEngine::decrypt_and_sanitize(EncryptionMode::Mode7, &raw, 10, Some(&KEY));
    assert_eq!(decryption_text(r), "Mode 7 telegram is too short");
}

#[test]
fn mode7_needs_extended_link_layer() {
    let raw = with_header(&[0u8; 30]);
    let r = SecurityEngine::decrypt_and_sanitize(EncryptionMode::Mode7, &raw, 10, Some(&KEY));
    assert_eq!(decryption_text(r), "Mode 7 ELL header (0x8C) not found");
}

#[test]
fn mode7_decrypts_diehl_telegram() {
    let raw = base64_decode("U0SlERRWIBBjB4wAopAPACwl+QEAANenWzqH/MGler9wMQcQCpITda+/Piwi5ZLtWp27vOPvpx/8gqu/Ybv2FSWfzq6L9OT1yzSw9F9ue+gxII2V");
    let key = hex::decode("558D41BE475C5BC1C187510D6EE992DA").unwrap();
    let r = SecurityEngine::decrypt_and_sanitize(EncryptionMode::Mode7, &raw, 10, Some(&key)).unwrap();
    assert_eq!(&r[0..2], &[0x0C, 0x13]);
    assert_ne!(r[0], 0x2F);
    assert_ne!(*r.last().unwrap(), 0x2F);
}

fn base64_decode(s: &str) -> Vec<u8> {
    base64::engine::general_purpose::STANDARD.decode(s).unwrap()
}

#[test]
fn sanitizing_twice_changes_nothing() {
    let raw = with_header(&[0x2F, 0x05, 0x2F, 0x06, 0x2F, 0x2F]);
    let once = SecurityEngine::decrypt_and_sanitize(EncryptionMode::Unencrypted, &raw, 10, None).unwrap();
    assert_eq!(once, vec![0x05, 0x2F, 0x06]);
    let twice = SecurityEngine::decrypt_and_sanitize(EncryptionMode::Unencrypted, &once, 0, None).unwrap();
    assert_eq!(once, twice);
}

#[test]
fn sanitize_keeps_the_middle_slice() {
    assert_eq!(SecurityEngine::sanitize(&[0x2F, 0x2F, 0x01, 0x2F, 0x02, 0x2F]), vec![0x01, 0x2F, 0x02]);
    assert!(SecurityEngine::sanitize(&[0x2F, 0x2F]).is_empty());
    assert!(SecurityEngine::sanitize(&[]).is_empty());
    assert_eq!(SecurityEngine::sanitize(&[0x05]), vec![0x05]);
}
