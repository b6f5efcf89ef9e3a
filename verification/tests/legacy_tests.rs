use base64::engine::general_purpose;
use base64::Engine;
use c8y_oms_parser_service::legacy::{decrypt_mode_7, parse_mbus_stream, JsonValue};

#[test]
fn main_old_test_diehl_mode_7_decryption_and_parsing() {
    let master_key_hex = "558D41BE475C5BC1C187510D6EE992DA";
    let master_key = hex::decode(master_key_hex).expect("Invalid master key hex string");

    let raw_payload_b64 = "U0SlERRWIBBjB4wAopAPACwl+QEAANenWzqH/MGler9wMQcQCpITda+/Piwi5ZLtWp27vOPvpx/8gqu/Ybv2FSWfzq6L9OT1yzSw9F9ue+gxII2V";

    let raw_payload = general_purpose::STANDARD
        .decode(raw_payload_b64)
        .expect("Failed to decode Base64 test payload");

    let version = 0x20;
    let dev_type = 0x10;

    let decrypted_payload = decrypt_mode_7(&raw_payload, &master_key, version, dev_type);
    let records = parse_mbus_stream(&decrypted_payload);

    println!("\n--- DIEHL MODE 7 TELEMETRY ---");
    if records.is_empty() {
        println!("No records parsed (key/decryption candidate issue).");
    } else {
        for r in &records {
            println!(
                "Record {:02}: [{}] {} = {:?} {} ({})",
                r.RecordIndex, r.HeaderRaw, r.Name, r.Value, r.Unit, r.Quantity
            );
        }
    }
    println!("------------------------------\n");
}

#[test]
fn main_old_test_axioma_base64_payload_with_battery() {
    let base64_payload = "YUQJB3RFcgkgB3pKEAAABG0NCl02BCCgNUcBBBMAAAAABJM7AAAAAASTPAAAAAACOwAAAlnw2ERtAABBNkQTAAAAAESTOwAAAABEkzwAAAAANP0XAQAAAAQkVzNHAQH9dGE=";
    let raw_payload = general_purpose::STANDARD
        .decode(base64_payload)
        .expect("Invalid Base64 payload");

    let records = parse_mbus_stream(&raw_payload);

    println!("\n--- AXIOMA TELEMETRY ---");
    for r in &records {
        println!(
            "Record {:02}: [{}] {} = {:?} {} ({})",
            r.RecordIndex, r.HeaderRaw, r.Name, r.Value, r.Unit, r.Quantity
        );
    }
    println!("------------------------\n");

    let dt_record = records.iter().find(|r| r.Name == "Date and Time");
    assert!(dt_record.is_some(), "Date and time record must be present");

    assert!(matches!(&dt_record.unwrap().Value, JsonValue::Text(s) if s == "2026-06-29 10:13:00"));

    let battery_record = records.iter().find(|r| r.Name == "Remaining Battery Lifetime");
    assert!(battery_record.is_some(), "Battery record must be present");

    let batt = battery_record.unwrap();
    assert!(matches!(batt.Value, JsonValue::Unsigned(97)));
    assert_eq!(batt.Unit, "months");
}
