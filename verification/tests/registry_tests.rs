use c8y_oms_parser_service::drivers::axioma::AxiomaDriver;
use c8y_oms_parser_service::drivers::diehl::DiehlDriver;
use c8y_oms_parser_service::drivers::generic::GenericOmsFallbackDriver;
use c8y_oms_parser_service::drivers::meter_x::MeterXDriver;
use c8y_oms_parser_service::registry::{build_driver_registry, DriverRegistry};
use c8y_oms_parser_service::traits::{MeasurementValue, ParseError, PayloadFields, Scale};

/// A telegram with the given M-field and a plaintext body.
fn telegram(m0: u8, m1: u8, body: &[u8]) -> Vec<u8> {
    let mut v = vec![0x0E, 0x44, m0, m1, 0x11, 0x22, 0x33, 0x44, 0x01, 0x07];
    v.extend_from_slice(body);
    v
}

const VOLUME_BODY: [u8; 8] = [0x2F, 0x2F, 0x04, 0x13, 0xE8, 0x03, 0x00, 0x00];

#[test]
fn builtin_routes_mtx_to_meter_x() {
    let r = build_driver_registry().process(&telegram(0x98, 0x36, &VOLUME_BODY), None, None).unwrap();
    assert_eq!(r.driver_name, "MeterXDriver");
    assert_eq!(r.manufacturer, "MTX");
    assert_eq!(r.device_type, 0x07);
    assert_eq!(r.dll.manufacturer_code, "MTX");
    assert_eq!(r.dll.version, 0x01);
    assert_eq!(r.payload_fields, PayloadFields::Empty);
    assert_eq!(r.parsed_measurements.len(), 1);
    assert!(matches!(
        r.parsed_measurements[0].value,
        MeasurementValue::Scaled { raw: 1000, scale: Scale::Pow10(-3) }
    ));
}

#[test]
fn builtin_routes_axi_to_axioma() {
    let r = build_driver_registry().process(&telegram(0x09, 0x07, &VOLUME_BODY), Some(5), None).unwrap();
    assert_eq!(r.driver_name, "AxiomaDriver");
    assert_eq!(r.manufacturer, "AXI");
    assert_eq!(r.payload_fields, PayloadFields::DecryptedLength(6));
    assert_eq!(r.parsed_measurements.len(), 1);
}

#[test]
fn builtin_routes_dme_to_diehl() {
    let r = build_driver_registry()
        .process(&telegram(0xA5, 0x11, &[0x4C, 0x13, 0x00, 0x00, 0x00, 0x00]), None, None)
        .unwrap();
    assert_eq!(r.driver_name, "DiehlDriver");
    assert_eq!(r.manufacturer, "DME");
    assert_eq!(r.payload_fields, PayloadFields::Mode(0));
    assert_eq!(r.parsed_measurements.len(), 1);
    let rec = &r.parsed_measurements[0];
    assert_eq!(rec.description, "Target Volume (Unset)");
    assert!(matches!(&rec.value, MeasurementValue::Text(s) if s == "Unset"));
    assert_eq!(rec.unit, "");
    assert_eq!(rec.header_raw, "4C13");
    assert_eq!(rec.storage_no, 1);
}

#[test]
fn diehl_names_a_set_target_volume() {
    let r = build_driver_registry()
        .process(&telegram(0xA5, 0x11, &[0x4C, 0x13, 0x45, 0x23, 0x01, 0x00]), None, None)
        .unwrap();
    let rec = &r.parsed_measurements[0];
    assert_eq!(rec.description, "Target Volume");
    assert!(matches!(rec.value, MeasurementValue::Scaled { raw: 12345, scale: Scale::Pow10(-3) }));
}

#[test]
fn diehl_without_key_uses_mode_zero_and_with_key_mode_seven() {
    let raw = telegram(0xA5, 0x11, &[0x4C, 0x13, 0x00, 0x00, 0x00, 0x00]);
    let key = [0u8; 16];
    match build_driver_registry().process(&raw, None, Some(&key)) {
        Err(ParseError::DecryptionError(s)) => assert_eq!(s, "Mode 7 telegram is too short"),
        other => panic!("unexpected {:?}", other),
    }
}

#[test]
fn unknown_manufacturer_goes_to_standard_driver() {
    let r = build_driver_registry().process(&telegram(0x2D, 0x2C, &VOLUME_BODY), None, None).unwrap();
    assert_eq!(r.driver_name, "StandardOmsDriver");
    assert_eq!(r.manufacturer, "KAM");
    assert_eq!(r.dll.manufacturer_code, "KAM");
    assert_eq!(r.payload_fields, PayloadFields::Empty);
    assert_eq!(r.parsed_measurements.len(), 1);
    assert!(matches!(
        r.parsed_measurements[0].value,
        MeasurementValue::Scaled { raw: 1000, scale: Scale::Pow10(-3) }
    ));
}

#[test]
fn standard_driver_decrypts_mode5() {
    let raw = hex::decode("2e442d2c785634120107930f1b734f5b56a08c4704a4638ba22e").unwrap();
    let key: Vec<u8> = (0u8..16).collect();
    let r = build_driver_registry().process(&raw, Some(5), Some(&key)).unwrap();
    assert_eq!(r.driver_name, "StandardOmsDriver");
    assert_eq!(r.parsed_measurements.len(), 1);
    assert_eq!(r.parsed_measurements[0].header_raw, "0413");
    assert!(build_driver_registry().process(&raw, Some(5), None).is_err());
}

#[test]
fn registry_without_fallback_reports_unknown_manufacturer() {
    let mut reg = DriverRegistry::new();
    reg.register(Box::new(MeterXDriver::new()));
    match reg.process(&telegram(0x2D, 0x2C, &VOLUME_BODY), None, None) {
        Err(e) => {
            assert_eq!(e.message(), "No matching driver found for M-Field: KAM, Device Type: 0x07, Version: 0x01");
        },
        Ok(_) => panic!("KAM has no driver"),
    }
}

#[test]
fn short_telegram_is_rejected_first() {
    let r = build_driver_registry().process(&[0x0E, 0x44, 0x98], None, None);
    assert!(matches!(r, Err(ParseError::HeaderTooShort)));
}

#[test]
fn empty_registry_matches_nothing() {
    let reg = DriverRegistry::new();
    let r = reg.process(&telegram(0x98, 0x36, &VOLUME_BODY), None, None);
    assert!(matches!(r, Err(ParseError::NoMatchingDriver { .. })));
    let d = DriverRegistry::default();
    assert!(d.process(&telegram(0x98, 0x36, &VOLUME_BODY), None, None).is_err());
}

#[test]
fn earlier_registration_takes_precedence() {
    let raw = telegram(0x98, 0x36, &VOLUME_BODY);

    let mut fallback_first = DriverRegistry::new();
    fallback_first.register(Box::new(GenericOmsFallbackDriver));
    fallback_first.register(Box::new(MeterXDriver::new()));
    let r = fallback_first.process(&raw, None, None).unwrap();
    assert_eq!(r.driver_name, "Generic OMS Fallback");
    assert_eq!(r.manufacturer, "GEN");
    assert_eq!(r.dll.manufacturer_code, "3698");
    assert!(r.parsed_measurements.is_empty());
    assert_eq!(r.payload_fields, PayloadFields::RawParsed);

    let mut specific_first = DriverRegistry::new();
    specific_first.register(Box::new(MeterXDriver::new()));
    specific_first.register(Box::new(GenericOmsFallbackDriver));
    assert_eq!(specific_first.process(&raw, None, None).unwrap().driver_name, "MeterXDriver");
}

#[test]
fn registering_a_later_driver_only_takes_unclaimed_telegrams() {
    let mut reg = DriverRegistry::new();
    reg.register(Box::new(AxiomaDriver::new()));
    reg.register(Box::new(DiehlDriver::default()));
    let kam = telegram(0x2D, 0x2C, &VOLUME_BODY);
    assert!(reg.process(&kam, None, None).is_err());
    reg.register(Box::new(GenericOmsFallbackDriver));
    assert_eq!(reg.process(&kam, None, None).unwrap().driver_name, "Generic OMS Fallback");
    let axi = telegram(0x09, 0x07, &VOLUME_BODY);
    assert_eq!(reg.process(&axi, None, None).unwrap().driver_name, "AxiomaDriver");
}
