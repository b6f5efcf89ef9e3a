//! The standard OMS driver: the fallback for every manufacturer without a
//! dedicated driver. It decrypts in the requested OMS mode (5 or 7, none
//! otherwise) and decodes the standard record stream.
use vstd::prelude::*;
use crate::mbus::{parse_wmbus_records, wmbus_records};
use crate::security::{EncryptionMode, SecurityEngine, decrypt_sanitized, mode_from};
use crate::text::string_of;
use crate::traits::{DllHeader, DllHeaderView, MeterDriver, ParseError, ParseErrorView,
    PayloadFields, ProcessResult, ProcessResultView, header_info_of, header_of,
    manufacturer_code_of};

verus! {

/// Driver for any OMS-compliant meter.
pub struct StandardOmsDriver;

impl StandardOmsDriver {
    pub fn new() -> (r: Self)
        ensures
            r == StandardOmsDriver,
    {
        StandardOmsDriver
    }
}

impl Default for StandardOmsDriver {
    fn default() -> (r: Self)
        ensures
            r == StandardOmsDriver,
    {
        StandardOmsDriver::new()
    }
}

/// Outcome of the standard driver: the OMS mode selects the decryption of
/// the payload behind the 10-byte header, and its records are decoded.
pub open spec fn standard_parse(raw: Seq<u8>, oms_mode: Option<u8>, key: Option<Seq<u8>>) -> Result<ProcessResultView, ParseErrorView> {
    if raw.len() < 10 {
        Err(ParseErrorView::HeaderTooShort)
    } else {
        let h = header_of(raw);
        match decrypt_sanitized(mode_from(oms_mode), raw, 10, key) {
            Err(e) => Err(e),
            Ok(d) => Ok(ProcessResultView {
                driver_name: "StandardOmsDriver"@,
                manufacturer: manufacturer_code_of(h.m_field),
                device_type: h.device_type,
                dll: header_info_of(h),
                parsed_measurements: wmbus_records(d),
                payload_fields: PayloadFields::Empty,
            }),
        }
    }
}

impl MeterDriver for StandardOmsDriver {
    open spec fn spec_supports(&self, header: DllHeaderView) -> bool {
        true
    }

    open spec fn spec_parse(&self, raw_payload: Seq<u8>, oms_mode: Option<u8>, key: Option<Seq<u8>>) -> Result<ProcessResultView, ParseErrorView> {
        standard_parse(raw_payload, oms_mode, key)
    }

    fn supports(&self, _header: &DllHeader) -> (r: bool) {
        true
    }

    fn parse(&self, raw_payload: &[u8], oms_mode: Option<u8>, key: Option<&[u8]>) -> (r: Result<ProcessResult, ParseError>) {
        let header = match DllHeader::from_bytes(raw_payload) {
            Ok(h) => h,
            Err(e) => {
                return Err(e);
            },
        };
        let mode = EncryptionMode::from(oms_mode);
        let payload = match SecurityEngine::decrypt_and_sanitize(mode, raw_payload, 10, key) {
            Ok(d) => d,
            Err(e) => {
                return Err(e);
            },
        };
        let parsed_measurements = parse_wmbus_records(&payload);
        Ok(ProcessResult {
            driver_name: string_of("StandardOmsDriver"),
            manufacturer: header.manufacturer_code(),
            device_type: header.device_type,
            dll: header.header_info(),
            parsed_measurements,
            payload_fields: PayloadFields::Empty,
        })
    }
}

} // verus!
