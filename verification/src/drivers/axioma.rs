//! Driver for Axioma water meters (manufacturer codes `AXI`/`ASI`, M-field
//! `0907`): unencrypted or security mode 5 telegrams.
use vstd::prelude::*;
use crate::mbus::{parse_wmbus_records, wmbus_records};
use crate::security::{EncryptionMode, SecurityEngine, decrypt_sanitized, mode_from};
use crate::text::string_of;
use crate::traits::{DllHeader, DllHeaderView, MeterDriver, ParseError, ParseErrorView,
    PayloadFields, ProcessResult, ProcessResultView, header_info_of, header_of,
    manufacturer_code_of, manufacturer_hex_of};

verus! {

/// Driver for Axioma meters.
pub struct AxiomaDriver;

impl AxiomaDriver {
    pub fn new() -> (r: Self)
        ensures
            r == AxiomaDriver,
    {
        AxiomaDriver
    }
}

impl Default for AxiomaDriver {
    fn default() -> (r: Self)
        ensures
            r == AxiomaDriver,
    {
        AxiomaDriver::new()
    }
}

/// Axioma telegrams carry the manufacturer code `AXI` or `ASI`, or the raw
/// M-field `0907`.
pub open spec fn axioma_supports(h: DllHeaderView) -> bool {
    let code = manufacturer_code_of(h.m_field);
    code == "AXI"@ || code == "ASI"@ || manufacturer_hex_of(h.m_field) == "0907"@
}

/// Outcome of the Axioma driver: without a key the payload behind the
/// 10-byte header is read as plaintext; with a key the OMS mode decides.
pub open spec fn axioma_parse(raw: Seq<u8>, oms_mode: Option<u8>, key: Option<Seq<u8>>) -> Result<ProcessResultView, ParseErrorView> {
    if raw.len() < 10 {
        Err(ParseErrorView::HeaderTooShort)
    } else {
        let h = header_of(raw);
        let mode = if key is None {
            EncryptionMode::Unencrypted
        } else {
            mode_from(oms_mode)
        };
        match decrypt_sanitized(mode, raw, 10, key) {
            Err(e) => Err(e),
            Ok(d) => Ok(ProcessResultView {
                driver_name: "AxiomaDriver"@,
                manufacturer: manufacturer_code_of(h.m_field),
                device_type: h.device_type,
                dll: header_info_of(h),
                parsed_measurements: wmbus_records(d),
                payload_fields: PayloadFields::DecryptedLength(d.len() as usize),
            }),
        }
    }
}

impl MeterDriver for AxiomaDriver {
    open spec fn spec_supports(&self, header: DllHeaderView) -> bool {
        axioma_supports(header)
    }

    open spec fn spec_parse(&self, raw_payload: Seq<u8>, oms_mode: Option<u8>, key: Option<Seq<u8>>) -> Result<ProcessResultView, ParseErrorView> {
        axioma_parse(raw_payload, oms_mode, key)
    }

    fn supports(&self, header: &DllHeader) -> (r: bool) {
        let code = header.manufacturer_code();
        code == string_of("AXI") || code == string_of("ASI") || header.manufacturer_hex() == string_of("0907")
    }

    fn parse(&self, raw_payload: &[u8], oms_mode: Option<u8>, key: Option<&[u8]>) -> (r: Result<ProcessResult, ParseError>) {
        let header = match DllHeader::from_bytes(raw_payload) {
            Ok(h) => h,
            Err(e) => {
                return Err(e);
            },
        };
        let mode = if key.is_none() {
            EncryptionMode::Unencrypted
        } else {
            EncryptionMode::from(oms_mode)
        };
        let decrypted_payload = match SecurityEngine::decrypt_and_sanitize(mode, raw_payload, 10, key) {
            Ok(d) => d,
            Err(e) => {
                return Err(e);
            },
        };
        let parsed_measurements = parse_wmbus_records(&decrypted_payload);
        let decrypted_length = decrypted_payload.len();
        Ok(ProcessResult {
            driver_name: string_of("AxiomaDriver"),
            manufacturer: header.manufacturer_code(),
            device_type: header.device_type,
            dll: header.header_info(),
            parsed_measurements,
            payload_fields: PayloadFields::DecryptedLength(decrypted_length),
        })
    }
}

} // verus!
