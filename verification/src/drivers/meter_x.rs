//! Driver for meters with manufacturer code `MTX`; the OMS mode decides the
//! decryption.
use vstd::prelude::*;
use crate::mbus::{parse_wmbus_records, wmbus_records};
use crate::security::{EncryptionMode, SecurityEngine, decrypt_sanitized, mode_from};
use crate::text::string_of;
use crate::traits::{DllHeader, DllHeaderView, MeterDriver, ParseError, ParseErrorView,
    PayloadFields, ProcessResult, ProcessResultView, header_info_of, header_of,
    manufacturer_code_of};

verus! {

/// Driver for `MTX` meters.
pub struct MeterXDriver;

impl MeterXDriver {
    pub fn new() -> (r: Self)
        ensures
            r == MeterXDriver,
    {
        MeterXDriver
    }
}

impl Default for MeterXDriver {
    fn default() -> (r: Self)
        ensures
            r == MeterXDriver,
    {
        MeterXDriver::new()
    }
}

/// `MTX` telegrams.
pub open spec fn meter_x_supports(h: DllHeaderView) -> bool {
    manufacturer_code_of(h.m_field) == "MTX"@
}

/// Outcome of the `MTX` driver: the OMS mode selects the decryption.
pub open spec fn meter_x_parse(raw: Seq<u8>, oms_mode: Option<u8>, key: Option<Seq<u8>>) -> Result<ProcessResultView, ParseErrorView> {
    if raw.len() < 10 {
        Err(ParseErrorView::HeaderTooShort)
    } else {
        let h = header_of(raw);
        match decrypt_sanitized(mode_from(oms_mode), raw, 10, key) {
            Err(e) => Err(e),
            Ok(d) => Ok(ProcessResultView {
                driver_name: "MeterXDriver"@,
                manufacturer: manufacturer_code_of(h.m_field),
                device_type: h.device_type,
                dll: header_info_of(h),
                parsed_measurements: wmbus_records(d),
                payload_fields: PayloadFields::Empty,
            }),
        }
    }
}

impl MeterDriver for MeterXDriver {
    open spec fn spec_supports(&self, header: DllHeaderView) -> bool {
        meter_x_supports(header)
    }

    open spec fn spec_parse(&self, raw_payload: Seq<u8>, oms_mode: Option<u8>, key: Option<Seq<u8>>) -> Result<ProcessResultView, ParseErrorView> {
        meter_x_parse(raw_payload, oms_mode, key)
    }

    fn supports(&self, header: &DllHeader) -> (r: bool) {
        header.manufacturer_code() == string_of("MTX")
    }

    fn parse(&self, raw_payload: &[u8], oms_mode: Option<u8>, key: Option<&[u8]>) -> (r: Result<ProcessResult, ParseError>) {
        let header = match DllHeader::from_bytes(raw_payload) {
            Ok(h) => h,
            Err(e) => {
                return Err(e);
            },
        };
        let mode = EncryptionMode::from(oms_mode);
        let payload_to_parse = match SecurityEngine::decrypt_and_sanitize(mode, raw_payload, 10, key) {
            Ok(d) => d,
            Err(e) => {
                return Err(e);
            },
        };
        let parsed_measurements = parse_wmbus_records(&payload_to_parse);
        Ok(ProcessResult {
            driver_name: string_of("MeterXDriver"),
            manufacturer: header.manufacturer_code(),
            device_type: header.device_type,
            dll: header.header_info(),
            parsed_measurements,
            payload_fields: PayloadFields::Empty,
        })
    }
}

} // verus!
