//! A catch-all driver that accepts every telegram and reports its header
//! without decoding records.
use vstd::prelude::*;
use crate::text::string_of;
use crate::traits::{DllHeader, DllHeaderInfo, DllHeaderInfoView, DllHeaderView, MeterDriver,
    ParseError, ParseErrorView, PayloadFields, ProcessResult, ProcessResultView, header_of,
    manufacturer_hex_of, records_view};

verus! {

/// Catch-all driver that accepts any telegram and reports only its header;
/// the built-in registry uses the standard OMS driver as its fallback
/// instead.
pub struct GenericOmsFallbackDriver;

/// Outcome of the fallback driver: the header with the raw M-field in
/// hexadecimal, and no records.
pub open spec fn generic_parse(raw: Seq<u8>) -> Result<ProcessResultView, ParseErrorView> {
    if raw.len() < 10 {
        Err(ParseErrorView::HeaderTooShort)
    } else {
        let h = header_of(raw);
        Ok(ProcessResultView {
            driver_name: "Generic OMS Fallback"@,
            manufacturer: "GEN"@,
            device_type: 0,
            dll: DllHeaderInfoView {
                manufacturer_code: manufacturer_hex_of(h.m_field),
                device_type_raw: h.device_type,
                version: h.version,
            },
            parsed_measurements: Seq::empty(),
            payload_fields: PayloadFields::RawParsed,
        })
    }
}

impl MeterDriver for GenericOmsFallbackDriver {
    open spec fn spec_supports(&self, header: DllHeaderView) -> bool {
        true
    }

    open spec fn spec_parse(&self, raw_payload: Seq<u8>, oms_mode: Option<u8>, key: Option<Seq<u8>>) -> Result<ProcessResultView, ParseErrorView> {
        generic_parse(raw_payload)
    }

    fn supports(&self, _header: &DllHeader) -> (r: bool) {
        true
    }

    fn parse(&self, raw_payload: &[u8], _oms_mode: Option<u8>, _key: Option<&[u8]>) -> (r: Result<ProcessResult, ParseError>) {
        let header = match DllHeader::from_bytes(raw_payload) {
            Ok(h) => h,
            Err(e) => {
                return Err(e);
            },
        };
        let parsed_measurements: Vec<crate::traits::ParsedMeasurements> = Vec::new();
        proof {
            assert(records_view(parsed_measurements@) =~= Seq::empty());
        }
        Ok(ProcessResult {
            driver_name: string_of("Generic OMS Fallback"),
            manufacturer: string_of("GEN"),
            device_type: 0x00,
            dll: DllHeaderInfo {
                manufacturer_code: header.manufacturer_hex(),
                device_type_raw: header.device_type,
                version: header.version,
            },
            parsed_measurements,
            payload_fields: PayloadFields::RawParsed,
        })
    }
}

} // verus!
