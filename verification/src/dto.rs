//! Request and response records of the parse API in the JSON shape of the
//! public schema (PascalCase field names on the wire).
use vstd::prelude::*;
use crate::legacy::JsonValue;

verus! {

/// A parse request: Base64 payload, optional OMS mode, optional key.
#[derive(Debug)]
pub struct ParseRequest {
    pub payload: String,
    pub oms_mode: Option<u8>,
    pub encryptionkey: Option<String>,
}

/// Link-layer identification of the meter.
#[derive(Debug)]
pub struct DllInfo {
    pub device_type: String,
    pub identification_no: String,
    pub manufacturer: String,
}

/// One decoded record as reported to the client.
#[derive(Debug)]
pub struct ParsedMeasurementResponse {
    pub record_index: usize,
    pub header_raw: String,
    pub dif: String,
    pub vif: String,
    pub name: String,
    pub quantity: String,
    pub unit: String,
    pub value: JsonValue,
}

/// A successful parse response.
#[derive(Debug)]
pub struct ParseResponse {
    pub prog_state: String,
    pub dll: DllInfo,
    pub parsed_measurements: Vec<ParsedMeasurementResponse>,
}

/// An error response.
#[derive(Debug)]
pub struct ErrorResponse {
    pub prog_state: String,
    pub error: String,
}

} // verus!
