//! Core data model: errors, the data-link-layer header, decoded measurement
//! records, driver results and the driver interface.
use vstd::prelude::*;
use crate::text::{hex_byte_lower, hex_byte_upper, push_char, push_hex_byte_lower, push_hex_byte_upper, push_str, string_of};

verus! {

/// Why a telegram could not be processed.
#[derive(Debug)]
pub enum ParseError {
    HeaderTooShort,
    HeaderError(String),
    NoMatchingDriver { manufacturer: String, device_type: u8, version: u8 },
    DecryptionError(String),
    InvalidFrame(String),
    InvalidHeader,
}

/// Mathematical model of a [`ParseError`]: texts become character sequences.
pub enum ParseErrorView {
    HeaderTooShort,
    HeaderError(Seq<char>),
    NoMatchingDriver { manufacturer: Seq<char>, device_type: u8, version: u8 },
    DecryptionError(Seq<char>),
    InvalidFrame(Seq<char>),
    InvalidHeader,
}

impl View for ParseError {
    type V = ParseErrorView;

    open spec fn view(&self) -> ParseErrorView {
        match self {
            ParseError::HeaderTooShort => ParseErrorView::HeaderTooShort,
            ParseError::HeaderError(s) => ParseErrorView::HeaderError(s@),
            ParseError::NoMatchingDriver { manufacturer, device_type, version } =>
                ParseErrorView::NoMatchingDriver {
                    manufacturer: manufacturer@,
                    device_type: *device_type,
                    version: *version,
                },
            ParseError::DecryptionError(s) => ParseErrorView::DecryptionError(s@),
            ParseError::InvalidFrame(s) => ParseErrorView::InvalidFrame(s@),
            ParseError::InvalidHeader => ParseErrorView::InvalidHeader,
        }
    }
}

/// The human-readable text of an error.
pub open spec fn error_message(e: ParseErrorView) -> Seq<char> {
    match e {
        ParseErrorView::HeaderTooShort => "Header too short (minimum 10 bytes required)"@,
        ParseErrorView::HeaderError(s) => "Header error: "@ + s,
        ParseErrorView::NoMatchingDriver { manufacturer, device_type, version } =>
            "No matching driver found for M-Field: "@ + manufacturer + ", Device Type: 0x"@
                + hex_byte_lower(device_type) + ", Version: 0x"@ + hex_byte_lower(version),
        ParseErrorView::DecryptionError(s) => "Decryption failed: "@ + s,
        ParseErrorView::InvalidFrame(s) => "Invalid frame structure: "@ + s,
        ParseErrorView::InvalidHeader => "Invalid header offset"@,
    }
}

impl ParseError {
    /// The human-readable text of this error.
    pub fn message(&self) -> (r: String)
        ensures
            r@ == error_message(self@),
    {
        match self {
            ParseError::HeaderTooShort => string_of("Header too short (minimum 10 bytes required)"),
            ParseError::HeaderError(s) => {
                let mut r = string_of("Header error: ");
                push_str(&mut r, s.as_str());
                r
            },
            ParseError::NoMatchingDriver { manufacturer, device_type, version } => {
                let mut r = string_of("No matching driver found for M-Field: ");
                push_str(&mut r, manufacturer.as_str());
                push_str(&mut r, ", Device Type: 0x");
                push_hex_byte_lower(&mut r, *device_type);
                push_str(&mut r, ", Version: 0x");
                push_hex_byte_lower(&mut r, *version);
                r
            },
            ParseError::DecryptionError(s) => {
                let mut r = string_of("Decryption failed: ");
                push_str(&mut r, s.as_str());
                r
            },
            ParseError::InvalidFrame(s) => {
                let mut r = string_of("Invalid frame structure: ");
                push_str(&mut r, s.as_str());
                r
            },
            ParseError::InvalidHeader => string_of("Invalid header offset"),
        }
    }
}

/// Identity of a meter as far as it is known.
#[derive(Debug, Clone)]
pub struct MeterIdentifier {
    pub manufacturer: String,
    pub device_type: Option<u8>,
    pub version: Option<u8>,
}

/// Multiplier applied to a decoded raw number to obtain the physical value.
#[derive(Debug, Clone, Copy, PartialEq, Eq, Structural)]
pub enum Scale {
    /// Multiply by `10^e`.
    Pow10(i32),
    /// Multiply by a whole factor (unit conversions such as minutes to seconds).
    Times(u32),
}

/// The value of a measurement record.
///
/// Integer and BCD data fields are decoded exactly into `Scaled`; the physical
/// value is `raw` times the scale. A 32-bit real data field is kept as its bit
/// pattern. Dates and markers are text.
#[derive(Debug, Clone)]
pub enum MeasurementValue {
    Text(String),
    Scaled { raw: i64, scale: Scale },
    Real32 { bits: u32, scale: Scale },
}

/// Model of a [`MeasurementValue`].
pub enum ValueView {
    Text(Seq<char>),
    Scaled { raw: i64, scale: Scale },
    Real32 { bits: u32, scale: Scale },
}

impl View for MeasurementValue {
    type V = ValueView;

    open spec fn view(&self) -> ValueView {
        match self {
            MeasurementValue::Text(s) => ValueView::Text(s@),
            MeasurementValue::Scaled { raw, scale } => ValueView::Scaled { raw: *raw, scale: *scale },
            MeasurementValue::Real32 { bits, scale } => ValueView::Real32 { bits: *bits, scale: *scale },
        }
    }
}

/// One decoded data record of a telegram.
#[derive(Debug, Clone)]
pub struct ParsedMeasurements {
    pub header_raw: String,
    pub storage_no: u32,
    pub tariff: u32,
    pub device: u32,
    pub dib: String,
    pub vib: String,
    pub value: MeasurementValue,
    pub unit: String,
    pub description: String,
}

/// Model of a [`ParsedMeasurements`] record.
pub struct MeasurementView {
    pub header_raw: Seq<char>,
    pub storage_no: u32,
    pub tariff: u32,
    pub device: u32,
    pub dib: Seq<char>,
    pub vib: Seq<char>,
    pub value: ValueView,
    pub unit: Seq<char>,
    pub description: Seq<char>,
}

impl View for ParsedMeasurements {
    type V = MeasurementView;

    open spec fn view(&self) -> MeasurementView {
        MeasurementView {
            header_raw: self.header_raw@,
            storage_no: self.storage_no,
            tariff: self.tariff,
            device: self.device,
            dib: self.dib@,
            vib: self.vib@,
            value: self.value@,
            unit: self.unit@,
            description: self.description@,
        }
    }
}

/// Models of a sequence of records.
pub open spec fn records_view(v: Seq<ParsedMeasurements>) -> Seq<MeasurementView> {
    v.map_values(|r: ParsedMeasurements| r@)
}

/// Header facts reported with a driver result.
#[derive(Debug, Clone)]
pub struct DllHeaderInfo {
    pub manufacturer_code: String,
    pub device_type_raw: u8,
    pub version: u8,
}

/// Model of a [`DllHeaderInfo`].
pub struct DllHeaderInfoView {
    pub manufacturer_code: Seq<char>,
    pub device_type_raw: u8,
    pub version: u8,
}

impl View for DllHeaderInfo {
    type V = DllHeaderInfoView;

    open spec fn view(&self) -> DllHeaderInfoView {
        DllHeaderInfoView {
            manufacturer_code: self.manufacturer_code@,
            device_type_raw: self.device_type_raw,
            version: self.version,
        }
    }
}

/// The data-link-layer header at the start of a telegram.
#[derive(Debug, Clone)]
pub struct DllHeader {
    pub length: u8,
    pub c_field: u8,
    pub m_field: [u8; 2],
    pub a_field: [u8; 6],
    pub version: u8,
    pub device_type: u8,
}

/// Model of a [`DllHeader`].
pub struct DllHeaderView {
    pub length: u8,
    pub c_field: u8,
    pub m_field: Seq<u8>,
    pub a_field: Seq<u8>,
    pub version: u8,
    pub device_type: u8,
}

impl View for DllHeader {
    type V = DllHeaderView;

    open spec fn view(&self) -> DllHeaderView {
        DllHeaderView {
            length: self.length,
            c_field: self.c_field,
            m_field: self.m_field@,
            a_field: self.a_field@,
            version: self.version,
            device_type: self.device_type,
        }
    }
}

/// The header read from the first ten bytes of `b`. The version and device type
/// are bytes 8 and 9, which also belong to the address field.
pub open spec fn header_of(b: Seq<u8>) -> DllHeaderView {
    DllHeaderView {
        length: b[0],
        c_field: b[1],
        m_field: b.subrange(2, 4),
        a_field: b.subrange(4, 10),
        version: b[8],
        device_type: b[9],
    }
}

/// The three-letter manufacturer code packed in the little-endian M-field:
/// three 5-bit groups, each offset by 64.
pub open spec fn manufacturer_code_of(m: Seq<u8>) -> Seq<char> {
    let v: u16 = (m[0] as int + 256 * m[1] as int) as u16;
    seq![
        ((((v >> 10u16) & 0x1Fu16) as int) + 64) as char,
        ((((v >> 5u16) & 0x1Fu16) as int) + 64) as char,
        (((v & 0x1Fu16) as int) + 64) as char,
    ]
}

/// The M-field as four upper-case hexadecimal digits, high byte first.
pub open spec fn manufacturer_hex_of(m: Seq<u8>) -> Seq<char> {
    hex_byte_upper(m[1]) + hex_byte_upper(m[0])
}

/// Manufacturer code, device type and version of a header.
pub open spec fn header_info_of(h: DllHeaderView) -> DllHeaderInfoView {
    DllHeaderInfoView {
        manufacturer_code: manufacturer_code_of(h.m_field),
        device_type_raw: h.device_type,
        version: h.version,
    }
}

impl DllHeader {
    /// Reads the header from the start of a telegram.
    pub fn from_bytes(bytes: &[u8]) -> (r: Result<DllHeader, ParseError>)
        ensures
            bytes@.len() < 10 ==> (r matches Err(e) && e@ == ParseErrorView::HeaderTooShort),
            bytes@.len() >= 10 ==> (r matches Ok(h) && h@ == header_of(bytes@)),
    {
        if bytes.len() < 10 {
            return Err(ParseError::HeaderTooShort);
        }
        let m_field = [bytes[2], bytes[3]];
        let a_field = [bytes[4], bytes[5], bytes[6], bytes[7], bytes[8], bytes[9]];
        let h = DllHeader {
            length: bytes[0],
            c_field: bytes[1],
            m_field,
            a_field,
            version: bytes[8],
            device_type: bytes[9],
        };
        assert(h.m_field@ =~= bytes@.subrange(2, 4));
        assert(h.a_field@ =~= bytes@.subrange(4, 10));
        Ok(h)
    }

    /// The three-letter manufacturer code: three characters from `@` to
    /// `_`; the top bit of the M-field is not used.
    pub fn manufacturer_code(&self) -> (r: String)
        ensures
            r@ == manufacturer_code_of(self.m_field@),
            r@.len() == 3,
            forall|i: int| 0 <= i < 3 ==> '@' <= #[trigger] r@[i] <= '_',
    {
        proof {
            crate::laws::law_manufacturer_code_letters(self.m_field@);
        }
        let m: u16 = self.m_field[0] as u16 + (self.m_field[1] as u16) * 256;
        let x1 = (m >> 10u16) & 0x1Fu16;
        let x2 = (m >> 5u16) & 0x1Fu16;
        let x3 = m & 0x1Fu16;
        assert(x1 <= 31 && x2 <= 31 && x3 <= 31) by (bit_vector)
            requires
                x1 == (m >> 10u16) & 0x1Fu16,
                x2 == (m >> 5u16) & 0x1Fu16,
                x3 == m & 0x1Fu16,
        ;
        let mut r = String::new();
        push_char(&mut r, ((x1 as u8) + 64) as char);
        push_char(&mut r, ((x2 as u8) + 64) as char);
        push_char(&mut r, ((x3 as u8) + 64) as char);
        assert(r@ =~= manufacturer_code_of(self.m_field@));
        r
    }

    /// Manufacturer code, device type and version for a driver result.
    pub(crate) fn header_info(&self) -> (r: DllHeaderInfo)
        ensures
            r@ == header_info_of(self@),
    {
        DllHeaderInfo {
            manufacturer_code: self.manufacturer_code(),
            device_type_raw: self.device_type,
            version: self.version,
        }
    }

    /// The M-field as four upper-case hexadecimal digits, high byte first.
    pub fn manufacturer_hex(&self) -> (r: String)
        ensures
            r@ == manufacturer_hex_of(self.m_field@),
    {
        let mut r = String::new();
        push_hex_byte_upper(&mut r, self.m_field[1]);
        push_hex_byte_upper(&mut r, self.m_field[0]);
        assert(r@ =~= manufacturer_hex_of(self.m_field@));
        r
    }
}

/// Extra facts a driver reports about the payload.
#[derive(Debug, Clone, Copy, PartialEq, Eq, Structural)]
pub enum PayloadFields {
    /// Number of bytes of the decrypted, sanitized payload.
    DecryptedLength(usize),
    /// The security mode the driver applied.
    Mode(u8),
    /// No extra facts.
    Empty,
    /// The payload was accepted without decoding records.
    RawParsed,
}

/// The outcome of a driver's processing of a telegram.
#[derive(Debug)]
pub struct ProcessResult {
    pub driver_name: String,
    pub manufacturer: String,
    pub device_type: u8,
    pub dll: DllHeaderInfo,
    pub parsed_measurements: Vec<ParsedMeasurements>,
    pub payload_fields: PayloadFields,
}

/// Model of a [`ProcessResult`].
pub struct ProcessResultView {
    pub driver_name: Seq<char>,
    pub manufacturer: Seq<char>,
    pub device_type: u8,
    pub dll: DllHeaderInfoView,
    pub parsed_measurements: Seq<MeasurementView>,
    pub payload_fields: PayloadFields,
}

impl View for ProcessResult {
    type V = ProcessResultView;

    open spec fn view(&self) -> ProcessResultView {
        ProcessResultView {
            driver_name: self.driver_name@,
            manufacturer: self.manufacturer@,
            device_type: self.device_type,
            dll: self.dll@,
            parsed_measurements: records_view(self.parsed_measurements@),
            payload_fields: self.payload_fields,
        }
    }
}

/// Model of a driver outcome.
pub open spec fn process_view(r: Result<ProcessResult, ParseError>) -> Result<ProcessResultView, ParseErrorView> {
    match r {
        Ok(p) => Ok(p@),
        Err(e) => Err(e@),
    }
}

/// The bytes behind an optional key.
pub open spec fn key_view(key: Option<&[u8]>) -> Option<Seq<u8>> {
    match key {
        Option::Some(k) => Option::Some(k@),
        Option::None => Option::None,
    }
}

/// A meter driver: decides whether it handles a telegram by its header, and
/// turns a telegram into a [`ProcessResult`].
pub trait MeterDriver: Send + Sync {
    /// Whether the driver handles telegrams with this header.
    spec fn spec_supports(&self, header: DllHeaderView) -> bool;

    /// The outcome of processing a telegram.
    spec fn spec_parse(&self, raw_payload: Seq<u8>, oms_mode: Option<u8>, key: Option<Seq<u8>>) -> Result<ProcessResultView, ParseErrorView>;

    fn supports(&self, header: &DllHeader) -> (r: bool)
        ensures
            r == self.spec_supports(header@),
    ;

    fn parse(&self, raw_payload: &[u8], oms_mode: Option<u8>, key: Option<&[u8]>) -> (r: Result<ProcessResult, ParseError>)
        ensures
            process_view(r) == self.spec_parse(raw_payload@, oms_mode, key_view(key)),
    ;
}

} // verus!
