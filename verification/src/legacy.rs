//! The first-generation decoder: a self-contained telegram pipeline with its
//! own record evaluation (JSON-oriented values), candidate-based mode 7 key
//! derivation, and mode 5 decryption with an IV from the link layer.
#![allow(non_snake_case)]
use vstd::prelude::*;
use vstd::slice::slice_to_vec;
use crate::crypto::{aes128_cbc_decrypt, aes128_cmac, cbc_decrypt_no_padding, cmac_aes128};
use crate::encoding::{base64_decode, base64_standard_decode, civil_datetime_text, datetime_text,
    hex_crate_decode, hex_decode, is_blank, is_civil_date, trims_to_empty};
use crate::mbus::{Frame, FrameStep, bcd_pair, bcd_value, frame_step, is_bcd_code, lemma_bcd_bound, lemma_pow100_mono,
    lemma_bcd_frame_len, lemma_step_advances, locate_frame, pow100, signed16, stream_start,
    stream_start_exec};
use crate::text::{hex_byte_upper, hex_encode_upper, hex_upper, push_hex_byte_upper, push_str,
    string_of};

verus! {

/// A parse request of the first-generation service.
pub struct ParseRequest {
    pub payload: String,
    pub oms_mode: Option<u8>,
    pub encryptionkey: Option<String>,
}

/// Link-layer identification reported with a response.
pub struct DllInfo {
    pub DeviceType: String,
    pub IdentificationNo: String,
    pub Manufacturer: String,
}

/// Model of a [`DllInfo`].
pub struct DllInfoView {
    pub DeviceType: Seq<char>,
    pub IdentificationNo: Seq<char>,
    pub Manufacturer: Seq<char>,
}

impl View for DllInfo {
    type V = DllInfoView;

    open spec fn view(&self) -> DllInfoView {
        DllInfoView {
            DeviceType: self.DeviceType@,
            IdentificationNo: self.IdentificationNo@,
            Manufacturer: self.Manufacturer@,
        }
    }
}

/// A record value as it appears in the JSON response: a string, an
/// unsigned integer, or a number `raw * 10^exponent` rounded to `decimals`
/// decimal places.
#[derive(Debug, Clone)]
pub enum JsonValue {
    Text(String),
    Unsigned(u64),
    Rounded { raw: i64, exponent: i32, decimals: u32 },
    RoundedUnsigned { raw: u64, exponent: i32, decimals: u32 },
}

/// Model of a [`JsonValue`].
pub enum JsonValueView {
    Text(Seq<char>),
    Unsigned(u64),
    Rounded { raw: i64, exponent: i32, decimals: u32 },
    RoundedUnsigned { raw: u64, exponent: i32, decimals: u32 },
}

impl View for JsonValue {
    type V = JsonValueView;

    open spec fn view(&self) -> JsonValueView {
        match self {
            JsonValue::Text(s) => JsonValueView::Text(s@),
            JsonValue::Unsigned(v) => JsonValueView::Unsigned(*v),
            JsonValue::Rounded { raw, exponent, decimals } => JsonValueView::Rounded {
                raw: *raw,
                exponent: *exponent,
                decimals: *decimals,
            },
            JsonValue::RoundedUnsigned { raw, exponent, decimals } => JsonValueView::RoundedUnsigned {
                raw: *raw,
                exponent: *exponent,
                decimals: *decimals,
            },
        }
    }
}

/// One record of the first-generation decoder.
pub struct OmsMeasurement {
    pub RecordIndex: usize,
    pub HeaderRaw: String,
    pub DIF: String,
    pub VIF: String,
    pub Name: String,
    pub Quantity: String,
    pub Unit: String,
    pub Value: JsonValue,
}

/// Model of an [`OmsMeasurement`].
pub struct OmsMeasurementView {
    pub RecordIndex: usize,
    pub HeaderRaw: Seq<char>,
    pub DIF: Seq<char>,
    pub VIF: Seq<char>,
    pub Name: Seq<char>,
    pub Quantity: Seq<char>,
    pub Unit: Seq<char>,
    pub Value: JsonValueView,
}

impl View for OmsMeasurement {
    type V = OmsMeasurementView;

    open spec fn view(&self) -> OmsMeasurementView {
        OmsMeasurementView {
            RecordIndex: self.RecordIndex,
            HeaderRaw: self.HeaderRaw@,
            DIF: self.DIF@,
            VIF: self.VIF@,
            Name: self.Name@,
            Quantity: self.Quantity@,
            Unit: self.Unit@,
            Value: self.Value@,
        }
    }
}

/// Models of a sequence of records.
pub open spec fn oms_view(v: Seq<OmsMeasurement>) -> Seq<OmsMeasurementView> {
    v.map_values(|r: OmsMeasurement| r@)
}

/// The first-generation response.
pub struct ParseResponse {
    pub ProgState: String,
    pub DLL: DllInfo,
    pub ParsedMeasurements: Vec<OmsMeasurement>,
}

/// Model of a [`ParseResponse`].
pub struct ParseResponseView {
    pub ProgState: Seq<char>,
    pub DLL: DllInfoView,
    pub ParsedMeasurements: Seq<OmsMeasurementView>,
}

impl View for ParseResponse {
    type V = ParseResponseView;

    open spec fn view(&self) -> ParseResponseView {
        ParseResponseView {
            ProgState: self.ProgState@,
            DLL: self.DLL@,
            ParsedMeasurements: oms_view(self.ParsedMeasurements@),
        }
    }
}

// ---------------------------------------------------------------------------
// Plaintext detection
// ---------------------------------------------------------------------------

/// Whether application data already looks decrypted: it must not start with
/// an ELL/AFL CI field (`0x8C`, `0x90`, `0x91`); it does when it starts with
/// two filler bytes, with a transport CI field (`0x78`, `0x7A`, `0x72`), or
/// with a DIF whose data-field code is 1 to 7.
pub open spec fn looks_plaintext(d: Seq<u8>) -> bool {
    if d.len() == 0 {
        false
    } else if d[0] == 0x8C || d[0] == 0x90 || d[0] == 0x91 {
        false
    } else if d.len() >= 2 && d[0] == 0x2F && d[1] == 0x2F {
        true
    } else if d[0] == 0x78 || d[0] == 0x7A || d[0] == 0x72 {
        true
    } else {
        1 <= (d[0] & 0x0Fu8) <= 7
    }
}

/// Whether application data already looks decrypted.
fn is_already_plaintext(app_data: &[u8]) -> (r: bool)
    ensures
        r == looks_plaintext(app_data@),
{
    if app_data.len() == 0 {
        return false;
    }
    let first = app_data[0];
    if first == 0x8C || first == 0x90 || first == 0x91 {
        return false;
    }
    if app_data.len() >= 2 && app_data[0] == 0x2F && app_data[1] == 0x2F {
        return true;
    }
    if first == 0x78 || first == 0x7A || first == 0x72 {
        return true;
    }
    let dif_type = first & 0x0F;
    1 <= dif_type && dif_type <= 7
}

/// Whether a decryption candidate looks like plaintext: at least two bytes,
/// starting with two filler bytes or a transport CI field.
pub open spec fn valid_plaintext(b: Seq<u8>) -> bool {
    b.len() >= 2 && ((b[0] == 0x2F && b[1] == 0x2F) || b[0] == 0x78 || b[0] == 0x7A || b[0] == 0x72)
}

fn is_valid_plaintext(bytes: &[u8]) -> (r: bool)
    ensures
        r == valid_plaintext(bytes@),
{
    if bytes.len() < 2 {
        return false;
    }
    (bytes[0] == 0x2F && bytes[1] == 0x2F) || bytes[0] == 0x78 || bytes[0] == 0x7A || bytes[0] == 0x72
}

// ---------------------------------------------------------------------------
// Integer fields
// ---------------------------------------------------------------------------

/// `256^k`.
pub open spec fn pow256(k: nat) -> nat
    decreases k,
{
    if k == 0 {
        1
    } else {
        256 * pow256((k - 1) as nat)
    }
}

/// Little-endian value of a byte sequence.
pub open spec fn le_value(s: Seq<u8>) -> int
    decreases s.len(),
{
    if s.len() == 0 {
        0
    } else {
        le_value(s.drop_last()) + s.last() * pow256((s.len() - 1) as nat)
    }
}

/// Little-endian value of at most the first eight bytes.
pub open spec fn le_unsigned(s: Seq<u8>) -> int {
    if s.len() <= 8 {
        le_value(s)
    } else {
        le_value(s.subrange(0, 8))
    }
}

/// Two's-complement value of at most the first eight bytes, little endian.
pub open spec fn le_signed(s: Seq<u8>) -> int {
    if s.len() == 0 {
        0
    } else {
        let n: nat = if s.len() <= 8 { s.len() } else { 8 };
        let raw = le_unsigned(s);
        if raw >= pow256(n) / 2 {
            raw - pow256(n)
        } else {
            raw
        }
    }
}

pub(crate) proof fn lemma_le_bound(s: Seq<u8>)
    ensures
        0 <= le_value(s) < pow256(s.len()),
    decreases s.len(),
{
    if s.len() > 0 {
        lemma_le_bound(s.drop_last());
        let p = pow256((s.len() - 1) as nat);
        let v = le_value(s.drop_last());
        let b = s.last() as int;
        assert(0 <= v + b * p < 256 * p) by (nonlinear_arith)
            requires
                0 <= v < p,
                0 <= b <= 255,
        ;
    }
}

proof fn lemma_pow256_mono(a: nat, b: nat)
    requires
        a <= b,
    ensures
        pow256(a) <= pow256(b),
    decreases b,
{
    if a < b {
        lemma_pow256_mono(a, (b - 1) as nat);
    }
}

/// Unsigned little-endian value of up to eight bytes.
pub fn parse_unsigned(bytes: &[u8]) -> (r: u64)
    ensures
        r == le_unsigned(bytes@),
{
    let n = if bytes.len() <= 8 { bytes.len() } else { 8 };
    let ghost s = if bytes@.len() <= 8 { bytes@ } else { bytes@.subrange(0, 8) };
    let mut val: u128 = 0;
    let mut mult: u128 = 1;
    let mut i: usize = 0;
    while i < n
        invariant
            n <= 8,
            n == s.len(),
            forall|k: int| 0 <= k < n ==> s[k] == bytes@[k],
            n <= bytes@.len(),
            i <= n,
            val == le_value(s.subrange(0, i as int)),
            mult == pow256(i as nat),
        decreases n - i,
    {
        proof {
            let pre = s.subrange(0, i as int);
            assert(s.subrange(0, i as int + 1).drop_last() =~= pre);
            lemma_le_bound(pre);
            lemma_pow256_mono((i + 1) as nat, 8);
            reveal_with_fuel(pow256, 9);
            assert(val + (bytes@[i as int] as int) * mult < 256 * mult) by (nonlinear_arith)
                requires
                    val < mult,
                    bytes@[i as int] <= 255,
            ;
        }
        val = val + (bytes[i] as u128) * mult;
        mult = mult * 256;
        i = i + 1;
    }
    proof {
        assert(s.subrange(0, n as int) =~= s);
        lemma_le_bound(s);
        lemma_pow256_mono(n as nat, 8);
        reveal_with_fuel(pow256, 9);
    }
    val as u64
}

/// Two's-complement little-endian value of up to eight bytes: with `n` the
/// number of bytes read (at most 8), the result lies in
/// `-256^n / 2 .. 256^n / 2` and differs from the unsigned reading by a
/// multiple of `256^n`; no bytes read as 0.
pub fn parse_signed(bytes: &[u8]) -> (r: i64)
    ensures
        r == le_signed(bytes@),
        bytes@.len() == 0 ==> r == 0,
        bytes@.len() > 0 ==> ({
            let n: nat = if bytes@.len() <= 8 { bytes@.len() } else { 8 };
            &&& -(pow256(n) / 2) <= r < pow256(n) / 2
            &&& (le_unsigned(bytes@) - r) % (pow256(n) as int) == 0
        }),
{
    proof {
        crate::laws::law_signed_reading(bytes@);
    }
    if bytes.len() == 0 {
        return 0;
    }
    let n = if bytes.len() <= 8 { bytes.len() } else { 8 };
    let raw = parse_unsigned(bytes);
    let mut full: u128 = 1;
    let mut i: usize = 0;
    while i < n
        invariant
            i <= n <= 8,
            full == pow256(i as nat),
        decreases n - i,
    {
        proof {
            lemma_pow256_mono((i + 1) as nat, 8);
            reveal_with_fuel(pow256, 9);
        }
        full = full * 256;
        i = i + 1;
    }
    proof {
        let s = if bytes@.len() <= 8 { bytes@ } else { bytes@.subrange(0, 8) };
        lemma_le_bound(s);
        assert(s.len() == n);
        lemma_pow256_mono(n as nat, 8);
        reveal_with_fuel(pow256, 9);
        assert(pow256(1) == 256);
        lemma_pow256_mono(1, n as nat);
    }
    if (raw as u128) >= full / 2 {
        ((raw as i128) - (full as i128)) as i64
    } else {
        raw as i64
    }
}

// ---------------------------------------------------------------------------
// BCD and date fields
// ---------------------------------------------------------------------------

/// Whether every nibble of `s` is a decimal digit.
pub open spec fn all_bcd_digits(s: Seq<u8>) -> bool {
    forall|i: int| 0 <= i < s.len() ==> (#[trigger] s[i]) % 16 <= 9 && s[i] / 16 <= 9
}

/// Strict BCD decoding: the value when every nibble is a digit.
pub open spec fn strict_bcd(s: Seq<u8>) -> Option<int> {
    if all_bcd_digits(s) {
        Some(bcd_value(s))
    } else {
        None
    }
}



/// Decodes strict little-endian BCD; a non-decimal nibble gives nothing.
fn parse_bcd(bytes: &[u8]) -> (r: Option<u64>)
    requires
        bytes@.len() <= 9,
    ensures
        match r {
            Some(v) => strict_bcd(bytes@) == Some(v as int),
            None => strict_bcd(bytes@) is None,
        },
{
    let mut val: u64 = 0;
    let mut multiplier: u64 = 1;
    let mut i: usize = 0;
    while i < bytes.len()
        invariant
            i <= bytes@.len() <= 9,
            all_bcd_digits(bytes@.subrange(0, i as int)),
            val == bcd_value(bytes@.subrange(0, i as int)),
            multiplier == pow100(i as nat),
        decreases bytes@.len() - i,
    {
        let b = bytes[i];
        let low = b & 0x0F;
        let high = (b >> 4) & 0x0F;
        assert(low == b % 16 && high == b / 16) by (bit_vector)
            requires
                low == b & 0x0F,
                high == (b >> 4) & 0x0F,
        ;
        if low > 9 || high > 9 {
            proof {
                assert(!(bytes@[i as int] % 16 <= 9 && bytes@[i as int] / 16 <= 9));
            }
            return None;
        }
        proof {
            let pre = bytes@.subrange(0, i as int);
            assert(bytes@.subrange(0, i as int + 1).drop_last() =~= pre);
            lemma_bcd_bound(pre);
            lemma_pow100_mono((i + 1) as nat, 9);
            reveal_with_fuel(pow100, 10);
            assert(pow100((i + 1) as nat) == 100 * pow100(i as nat));
            assert(val + (low as int) * multiplier + (high as int) * (10 * multiplier) < 100 * multiplier) by (nonlinear_arith)
                requires
                    val < multiplier,
                    low <= 9,
                    high <= 9,
            ;
            assert(bcd_pair(b) == low + 10 * high);
            assert(all_bcd_digits(bytes@.subrange(0, i as int + 1)));
            assert(bytes@.subrange(0, i as int + 1).last() == b);
            assert(bcd_value(bytes@.subrange(0, i as int + 1)) == val + bcd_pair(b) * multiplier);
            assert((low as int + 10 * high as int) * multiplier == (low as int) * multiplier
                + (high as int) * (10 * multiplier)) by (nonlinear_arith);
        }
        val = val + (low as u64) * multiplier;
        multiplier = multiplier * 10;
        val = val + (high as u64) * multiplier;
        multiplier = multiplier * 10;
        i = i + 1;
    }
    proof {
        assert(bytes@.subrange(0, bytes@.len() as int) =~= bytes@);
    }
    Some(val)
}

/// Date-and-time field of type F, checked against the calendar: the text
/// `"YYYY-MM-DD hh:mm:00"` for an existing day and a valid time.
pub open spec fn legacy_datetime(b: Seq<u8>) -> Option<Seq<char>> {
    if b.len() < 4 {
        None
    } else {
        let min = (b[0] & 0x3Fu8) as int;
        let hour = (b[1] & 0x1Fu8) as int;
        let day = (b[2] & 0x1Fu8) as int;
        let year_low = (b[2] >> 5u8) & 0x07u8;
        let year_high = (b[3] >> 4u8) & 0x0Fu8;
        let year = 2000 + ((year_high << 3u8) | year_low) as int;
        let month = (b[3] & 0x0Fu8) as int;
        if 1 <= month <= 12 && 1 <= day <= 31 && hour < 24 && min < 60 && is_civil_date(year, month, day) {
            Some(datetime_text(year as nat, month as nat, day as nat, hour as nat, min as nat))
        } else {
            None
        }
    }
}

fn parse_mbus_datetime_f(bytes: &[u8]) -> (r: Option<String>)
    ensures
        match r {
            Some(s) => legacy_datetime(bytes@) == Some(s@),
            None => legacy_datetime(bytes@) is None,
        },
{
    if bytes.len() < 4 {
        return None;
    }
    let min = bytes[0] & 0x3F;
    let hour = bytes[1] & 0x1F;
    let day = bytes[2] & 0x1F;
    let year_low = (bytes[2] >> 5u8) & 0x07;
    let year_high = (bytes[3] >> 4u8) & 0x0F;
    let year_offset = (year_high << 3u8) | year_low;
    let year: i32 = 2000 + year_offset as i32;
    let month = bytes[3] & 0x0F;
    if 1 <= month && month <= 12 && 1 <= day && day <= 31 && hour < 24 && min < 60 {
        return civil_datetime_text(year, month as u32, day as u32, hour as u32, min as u32);
    }
    None
}


// ---------------------------------------------------------------------------
// Record evaluation
// ---------------------------------------------------------------------------

/// Name and unit of an on-time (`0x20..=0x23`) or operating-time (`0x24..=0x27`) VIF.
pub open spec fn duration_labels(vc: u8) -> (Seq<char>, Seq<char>) {
    let name = if vc <= 0x23 { "On Time"@ } else { "Operating Time"@ };
    let unit = if vc == 0x20 || vc == 0x24 {
        "seconds"@
    } else if vc == 0x21 || vc == 0x25 {
        "minutes"@
    } else if vc == 0x22 || vc == 0x26 {
        "hours"@
    } else {
        "days"@
    };
    (name, unit)
}

/// The first VIFE behind an extension-table VIF, without its extension bit
/// (0 when there is none).
pub open spec fn ext_vife(vif_stack: Seq<u8>) -> u8 {
    (if vif_stack.len() > 1 { vif_stack[1] } else { 0u8 }) & 0x7Fu8
}

/// Name, quantity and unit of the extension-table entries the decoder knows:
/// error flags and the remaining battery lifetime in days, months or years.
pub open spec fn ext_labels(vife: u8) -> Option<(Seq<char>, Seq<char>, Seq<char>)> {
    if vife == 0x17 {
        Some(("Error Flags"@, "StatusAndDiagnostics"@, "None"@))
    } else if vife == 0x20 || vife == 0x21 {
        Some(("Remaining Battery Lifetime"@, "StatusAndDiagnostics"@, "days"@))
    } else if vife == 0x24 || vife == 0x34 || vife == 0x74 {
        Some(("Remaining Battery Lifetime"@, "StatusAndDiagnostics"@, "months"@))
    } else if vife == 0x25 {
        Some(("Remaining Battery Lifetime"@, "StatusAndDiagnostics"@, "years"@))
    } else {
        None
    }
}

/// Name of a temperature VIF (`0x58..=0x67`).
pub open spec fn temperature_name(vc: u8) -> Seq<char> {
    if vc <= 0x5B {
        "Flow Temperature"@
    } else if vc <= 0x5F {
        "Return Temperature"@
    } else if vc <= 0x63 {
        "Temperature Difference"@
    } else {
        "External Temperature"@
    }
}

/// Raw signed value of a temperature field: a 16-bit integer for a
/// two-byte field of code 2, otherwise the two's-complement value of the
/// (at most eight) bytes.
pub open spec fn temperature_raw(dt: u8, data: Seq<u8>) -> int {
    if dt == 0x02 && data.len() == 2 {
        signed16(data[0], data[1])
    } else {
        le_signed(data)
    }
}

/// Raw value of a volume field: strict BCD for a BCD code when every nibble
/// is decimal, otherwise the unsigned little-endian value.
pub open spec fn volume_raw(dt: u8, data: Seq<u8>) -> int {
    if is_bcd_code(dt) {
        match strict_bcd(data) {
            Some(v) => v,
            None => le_unsigned(data),
        }
    } else {
        le_unsigned(data)
    }
}

/// Name, quantity, unit and value of one record in the first-generation
/// decoder.
pub open spec fn legacy_evaluate(dif: u8, vif: u8, vif_stack: Seq<u8>, data: Seq<u8>) -> (Seq<char>, Seq<char>, Seq<char>, JsonValueView) {
    let dt = dif & 0x0Fu8;
    let vc = vif & 0x7Fu8;
    if dt == 0x0D {
        ("Special Data"@, "RawHex"@, "hex"@, JsonValueView::Text(hex_upper(data)))
    } else if vc == 0x6D && legacy_datetime(data) is Some {
        ("Date and Time"@, "Timestamp"@, "ISO8601"@, JsonValueView::Text(legacy_datetime(data)->0))
    } else if 0x20 <= vc <= 0x27 {
        let l = duration_labels(vc);
        (l.0, "OperatingState"@, l.1, JsonValueView::Unsigned(le_unsigned(data) as u64))
    } else if (vif == 0xFD || vif == 0x7D) && ext_labels(ext_vife(vif_stack)) is Some {
        let l = ext_labels(ext_vife(vif_stack))->0;
        (l.0, l.1, l.2, JsonValueView::Unsigned(le_unsigned(data) as u64))
    } else if 0x58 <= vc <= 0x67 {
        (temperature_name(vc), "Temperature"@, "°C"@, JsonValueView::Rounded {
            raw: temperature_raw(dt, data) as i64,
            exponent: ((vc & 0x03u8) as int - 3) as i32,
            decimals: 2,
        })
    } else if 0x30 <= vc <= 0x3F {
        ("Current Flow"@, "VolumeFlow"@, "m³/h"@, JsonValueView::RoundedUnsigned {
            raw: le_unsigned(data) as u64,
            exponent: ((vc & 0x07u8) as int - 6) as i32,
            decimals: 3,
        })
    } else if 0x10 <= vc <= 0x17 {
        ("Volume"@, "Volume"@, "m³"@, JsonValueView::RoundedUnsigned {
            raw: volume_raw(dt, data) as u64,
            exponent: ((vc & 0x07u8) as int - 6) as i32,
            decimals: 3,
        })
    } else {
        ("Metric"@, "Unknown"@, "None"@, JsonValueView::Unsigned(le_unsigned(data) as u64))
    }
}


fn labels4(a: &str, b: &str, c: &str, v: JsonValue) -> (r: (String, String, String, JsonValue))
    ensures
        r.0@ == a@,
        r.1@ == b@,
        r.2@ == c@,
        r.3 == v,
{
    (string_of(a), string_of(b), string_of(c), v)
}

/// Evaluates one record of the first-generation decoder.
fn evaluate_record(dif: u8, primary_vif: u8, vif_stack: &[u8], data: &[u8]) -> (r: (String, String, String, JsonValue))
    requires
        is_bcd_code(dif & 0x0F) ==> data@.len() <= 9,
    ensures
        (r.0@, r.1@, r.2@, r.3@) == legacy_evaluate(dif, primary_vif, vif_stack@, data@),
{
    let data_type = dif & 0x0F;
    if data_type == 0x0D {
        let hex_str = hex_encode_upper(data);
        return labels4("Special Data", "RawHex", "hex", JsonValue::Text(hex_str));
    }
    let vif_clean = primary_vif & 0x7F;
    if vif_clean == 0x6D {
        if let Some(formatted) = parse_mbus_datetime_f(data) {
            return labels4("Date and Time", "Timestamp", "ISO8601", JsonValue::Text(formatted));
        }
    }
    if 0x20 <= vif_clean && vif_clean <= 0x27 {
        let raw_val = parse_unsigned(data);
        let name = if vif_clean <= 0x23 { "On Time" } else { "Operating Time" };
        let unit = if vif_clean == 0x20 || vif_clean == 0x24 {
            "seconds"
        } else if vif_clean == 0x21 || vif_clean == 0x25 {
            "minutes"
        } else if vif_clean == 0x22 || vif_clean == 0x26 {
            "hours"
        } else {
            "days"
        };
        return labels4(name, "OperatingState", unit, JsonValue::Unsigned(raw_val));
    }
    if primary_vif == 0xFD || primary_vif == 0x7D {
        let second: u8 = if vif_stack.len() > 1 { vif_stack[1] } else { 0 };
        let vife = second & 0x7F;
        let raw_val = parse_unsigned(data);
        if vife == 0x17 {
            return labels4("Error Flags", "StatusAndDiagnostics", "None", JsonValue::Unsigned(raw_val));
        } else if vife == 0x20 || vife == 0x21 {
            return labels4("Remaining Battery Lifetime", "StatusAndDiagnostics", "days", JsonValue::Unsigned(raw_val));
        } else if vife == 0x24 || vife == 0x34 || vife == 0x74 {
            return labels4("Remaining Battery Lifetime", "StatusAndDiagnostics", "months", JsonValue::Unsigned(raw_val));
        } else if vife == 0x25 {
            return labels4("Remaining Battery Lifetime", "StatusAndDiagnostics", "years", JsonValue::Unsigned(raw_val));
        }
    }
    if 0x58 <= vif_clean && vif_clean <= 0x67 {
        let exponent = (vif_clean & 0x03) as i32 - 3;
        let signed_val: i64 = if data_type == 0x02 && data.len() == 2 {
            let v: i64 = data[0] as i64 + 256 * (data[1] as i64);
            if v >= 32768 { v - 65536 } else { v }
        } else {
            parse_signed(data)
        };
        let name = if vif_clean <= 0x5B {
            "Flow Temperature"
        } else if vif_clean <= 0x5F {
            "Return Temperature"
        } else if vif_clean <= 0x63 {
            "Temperature Difference"
        } else {
            "External Temperature"
        };
        return labels4(name, "Temperature", "°C", JsonValue::Rounded { raw: signed_val, exponent, decimals: 2 });
    }
    if 0x30 <= vif_clean && vif_clean <= 0x3F {
        let raw_val = parse_unsigned(data);
        let exponent = (vif_clean & 0x07) as i32 - 6;
        return labels4("Current Flow", "VolumeFlow", "m³/h", JsonValue::RoundedUnsigned { raw: raw_val, exponent, decimals: 3 });
    }
    if 0x10 <= vif_clean && vif_clean <= 0x17 {
        let is_bcd = data_type == 0x09 || data_type == 0x0A || data_type == 0x0B || data_type == 0x0C
            || data_type == 0x0E;
        let raw_val = if is_bcd {
            match parse_bcd(data) {
                Some(v) => v,
                None => parse_unsigned(data),
            }
        } else {
            parse_unsigned(data)
        };
        let exponent = (vif_clean & 0x07) as i32 - 6;
        return labels4("Volume", "Volume", "m³", JsonValue::RoundedUnsigned { raw: raw_val, exponent, decimals: 3 });
    }
    let fallback_val = parse_unsigned(data);
    labels4("Metric", "Unknown", "None", JsonValue::Unsigned(fallback_val))
}


// ---------------------------------------------------------------------------
// Record stream
// ---------------------------------------------------------------------------

/// The record with index `k` whose DIF stack is `raw[start..d_end]`, VIF
/// stack `raw[d_end..v_end]` and data field `raw[ds..ds + dl]`.
pub open spec fn oms_record(raw: Seq<u8>, k: nat, start: int, d_end: int, v_end: int, ds: int, dl: int) -> OmsMeasurementView {
    let dif = raw[start];
    let vif = raw[d_end];
    let ev = legacy_evaluate(dif, vif, raw.subrange(d_end, v_end), raw.subrange(ds, ds + dl));
    OmsMeasurementView {
        RecordIndex: k as usize,
        HeaderRaw: hex_upper(raw.subrange(start, v_end)),
        DIF: "0x"@ + hex_byte_upper(dif),
        VIF: "0x"@ + hex_byte_upper(vif),
        Name: ev.0,
        Quantity: ev.1,
        Unit: ev.2,
        Value: ev.3,
    }
}

/// The records decoded from index `idx` on, numbered from `k`. The framing
/// is that of [`frame_step`].
pub open spec fn oms_records_from(raw: Seq<u8>, idx: int, k: nat) -> Seq<OmsMeasurementView>
    decreases raw.len() - idx,
{
    if idx < 0 || idx >= raw.len() {
        Seq::empty()
    } else {
        proof {
            lemma_step_advances(raw, idx);
        }
        match frame_step(raw, idx) {
            FrameStep::Skip(n) => oms_records_from(raw, n, k),
            FrameStep::Stop => Seq::empty(),
            FrameStep::Record { start, d_end, v_end, data_start, data_len } =>
                seq![oms_record(raw, k, start, d_end, v_end, data_start, data_len)]
                    + oms_records_from(raw, data_start + data_len, k + 1),
        }
    }
}

/// All records of a payload in the first-generation decoder.
pub open spec fn oms_records(raw: Seq<u8>) -> Seq<OmsMeasurementView> {
    if raw.len() == 0 {
        Seq::empty()
    } else {
        oms_records_from(raw, stream_start(raw), 0)
    }
}

/// Builds the record with index `k` framed by the given positions.
fn build_oms_record(raw: &[u8], k: usize, start: usize, d_end: usize, v_end: usize, ds: usize, dl: usize) -> (r: OmsMeasurement)
    requires
        start < d_end < v_end <= ds,
        ds + dl <= raw@.len(),
        is_bcd_code(raw@[start as int] & 0x0F) ==> dl <= 6,
    ensures
        r@ == oms_record(raw@, k as nat, start as int, d_end as int, v_end as int, ds as int, dl as int),
{
    let dif = raw[start];
    let primary_vif = raw[d_end];
    let header_raw = hex_encode_upper(&raw[start..v_end]);
    let (name, quantity, unit, value) = evaluate_record(dif, primary_vif, &raw[d_end..v_end], &raw[ds..ds + dl]);
    let mut dif_text = string_of("0x");
    push_hex_byte_upper(&mut dif_text, dif);
    let mut vif_text = string_of("0x");
    push_hex_byte_upper(&mut vif_text, primary_vif);
    OmsMeasurement {
        RecordIndex: k,
        HeaderRaw: header_raw,
        DIF: dif_text,
        VIF: vif_text,
        Name: name,
        Quantity: quantity,
        Unit: unit,
        Value: value,
    }
}

/// Decodes all records of a payload (first-generation decoder). Decoding
/// never fails: it stops at an end marker or at a truncated record.
pub fn parse_mbus_stream(raw_bytes: &[u8]) -> (r: Vec<OmsMeasurement>)
    ensures
        oms_view(r@) == oms_records(raw_bytes@),
{
    let mut processed_records: Vec<OmsMeasurement> = Vec::new();
    if raw_bytes.len() == 0 {
        proof {
            assert(oms_view(processed_records@) =~= Seq::<OmsMeasurementView>::empty());
        }
        return processed_records;
    }
    let mut idx: usize = stream_start_exec(raw_bytes);
    let mut record_index: usize = 0;
    proof {
        assert(oms_view(processed_records@) =~= Seq::<OmsMeasurementView>::empty());
    }
    while idx < raw_bytes.len()
        invariant
            record_index == processed_records@.len(),
            record_index <= idx,
            oms_view(processed_records@) + oms_records_from(raw_bytes@, idx as int, record_index as nat)
                == oms_records(raw_bytes@),
        ensures
            oms_view(processed_records@) == oms_records(raw_bytes@),
        decreases raw_bytes@.len() - idx,
    {
        proof {
            lemma_step_advances(raw_bytes@, idx as int);
            lemma_bcd_frame_len(raw_bytes@, idx as int);
        }
        let ghost before = oms_view(processed_records@);
        match locate_frame(raw_bytes, idx) {
            Frame::Skip(n) => {
                idx = n;
            },
            Frame::Stop => {
                proof {
                    assert(oms_view(processed_records@) + oms_records_from(raw_bytes@, idx as int, record_index as nat)
                        =~= oms_view(processed_records@));
                }
                break;
            },
            Frame::Record { start, d_end, v_end, data_start, data_len } => {
                let rec = build_oms_record(raw_bytes, record_index, start, d_end, v_end, data_start, data_len);
                let n = data_start + data_len;
                let ghost m = rec@;
                processed_records.push(rec);
                proof {
                    assert(oms_view(processed_records@) =~= before.push(m));
                    assert(before + (seq![m] + oms_records_from(raw_bytes@, n as int, (record_index + 1) as nat))
                        =~= before.push(m) + oms_records_from(raw_bytes@, n as int, (record_index + 1) as nat));
                }
                record_index = record_index + 1;
                idx = n;
            },
        }
        if idx >= raw_bytes.len() {
            proof {
                assert(oms_view(processed_records@) + oms_records_from(raw_bytes@, idx as int, record_index as nat)
                    =~= oms_view(processed_records@));
            }
        }
    }
    processed_records
}


// ---------------------------------------------------------------------------
// Decryption
// ---------------------------------------------------------------------------

/// Block-by-block decryption: every whole 16-byte block is decrypted on its
/// own with the same `iv` (one CBC block each, so blocks are not chained);
/// a trailing partial block is left as it is.
pub open spec fn blockwise_decrypt(key: Seq<u8>, iv: Seq<u8>, data: Seq<u8>) -> Seq<u8>
    decreases data.len(),
{
    if data.len() < 16 {
        data
    } else {
        aes128_cbc_decrypt(key, iv, data.subrange(0, 16)) + blockwise_decrypt(
            key,
            iv,
            data.subrange(16, data.len() as int),
        )
    }
}

/// Decrypts every whole block of `ciphertext` separately under `iv`.
fn decrypt_aes_cbc(session_key: &[u8], iv: &[u8], ciphertext: &[u8]) -> (r: Vec<u8>)
    requires
        session_key@.len() == 16,
        iv@.len() == 16,
    ensures
        r@ == blockwise_decrypt(session_key@, iv@, ciphertext@),
        r@.len() == ciphertext@.len(),
{
    let n = ciphertext.len();
    let mut buffer: Vec<u8> = Vec::new();
    let mut i: usize = 0;
    proof {
        assert(ciphertext@.subrange(0, n as int) =~= ciphertext@);
    }
    while n - i >= 16
        invariant
            i <= n == ciphertext@.len(),
            session_key@.len() == 16,
            iv@.len() == 16,
            buffer@ + blockwise_decrypt(session_key@, iv@, ciphertext@.subrange(i as int, n as int))
                == blockwise_decrypt(session_key@, iv@, ciphertext@),
            buffer@.len() == i,
        decreases n - i,
    {
        let ghost rest = ciphertext@.subrange(i as int, n as int);
        let mut block = cbc_decrypt_no_padding(session_key, iv, &ciphertext[i..i + 16]);
        proof {
            assert(rest.subrange(0, 16) =~= ciphertext@.subrange(i as int, i + 16));
            assert(rest.subrange(16, rest.len() as int) =~= ciphertext@.subrange(i + 16, n as int));
        }
        let ghost before = buffer@;
        let ghost b = block@;
        buffer.append(&mut block);
        proof {
            assert(before + (b + blockwise_decrypt(session_key@, iv@, ciphertext@.subrange(i + 16, n as int)))
                =~= buffer@ + blockwise_decrypt(session_key@, iv@, ciphertext@.subrange(i + 16, n as int)));
        }
        i = i + 16;
    }
    let mut tail = slice_to_vec(&ciphertext[i..n]);
    buffer.append(&mut tail);
    buffer
}

/// Derives a session key as the AES-128 CMAC of `kdf_input` under the
/// master key.
fn derive_cmac_session_key(master_key: &[u8], kdf_input: &[u8]) -> (r: Vec<u8>)
    requires
        master_key@.len() == 16,
    ensures
        r@ == aes128_cmac(master_key@, kdf_input@),
        r@.len() == 16,
{
    cmac_aes128(master_key, kdf_input)
}

/// Where the mode 5 ciphertext begins: behind a 13-byte header for the CI
/// fields `0x8C`, `0x7A` and `0x78`, behind 10 bytes otherwise.
pub open spec fn mode5_header_len(raw: Seq<u8>) -> int {
    if raw[10] == 0x8C || raw[10] == 0x7A || raw[10] == 0x78 {
        13
    } else {
        10
    }
}

/// The mode 5 IV: M-field and address (bytes 2..8), version, device type,
/// and eight copies of byte 11.
pub open spec fn legacy_mode5_iv(raw: Seq<u8>, version: u8, dev_type: u8) -> Seq<u8> {
    raw.subrange(2, 8) + seq![version, dev_type] + Seq::new(8, |i: int| raw[11])
}

/// First-generation mode 5 decryption: the decrypted payload, behind the
/// unchanged header, without its two leading filler bytes; the input itself
/// when it is too short, when the key or the ciphertext length does not fit,
/// or when the result does not start with two filler bytes.
pub open spec fn legacy_mode5(raw: Seq<u8>, key: Seq<u8>, version: u8, dev_type: u8) -> Seq<u8> {
    if raw.len() < 12 {
        raw
    } else {
        let ho = mode5_header_len(raw);
        if raw.len() <= ho {
            raw
        } else {
            let enc = raw.subrange(ho, raw.len() as int);
            if key.len() != 16 || enc.len() % 16 != 0 {
                raw
            } else {
                let d = aes128_cbc_decrypt(key, legacy_mode5_iv(raw, version, dev_type), enc);
                if d.len() >= 2 && d[0] == 0x2F && d[1] == 0x2F {
                    raw.subrange(0, ho) + d.subrange(2, d.len() as int)
                } else {
                    raw
                }
            }
        }
    }
}

fn decrypt_mode_5(raw_payload: &[u8], key_bytes: &[u8], version: u8, dev_type: u8) -> (r: Vec<u8>)
    ensures
        r@ == legacy_mode5(raw_payload@, key_bytes@, version, dev_type),
{
    if raw_payload.len() < 12 {
        return slice_to_vec(raw_payload);
    }
    let ci = raw_payload[10];
    let header_offset: usize = if ci == 0x8C || ci == 0x7A || ci == 0x78 { 13 } else { 10 };
    if raw_payload.len() <= header_offset {
        return slice_to_vec(raw_payload);
    }
    let fc = raw_payload[11];
    let iv = [
        raw_payload[2], raw_payload[3], raw_payload[4], raw_payload[5], raw_payload[6], raw_payload[7],
        version, dev_type, fc, fc, fc, fc, fc, fc, fc, fc,
    ];
    proof {
        assert(iv@ =~= legacy_mode5_iv(raw_payload@, version, dev_type));
    }
    let encrypted = &raw_payload[header_offset..raw_payload.len()];
    if key_bytes.len() != 16 || encrypted.len() % 16 != 0 {
        return slice_to_vec(raw_payload);
    }
    let buf = cbc_decrypt_no_padding(key_bytes, &iv, encrypted);
    if buf.len() >= 2 && buf[0] == 0x2F && buf[1] == 0x2F {
        let mut full = slice_to_vec(&raw_payload[0..header_offset]);
        let mut rest = slice_to_vec(&buf.as_slice()[2..buf.len()]);
        full.append(&mut rest);
        return full;
    }
    slice_to_vec(raw_payload)
}

/// First `i` in `start..raw.len() - 16` holding the AFL CI field `0x90`.
pub open spec fn find_afl(raw: Seq<u8>, i: int) -> Option<int>
    decreases raw.len() - i,
{
    if i < 0 || i + 16 >= raw.len() {
        None
    } else if raw[i] == 0x90 {
        Some(i)
    } else {
        find_afl(raw, i + 1)
    }
}

proof fn lemma_find_afl(raw: Seq<u8>, i: int)
    requires
        0 <= i,
    ensures
        find_afl(raw, i) matches Some(j) ==> i <= j && j + 16 < raw.len() && raw[j] == 0x90,
    decreases raw.len() - i,
{
    if i + 16 < raw.len() && raw[i] != 0x90 {
        lemma_find_afl(raw, i + 1);
    }
}

/// Positions of the message counter and of the ciphertext in a mode 7
/// telegram: behind the first AFL (`0x90`) from byte 10 on, the counter at
/// AFL + 5 and the ciphertext behind the AFL's length byte and six further
/// bytes; without an AFL, bytes 18 and 36. Nothing when the telegram is
/// shorter than 36 bytes, ends before the ciphertext, or the ciphertext is
/// not a whole number of blocks.
pub open spec fn mode7_layout(raw: Seq<u8>) -> Option<(int, int)> {
    if raw.len() < 36 {
        None
    } else {
        let pos = match find_afl(raw, 10) {
            Some(i) => (i + 5, i + 8 + raw[i + 1] as int),
            None => (18int, 36int),
        };
        if raw.len() < pos.1 || (raw.len() - pos.1) % 16 != 0 {
            None
        } else {
            Some(pos)
        }
    }
}

/// Key-derivation input: `0x00`, two 4-byte fields, seven fill bytes.
pub open spec fn kdf_block(first: Seq<u8>, second: Seq<u8>, fill: u8) -> Seq<u8> {
    seq![0x00u8] + first + second + Seq::new(7, |i: int| fill)
}

/// The first of four decryption candidates that looks like plaintext, or
/// nothing: session keys derived by CMAC from counter and id with `0x07`
/// fill, from id and counter with `0x07` fill, from counter and id with
/// zero fill, and finally the master key itself.
pub open spec fn mode7_candidates(master: Seq<u8>, counter: Seq<u8>, id: Seq<u8>, ct: Seq<u8>) -> Seq<u8> {
    let z = Seq::new(16, |i: int| 0u8);
    let d1 = blockwise_decrypt(aes128_cmac(master, kdf_block(counter, id, 0x07)), z, ct);
    let d2 = blockwise_decrypt(aes128_cmac(master, kdf_block(id, counter, 0x07)), z, ct);
    let d3 = blockwise_decrypt(aes128_cmac(master, kdf_block(counter, id, 0x00)), z, ct);
    let d4 = blockwise_decrypt(master, z, ct);
    if valid_plaintext(d1) {
        d1
    } else if valid_plaintext(d2) {
        d2
    } else if valid_plaintext(d3) {
        d3
    } else if valid_plaintext(d4) {
        d4
    } else {
        Seq::empty()
    }
}

/// First-generation mode 7 decryption.
pub open spec fn legacy_mode7(raw: Seq<u8>, master: Seq<u8>) -> Seq<u8> {
    match mode7_layout(raw) {
        None => Seq::empty(),
        Some((c, t)) => mode7_candidates(
            master,
            raw.subrange(c, c + 4),
            raw.subrange(2, 6),
            raw.subrange(t, raw.len() as int),
        ),
    }
}

fn kdf_block_exec(first: &[u8], second: &[u8], fill: u8) -> (r: [u8; 16])
    requires
        first@.len() == 4,
        second@.len() == 4,
    ensures
        r@ == kdf_block(first@, second@, fill),
{
    let r = [
        0x00u8, first[0], first[1], first[2], first[3], second[0], second[1], second[2], second[3],
        fill, fill, fill, fill, fill, fill, fill,
    ];
    proof {
        assert(r@ =~= kdf_block(first@, second@, fill));
    }
    r
}

/// Decrypts a mode 7 telegram by trying the candidate session keys in turn;
/// empty when the layout does not fit or no candidate gives plaintext. The
/// version and device type are not used.
pub fn decrypt_mode_7(raw_payload: &[u8], master_key: &[u8], _fallback_version: u8, _fallback_dev_type: u8) -> (r: Vec<u8>)
    requires
        mode7_layout(raw_payload@) is Some ==> master_key@.len() == 16,
    ensures
        r@ == legacy_mode7(raw_payload@, master_key@),
        r@.len() == 0 || valid_plaintext(r@),
        r@.len() == 0 || (mode7_layout(raw_payload@) matches Some((c, t)) && r@.len() == raw_payload@.len() - t
            && r@.len() % 16 == 0),
{
    let n = raw_payload.len();
    if n < 36 {
        return Vec::new();
    }
    let mut found: Option<usize> = None;
    let mut i: usize = 10;
    while i < n - 16
        invariant_except_break
            36 <= n == raw_payload@.len(),
            10 <= i,
            found is None,
            find_afl(raw_payload@, 10) == find_afl(raw_payload@, i as int),
        ensures
            found matches Some(j) ==> find_afl(raw_payload@, 10) == Some(j as int),
            found is None ==> find_afl(raw_payload@, 10) is None,
        decreases n - i,
    {
        if raw_payload[i] == 0x90 {
            found = Some(i);
            break;
        }
        i = i + 1;
    }
    proof {
        lemma_find_afl(raw_payload@, 10);
    }
    let (counter_idx, ciphertext_idx) = match found {
        Some(j) => {
            let afll = raw_payload[j + 1] as usize;
            if afll > n - (j + 8) {
                return Vec::new();
            }
            (j + 5, j + 8 + afll)
        },
        None => (18, 36),
    };
    if n < ciphertext_idx {
        return Vec::new();
    }
    if (n - ciphertext_idx) % 16 != 0 {
        return Vec::new();
    }
    proof {
        assert(mode7_layout(raw_payload@) == Some((counter_idx as int, ciphertext_idx as int)));
    }
    let id_field = &raw_payload[2..6];
    let frame_counter = &raw_payload[counter_idx..counter_idx + 4];
    let ciphertext = &raw_payload[ciphertext_idx..n];
    let iv_zero = [0u8; 16];
    proof {
        assert(iv_zero@ =~= Seq::new(16, |i: int| 0u8));
        assert(raw_payload@.subrange(2, 6) =~= id_field@);
    }
    let kdf_1 = kdf_block_exec(frame_counter, id_field, 0x07);
    let key_1 = derive_cmac_session_key(master_key, &kdf_1);
    let dec_1 = decrypt_aes_cbc(&key_1, &iv_zero, ciphertext);
    if is_valid_plaintext(&dec_1) {
        return dec_1;
    }
    let kdf_2 = kdf_block_exec(id_field, frame_counter, 0x07);
    let key_2 = derive_cmac_session_key(master_key, &kdf_2);
    let dec_2 = decrypt_aes_cbc(&key_2, &iv_zero, ciphertext);
    if is_valid_plaintext(&dec_2) {
        return dec_2;
    }
    let kdf_3 = kdf_block_exec(frame_counter, id_field, 0x00);
    let key_3 = derive_cmac_session_key(master_key, &kdf_3);
    let dec_3 = decrypt_aes_cbc(&key_3, &iv_zero, ciphertext);
    if is_valid_plaintext(&dec_3) {
        return dec_3;
    }
    let dec_4 = decrypt_aes_cbc(master_key, &iv_zero, ciphertext);
    if is_valid_plaintext(&dec_4) {
        return dec_4;
    }
    Vec::new()
}


// ---------------------------------------------------------------------------
// Request handling
// ---------------------------------------------------------------------------

/// Model of a [`ParseRequest`].
pub struct ParseRequestView {
    pub payload: Seq<char>,
    pub oms_mode: Option<u8>,
    pub encryptionkey: Option<Seq<char>>,
}

impl View for ParseRequest {
    type V = ParseRequestView;

    open spec fn view(&self) -> ParseRequestView {
        ParseRequestView {
            payload: self.payload@,
            oms_mode: self.oms_mode,
            encryptionkey: match self.encryptionkey {
                Some(k) => Some(k@),
                None => None,
            },
        }
    }
}

/// The successful response for a payload whose working bytes are `working`.
pub open spec fn success_response(raw: Seq<u8>, working: Seq<u8>) -> ParseResponseView {
    ParseResponseView {
        ProgState: "Success"@,
        DLL: DllInfoView {
            DeviceType: "WaterMeter"@,
            IdentificationNo: hex_byte_upper(raw[5]) + hex_byte_upper(raw[4]) + hex_byte_upper(raw[3])
                + hex_byte_upper(raw[2]),
            Manufacturer: hex_byte_upper(raw[1]) + hex_byte_upper(raw[0]),
        },
        ParsedMeasurements: oms_records(working),
    }
}

/// Whether a key is present and not blank.
pub open spec fn has_key(key: Option<Seq<char>>) -> bool {
    match key {
        Some(k) => !trims_to_empty(k),
        None => false,
    }
}

/// The first-generation answer to a request: 400 with a message for a
/// payload that is not Base64, shorter than 12 bytes, or a key (needed for
/// decryption) that is not hexadecimal or not 16 bytes long; otherwise the
/// decoded records of the payload, decrypted first in mode 5 or 7 (mode 5
/// when none is given) when a key is present, the mode is not 0 and the
/// application data does not already look decrypted.
pub open spec fn legacy_response(req: ParseRequestView) -> Result<ParseResponseView, (u16, Seq<char>)> {
    match base64_standard_decode(req.payload) {
        Err(m) => Err((400u16, "Base64 decode error: "@ + m)),
        Ok(raw) => if raw.len() < 12 {
            Err((400u16, "Payload too short"@))
        } else {
            let mode: u8 = match req.oms_mode {
                Some(m) => m,
                None => 5,
            };
            if has_key(req.encryptionkey) && mode != 0 && !looks_plaintext(raw.subrange(10, raw.len() as int)) {
                match hex_crate_decode(req.encryptionkey->0) {
                    Err(m) => Err((400u16, "Invalid key hex: "@ + m)),
                    Ok(kb) => if kb.len() != 16 {
                        Err((400u16, "Key must be 16 bytes"@))
                    } else if mode == 5 {
                        Ok(success_response(raw, legacy_mode5(raw, kb, raw[6], raw[7])))
                    } else if mode == 7 {
                        Ok(success_response(raw, legacy_mode7(raw, kb)))
                    } else {
                        Ok(success_response(raw, raw))
                    },
                }
            } else {
                Ok(success_response(raw, raw))
            }
        },
    }
}

/// Model of a handler result.
pub open spec fn legacy_result_view(r: Result<ParseResponse, (u16, String)>) -> Result<ParseResponseView, (u16, Seq<char>)> {
    match r {
        Ok(resp) => Ok(resp@),
        Err((code, msg)) => Err((code, msg@)),
    }
}

fn bad_request(prefix: &str, detail: &str) -> (r: Result<ParseResponse, (u16, String)>)
    ensures
        legacy_result_view(r) == Err::<ParseResponseView, (u16, Seq<char>)>((400u16, prefix@ + detail@)),
{
    let mut msg = string_of(prefix);
    push_str(&mut msg, detail);
    Err((400, msg))
}

fn rejected(msg: &str) -> (r: Result<ParseResponse, (u16, String)>)
    ensures
        legacy_result_view(r) == Err::<ParseResponseView, (u16, Seq<char>)>((400u16, msg@)),
{
    Err((400, string_of(msg)))
}

/// Handles a first-generation parse request (`POST /api/v1/parse`).
pub fn parse_payload(req: &ParseRequest) -> (r: Result<ParseResponse, (u16, String)>)
    ensures
        legacy_result_view(r) == legacy_response(req@),
{
    let raw_payload = match base64_decode(req.payload.as_str()) {
        Ok(bytes) => bytes,
        Err(err) => {
            return bad_request("Base64 decode error: ", err.as_str());
        },
    };
    if raw_payload.len() < 12 {
        return rejected("Payload too short");
    }
    let mut m_id = String::new();
    push_hex_byte_upper(&mut m_id, raw_payload[1]);
    push_hex_byte_upper(&mut m_id, raw_payload[0]);
    let mut id_no = String::new();
    push_hex_byte_upper(&mut id_no, raw_payload[5]);
    push_hex_byte_upper(&mut id_no, raw_payload[4]);
    push_hex_byte_upper(&mut id_no, raw_payload[3]);
    push_hex_byte_upper(&mut id_no, raw_payload[2]);
    let version = raw_payload[6];
    let dev_type = raw_payload[7];
    let dll_info = DllInfo { DeviceType: string_of("WaterMeter"), IdentificationNo: id_no, Manufacturer: m_id };
    let key_str: Option<&String> = match &req.encryptionkey {
        Some(k) => if is_blank(k.as_str()) { None } else { Some(k) },
        None => None,
    };
    let mode: u8 = match req.oms_mode {
        Some(m) => m,
        None => 5,
    };
    let n = raw_payload.len();
    let working = match key_str {
        Some(k) if mode != 0 && !is_already_plaintext(&raw_payload.as_slice()[10..n]) => {
            let key_bytes = match hex_decode(k.as_str()) {
                Ok(b) => b,
                Err(err) => {
                    return bad_request("Invalid key hex: ", err.as_str());
                },
            };
            if key_bytes.len() != 16 {
                return rejected("Key must be 16 bytes");
            }
            if mode == 5 {
                decrypt_mode_5(raw_payload.as_slice(), key_bytes.as_slice(), version, dev_type)
            } else if mode == 7 {
                decrypt_mode_7(raw_payload.as_slice(), key_bytes.as_slice(), version, dev_type)
            } else {
                raw_payload.clone()
            }
        },
        _ => raw_payload.clone(),
    };
    let measurements = parse_mbus_stream(working.as_slice());
    proof {
        assert(m_id@ =~= hex_byte_upper(raw_payload@[1]) + hex_byte_upper(raw_payload@[0]));
    }
    Ok(ParseResponse { ProgState: string_of("Success"), DLL: dll_info, ParsedMeasurements: measurements })
}

} // verus!
