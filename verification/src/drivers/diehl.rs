//! Driver for Diehl / Hydrometer meters (manufacturer codes `DME`, `HYD`),
//! usually security mode 7, with post-processing of the billing-date and
//! target-volume records.
use vstd::prelude::*;
use vstd::slice::slice_to_vec;
use crate::mbus::{parse_wmbus_records, wmbus_records};
use crate::security::{EncryptionMode, SecurityEngine, decrypt_sanitized, mode_from};
use crate::text::{pow10, starts_with, string_of};
use crate::traits::{DllHeader, DllHeaderView, MeasurementValue, MeasurementView, MeterDriver,
    ParseError, ParseErrorView, ParsedMeasurements, PayloadFields, ProcessResult,
    ProcessResultView, Scale, ValueView, header_info_of, header_of, manufacturer_code_of,
    records_view};

verus! {

/// Driver for Diehl meters.
pub struct DiehlDriver;

impl DiehlDriver {
    pub fn new() -> (r: Self)
        ensures
            r == DiehlDriver,
    {
        DiehlDriver
    }
}

impl Default for DiehlDriver {
    fn default() -> (r: Self)
        ensures
            r == DiehlDriver,
    {
        DiehlDriver::new()
    }
}

/// Diehl Metering (`DME`) and the older Hydrometer code (`HYD`).
pub open spec fn diehl_supports(h: DllHeaderView) -> bool {
    let code = manufacturer_code_of(h.m_field);
    code == "DME"@ || code == "HYD"@
}

/// Whether `raw` times `scale` is exactly -1.
pub open spec fn scaled_is_minus_one(raw: i64, scale: Scale) -> bool {
    match scale {
        Scale::Times(m) => (raw as int) * (m as int) == -1,
        Scale::Pow10(e) => if e >= 0 {
            (raw as int) * (pow10(e as nat) as int) == -1
        } else {
            raw == -(pow10((-e) as nat) as int)
        },
    }
}

/// Whether a value reads as `0`. A scaled number reads as `0` exactly when
/// its raw number is zero; a 32-bit real never occurs in the records this is
/// applied to (their data-field codes are BCD and 16-bit integer).
pub open spec fn shows_zero(v: ValueView) -> bool {
    match v {
        ValueView::Text(s) => s == "0"@,
        ValueView::Scaled { raw, scale } => raw == 0,
        ValueView::Real32 { .. } => false,
    }
}

/// Whether a value reads as `-1`.
pub open spec fn shows_minus_one(v: ValueView) -> bool {
    match v {
        ValueView::Text(s) => s == "-1"@,
        ValueView::Scaled { raw, scale } => scaled_is_minus_one(raw, scale),
        ValueView::Real32 { .. } => false,
    }
}

/// Whether a value is the text `Unset`.
pub open spec fn shows_unset(v: ValueView) -> bool {
    v == ValueView::Text("Unset"@)
}

/// The target-volume rule: records headed `4C13` or `4C933C` are the target
/// billing volume; a zero reading means it is unset.
pub open spec fn adjust_target_volume(r: MeasurementView) -> MeasurementView {
    if r.header_raw.len() >= 4 && r.header_raw.subrange(0, 4) == "4C13"@ || r.header_raw.len() >= 6
        && r.header_raw.subrange(0, 6) == "4C933C"@ {
        if shows_zero(r.value) {
            MeasurementView {
                description: "Target Volume (Unset)"@,
                value: ValueView::Text("Unset"@),
                unit: ""@,
                ..r
            }
        } else {
            MeasurementView { description: "Target Volume"@, ..r }
        }
    } else {
        r
    }
}

/// The target-date rule: a record headed `426C` whose value is `Unset` or
/// reads as `-1` is an unset billing date.
pub open spec fn adjust_target_date(r: MeasurementView) -> MeasurementView {
    if r.header_raw.len() >= 4 && r.header_raw.subrange(0, 4) == "426C"@ && (shows_unset(r.value)
        || shows_minus_one(r.value)) {
        MeasurementView {
            description: "Target Billing Date (Unset)"@,
            value: ValueView::Text("Unset"@),
            unit: ""@,
            ..r
        }
    } else {
        r
    }
}

/// Diehl post-processing of one record.
pub open spec fn diehl_adjust(r: MeasurementView) -> MeasurementView {
    adjust_target_date(adjust_target_volume(r))
}

/// The security mode number the Diehl driver applies: the requested one, else
/// 7 when a key is given, else 0 (plaintext).
pub open spec fn diehl_effective_mode(oms_mode: Option<u8>, key: Option<Seq<u8>>) -> u8 {
    match oms_mode {
        Option::Some(m) => m,
        Option::None => if key is Some {
            7
        } else {
            0
        },
    }
}

/// The payload the Diehl driver decodes: the bytes behind the 10-byte header
/// as they are when neither a mode nor a key is given, otherwise decrypted and
/// sanitized.
pub open spec fn diehl_payload(raw: Seq<u8>, oms_mode: Option<u8>, key: Option<Seq<u8>>) -> Result<Seq<u8>, ParseErrorView> {
    let eff = diehl_effective_mode(oms_mode, key);
    if eff == 0 && key is None {
        Ok(raw.subrange(10, raw.len() as int))
    } else {
        decrypt_sanitized(mode_from(Some(eff)), raw, 10, key)
    }
}

/// Outcome of the Diehl driver.
pub open spec fn diehl_parse(raw: Seq<u8>, oms_mode: Option<u8>, key: Option<Seq<u8>>) -> Result<ProcessResultView, ParseErrorView> {
    if raw.len() < 10 {
        Err(ParseErrorView::HeaderTooShort)
    } else {
        let h = header_of(raw);
        match diehl_payload(raw, oms_mode, key) {
            Err(e) => Err(e),
            Ok(d) => Ok(ProcessResultView {
                driver_name: "DiehlDriver"@,
                manufacturer: manufacturer_code_of(h.m_field),
                device_type: h.device_type,
                dll: header_info_of(h),
                parsed_measurements: wmbus_records(d).map_values(|r: MeasurementView| diehl_adjust(r)),
                payload_fields: PayloadFields::Mode(diehl_effective_mode(oms_mode, key)),
            }),
        }
    }
}

proof fn lemma_product_not_minus_one(r: int, m: int)
    requires
        m >= 2,
    ensures
        r * m != -1,
{
    if r >= 0 {
        assert(r * m >= 0) by (nonlinear_arith)
            requires
                r >= 0,
                m >= 2,
        ;
    } else {
        assert(r * m <= -2) by (nonlinear_arith)
            requires
                r <= -1,
                m >= 2,
        ;
    }
}

proof fn lemma_pow10_mono(a: nat, b: nat)
    requires
        a <= b,
    ensures
        pow10(a) <= pow10(b),
    decreases b,
{
    if a < b {
        lemma_pow10_mono(a, (b - 1) as nat);
    }
}

fn pow10_exec(k: u32) -> (r: i64)
    requires
        k <= 18,
    ensures
        r == pow10(k as nat),
{
    let mut r: i64 = 1;
    let mut i: u32 = 0;
    while i < k
        invariant
            i <= k <= 18,
            r == pow10(i as nat),
        decreases k - i,
    {
        proof {
            lemma_pow10_mono((i + 1) as nat, 18);
            reveal_with_fuel(pow10, 19);
        }
        r = r * 10;
        i = i + 1;
    }
    r
}

fn is_minus_one(raw: i64, scale: Scale) -> (r: bool)
    ensures
        r == scaled_is_minus_one(raw, scale),
{
    match scale {
        Scale::Times(m) => {
            if m == 1 {
                proof {
                    assert((raw as int) * (m as int) == raw) by (nonlinear_arith)
                        requires
                            m == 1,
                    ;
                }
                raw == -1
            } else {
                proof {
                    if m >= 2 {
                        lemma_product_not_minus_one(raw as int, m as int);
                    } else {
                        assert((raw as int) * (m as int) == 0) by (nonlinear_arith)
                            requires
                                m == 0,
                        ;
                    }
                }
                false
            }
        },
        Scale::Pow10(e) => {
            if e >= 0 {
                proof {
                    if e == 0 {
                        assert(pow10(0) == 1);
                        let p = pow10(0) as int;
                        assert((raw as int) * p == raw) by (nonlinear_arith)
                            requires
                                p == 1,
                        ;
                    }
                    if e >= 1 {
                        reveal_with_fuel(pow10, 2);
                        lemma_pow10_mono(1, e as nat);
                        lemma_product_not_minus_one(raw as int, pow10(e as nat) as int);
                    }
                }
                e == 0 && raw == -1
            } else if e >= -18 {
                let p = pow10_exec((-e) as u32);
                raw == -p
            } else {
                proof {
                    lemma_pow10_mono(19, (-e) as nat);
                    reveal_with_fuel(pow10, 20);
                }
                false
            }
        },
    }
}

fn copy_value(v: &MeasurementValue) -> (r: MeasurementValue)
    ensures
        r@ == v@,
{
    match v {
        MeasurementValue::Text(s) => MeasurementValue::Text(s.clone()),
        MeasurementValue::Scaled { raw, scale } => MeasurementValue::Scaled { raw: *raw, scale: *scale },
        MeasurementValue::Real32 { bits, scale } => MeasurementValue::Real32 { bits: *bits, scale: *scale },
    }
}

fn value_shows_zero(v: &MeasurementValue) -> (r: bool)
    ensures
        r == shows_zero(v@),
{
    match v {
        MeasurementValue::Text(s) => *s == string_of("0"),
        MeasurementValue::Scaled { raw, .. } => *raw == 0,
        MeasurementValue::Real32 { .. } => false,
    }
}

fn value_shows_unset_or_minus_one(v: &MeasurementValue) -> (r: bool)
    ensures
        r == (shows_unset(v@) || shows_minus_one(v@)),
{
    match v {
        MeasurementValue::Text(s) => *s == string_of("Unset") || *s == string_of("-1"),
        MeasurementValue::Scaled { raw, scale } => is_minus_one(*raw, *scale),
        MeasurementValue::Real32 { .. } => false,
    }
}

fn adjust_record(rec: &ParsedMeasurements) -> (r: ParsedMeasurements)
    ensures
        r@ == diehl_adjust(rec@),
{
    let mut description = rec.description.clone();
    let mut value = copy_value(&rec.value);
    let mut unit = rec.unit.clone();
    if starts_with(&rec.header_raw, "4C13") || starts_with(&rec.header_raw, "4C933C") {
        if value_shows_zero(&rec.value) {
            description = string_of("Target Volume (Unset)");
            value = MeasurementValue::Text(string_of("Unset"));
            unit = string_of("");
        } else {
            description = string_of("Target Volume");
        }
    }
    if starts_with(&rec.header_raw, "426C") {
        if value_shows_unset_or_minus_one(&value) {
            description = string_of("Target Billing Date (Unset)");
            value = MeasurementValue::Text(string_of("Unset"));
            unit = string_of("");
        }
    }
    let r = ParsedMeasurements {
        header_raw: rec.header_raw.clone(),
        storage_no: rec.storage_no,
        tariff: rec.tariff,
        device: rec.device,
        dib: rec.dib.clone(),
        vib: rec.vib.clone(),
        value,
        unit,
        description,
    };
    proof {
        reveal_strlit("4C13");
        reveal_strlit("4C933C");
        reveal_strlit("426C");
    }
    r
}

fn adjust_records(records: &Vec<ParsedMeasurements>) -> (r: Vec<ParsedMeasurements>)
    ensures
        records_view(r@) == records_view(records@).map_values(|m: MeasurementView| diehl_adjust(m)),
{
    let mut out: Vec<ParsedMeasurements> = Vec::new();
    let mut i: usize = 0;
    while i < records.len()
        invariant
            i <= records@.len(),
            records_view(out@) == records_view(records@.subrange(0, i as int)).map_values(
                |m: MeasurementView| diehl_adjust(m),
            ),
        decreases records@.len() - i,
    {
        let rec = adjust_record(&records[i]);
        let ghost before = out@;
        let ghost rv = rec@;
        out.push(rec);
        proof {
            let target = records_view(records@.subrange(0, i as int + 1)).map_values(
                |m: MeasurementView| diehl_adjust(m),
            );
            let prev = records_view(records@.subrange(0, i as int)).map_values(
                |m: MeasurementView| diehl_adjust(m),
            );
            assert(records_view(out@) =~= records_view(before).push(rv));
            assert(target =~= prev.push(diehl_adjust(records@[i as int]@)));
        }
        i = i + 1;
    }
    proof {
        assert(records@.subrange(0, records@.len() as int) =~= records@);
    }
    out
}

impl MeterDriver for DiehlDriver {
    open spec fn spec_supports(&self, header: DllHeaderView) -> bool {
        diehl_supports(header)
    }

    open spec fn spec_parse(&self, raw_payload: Seq<u8>, oms_mode: Option<u8>, key: Option<Seq<u8>>) -> Result<ProcessResultView, ParseErrorView> {
        diehl_parse(raw_payload, oms_mode, key)
    }

    fn supports(&self, header: &DllHeader) -> (r: bool) {
        let code = header.manufacturer_code();
        code == string_of("DME") || code == string_of("HYD")
    }

    fn parse(&self, raw_payload: &[u8], oms_mode: Option<u8>, key: Option<&[u8]>) -> (r: Result<ProcessResult, ParseError>) {
        let header = match DllHeader::from_bytes(raw_payload) {
            Ok(h) => h,
            Err(e) => {
                return Err(e);
            },
        };
        if raw_payload.len() < 10 {
            return Err(ParseError::HeaderTooShort);
        }
        let effective_mode: u8 = match oms_mode {
            Some(m) => m,
            None => if key.is_some() {
                7
            } else {
                0
            },
        };
        let decrypted_payload = if effective_mode == 0 && key.is_none() {
            slice_to_vec(&raw_payload[10..raw_payload.len()])
        } else {
            let mode = EncryptionMode::from(Some(effective_mode));
            match SecurityEngine::decrypt_and_sanitize(mode, raw_payload, 10, key) {
                Ok(d) => d,
                Err(e) => {
                    return Err(e);
                },
            }
        };
        let records = parse_wmbus_records(&decrypted_payload);
        let parsed_measurements = adjust_records(&records);
        Ok(ProcessResult {
            driver_name: string_of("DiehlDriver"),
            manufacturer: header.manufacturer_code(),
            device_type: header.device_type,
            dll: header.header_info(),
            parsed_measurements,
            payload_fields: PayloadFields::Mode(effective_mode),
        })
    }
}

} // verus!
