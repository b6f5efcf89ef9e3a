//! The M-Bus application-layer record decoder: DIF/DIFE and VIF/VIFE stacks,
//! BCD and binary integer data fields, date fields, and the record stream.
use vstd::prelude::*;
use crate::text::{dec_padded, hex_byte_upper, hex_encode_upper, hex_upper,
    push_dec_padded, push_hex_byte_upper, push_str, string_of};
use crate::traits::{MeasurementValue, MeasurementView, ParsedMeasurements, Scale, ValueView,
    records_view};

verus! {

// ---------------------------------------------------------------------------
// BCD
// ---------------------------------------------------------------------------

/// `100^k`.
pub open spec fn pow100(k: nat) -> nat
    decreases k,
{
    if k == 0 {
        1
    } else {
        100 * pow100((k - 1) as nat)
    }
}

/// A BCD nibble; a non-decimal filler nibble counts as zero.
pub open spec fn bcd_nibble(n: int) -> int {
    if n > 9 {
        0
    } else {
        n
    }
}

/// The two-digit value of one BCD byte (low nibble is the units digit).
pub open spec fn bcd_pair(b: u8) -> int {
    bcd_nibble(b as int % 16) + 10 * bcd_nibble(b as int / 16)
}

/// Little-endian BCD: byte `i` holds the digits of weight `100^i`.
pub open spec fn bcd_value(s: Seq<u8>) -> int
    decreases s.len(),
{
    if s.len() == 0 {
        0
    } else {
        bcd_value(s.drop_last()) + bcd_pair(s.last()) * pow100((s.len() - 1) as nat)
    }
}

pub(crate) proof fn lemma_bcd_bound(s: Seq<u8>)
    ensures
        0 <= bcd_value(s) < pow100(s.len()),
    decreases s.len(),
{
    if s.len() > 0 {
        lemma_bcd_bound(s.drop_last());
        let p = pow100((s.len() - 1) as nat);
        let v = bcd_value(s.drop_last());
        let q = bcd_pair(s.last());
        assert(0 <= q <= 99);
        assert(0 <= v + q * p < 100 * p) by (nonlinear_arith)
            requires
                0 <= v < p,
                0 <= q <= 99,
        ;
    }
}

/// Decodes a little-endian BCD field; non-decimal nibbles count as zero.
pub fn parse_bcd_bytes(data: &[u8]) -> (r: u64)
    requires
        data@.len() <= 9,
    ensures
        r == bcd_value(data@),
{
    let mut val: u64 = 0;
    let mut mult: u64 = 1;
    let mut i: usize = 0;
    while i < data.len()
        invariant
            i <= data@.len() <= 9,
            val == bcd_value(data@.subrange(0, i as int)),
            mult == pow100(i as nat),
            mult <= 1_000_000_000_000_000_000,
        decreases data@.len() - i,
    {
        let byte = data[i];
        let low0 = byte & 0x0F;
        let high0 = (byte >> 4) & 0x0F;
        assert(low0 == byte % 16 && high0 == byte / 16) by (bit_vector)
            requires
                low0 == byte & 0x0F,
                high0 == (byte >> 4) & 0x0F,
        ;
        let low: u64 = if low0 > 9 { 0 } else { low0 as u64 };
        let high: u64 = if high0 > 9 { 0 } else { high0 as u64 };
        proof {
            let pre = data@.subrange(0, i as int);
            let nxt = data@.subrange(0, i as int + 1);
            assert(nxt.drop_last() =~= pre);
            lemma_bcd_bound(pre);
            assert(bcd_pair(byte) == low + high * 10);
            assert(pow100((i + 1) as nat) == 100 * pow100(i as nat));
            assert((low + high * 10) * mult + val < 100 * mult) by (nonlinear_arith)
                requires
                    low + high * 10 <= 99,
                    val < mult,
            ;
            reveal_with_fuel(pow100, 10);
            assert(i + 1 <= 9 ==> pow100((i + 1) as nat) <= 1_000_000_000_000_000_000) by {
                lemma_pow100_mono((i + 1) as nat, 9);
            }
        }
        val = val + (low + high * 10) * mult;
        mult = mult * 100;
        i = i + 1;
    }
    proof {
        assert(data@.subrange(0, data@.len() as int) =~= data@);
    }
    val
}

pub(crate) proof fn lemma_pow100_mono(a: nat, b: nat)
    requires
        a <= b,
    ensures
        pow100(a) <= pow100(b),
    decreases b,
{
    if a < b {
        lemma_pow100_mono(a, (b - 1) as nat);
    }
}

// ---------------------------------------------------------------------------
// Date fields
// ---------------------------------------------------------------------------

/// Date field of type G (two bytes): `"YYYY-MM-DD"`, `"Unset"` for the
/// all-ones pattern, and nothing when the month or day is out of range.
pub open spec fn mbus_date(b: Seq<u8>) -> Option<Seq<char>> {
    if b.len() < 2 {
        None
    } else {
        let raw: u16 = (b[0] as int + 256 * b[1] as int) as u16;
        if raw == 0xFFFFu16 {
            Some("Unset"@)
        } else {
            let day = (raw & 0x1Fu16) as int;
            let month = ((raw >> 8u16) & 0x0Fu16) as int;
            let year = (((raw >> 5u16) & 0x07u16) | ((raw >> 9u16) & 0x78u16)) as int + 2000;
            if 1 <= month <= 12 && 1 <= day <= 31 {
                Some(dec_padded(year as nat, 4) + "-"@ + dec_padded(month as nat, 2) + "-"@
                    + dec_padded(day as nat, 2))
            } else {
                None
            }
        }
    }
}

/// Date-and-time field of type F (four bytes): `"YYYY-MM-DD hh:mm:00"`, and
/// nothing when a component is out of range.
pub open spec fn mbus_datetime_f(b: Seq<u8>) -> Option<Seq<char>> {
    if b.len() < 4 {
        None
    } else {
        let min = (b[0] & 0x3Fu8) as int;
        let hour = (b[1] & 0x1Fu8) as int;
        let day = (b[2] & 0x1Fu8) as int;
        let year_low = (b[2] >> 5u8) & 0x07u8;
        let year_high = (b[3] >> 4u8) & 0x0Fu8;
        let year = 2000 + ((year_high << 3u8) | year_low) as int;
        let month = (b[3] & 0x0Fu8) as int;
        if 1 <= month <= 12 && 1 <= day <= 31 && hour < 24 && min < 60 {
            Some(dec_padded(year as nat, 4) + "-"@ + dec_padded(month as nat, 2) + "-"@
                + dec_padded(day as nat, 2) + " "@ + dec_padded(hour as nat, 2) + ":"@
                + dec_padded(min as nat, 2) + ":00"@)
        } else {
            None
        }
    }
}

/// Decodes a type G date field.
pub fn parse_mbus_date(bytes: &[u8]) -> (r: Option<String>)
    ensures
        match r {
            Some(s) => mbus_date(bytes@) == Some(s@),
            None => mbus_date(bytes@) is None,
        },
{
    if bytes.len() < 2 {
        return None;
    }
    let raw: u16 = bytes[0] as u16 + (bytes[1] as u16) * 256;
    if raw == 0xFFFF {
        return Some(string_of("Unset"));
    }
    let day = raw & 0x1F;
    let month = (raw >> 8u16) & 0x0F;
    let year = (((raw >> 5u16) & 0x07) | ((raw >> 9u16) & 0x78)) as u64 + 2000;
    if 1 <= month && month <= 12 && 1 <= day && day <= 31 {
        let mut s = String::new();
        push_dec_padded(&mut s, year, 4);
        push_str(&mut s, "-");
        push_dec_padded(&mut s, month as u64, 2);
        push_str(&mut s, "-");
        push_dec_padded(&mut s, day as u64, 2);
        return Some(s);
    }
    None
}

/// Decodes a type F date-and-time field.
pub fn parse_mbus_datetime_f(bytes: &[u8]) -> (r: Option<String>)
    ensures
        match r {
            Some(s) => mbus_datetime_f(bytes@) == Some(s@),
            None => mbus_datetime_f(bytes@) is None,
        },
{
    if bytes.len() < 4 {
        return None;
    }
    let min = bytes[0] & 0x3F;
    let hour = bytes[1] & 0x1F;
    let day = bytes[2] & 0x1F;
    let year_low = (bytes[2] >> 5u8) & 0x07;
    let year_high = (bytes[3] >> 4u8) & 0x0F;
    let year = 2000 + ((year_high << 3u8) | year_low) as u64;
    let month = bytes[3] & 0x0F;
    if 1 <= month && month <= 12 && 1 <= day && day <= 31 && hour < 24 && min < 60 {
        let mut s = String::new();
        push_dec_padded(&mut s, year, 4);
        push_str(&mut s, "-");
        push_dec_padded(&mut s, month as u64, 2);
        push_str(&mut s, "-");
        push_dec_padded(&mut s, day as u64, 2);
        push_str(&mut s, " ");
        push_dec_padded(&mut s, hour as u64, 2);
        push_str(&mut s, ":");
        push_dec_padded(&mut s, min as u64, 2);
        push_str(&mut s, ":00");
        return Some(s);
    }
    None
}

// ---------------------------------------------------------------------------
// DIF / DIFE metadata
// ---------------------------------------------------------------------------

/// Storage number, tariff and subunit encoded in a DIF/DIFE stack (first two
/// extension bytes).
pub open spec fn dif_metadata(st: Seq<u8>) -> (u32, u32, u32) {
    if st.len() == 0 {
        (0, 0, 0)
    } else {
        let s0 = ((st[0] >> 6u8) & 0x01u8) as u32;
        let (s1, t1, d1) = if st.len() > 1 {
            let e = st[1];
            (
                s0 | (((e & 0x0Fu8) as u32) << 1u32),
                ((e >> 4u8) & 0x03u8) as u32,
                ((e >> 6u8) & 0x01u8) as u32,
            )
        } else {
            (s0, 0u32, 0u32)
        };
        if st.len() > 2 {
            let e = st[2];
            (s1 | (((e & 0x0Fu8) as u32) << 5u32), t1 | ((((e >> 4u8) & 0x03u8) as u32) << 2u32), d1)
        } else {
            (s1, t1, d1)
        }
    }
}

/// Reads storage number, tariff and subunit from a DIF/DIFE stack.
pub fn parse_dif_dife_metadata(dif_stack: &[u8]) -> (r: (u32, u32, u32))
    ensures
        r == dif_metadata(dif_stack@),
{
    if dif_stack.len() == 0 {
        return (0, 0, 0);
    }
    let mut storage_no = ((dif_stack[0] >> 6u8) & 0x01) as u32;
    let mut tariff = 0u32;
    let mut device = 0u32;
    if dif_stack.len() > 1 {
        let dife1 = dif_stack[1];
        storage_no = storage_no | (((dife1 & 0x0F) as u32) << 1u32);
        tariff = ((dife1 >> 4u8) & 0x03) as u32;
        device = ((dife1 >> 6u8) & 0x01) as u32;
    }
    if dif_stack.len() > 2 {
        let dife2 = dif_stack[2];
        storage_no = storage_no | (((dife2 & 0x0F) as u32) << 5u32);
        tariff = tariff | ((((dife2 >> 4u8) & 0x03) as u32) << 2u32);
    }
    (storage_no, tariff, device)
}

// ---------------------------------------------------------------------------
// VIF / VIFE
// ---------------------------------------------------------------------------

/// Multiplier for a time unit selected by the two low bits of the VIF:
/// seconds, minutes, hours, days.
pub open spec fn time_scale(sel: u8) -> Scale {
    if sel == 0 {
        Scale::Times(1)
    } else if sel == 1 {
        Scale::Times(60)
    } else if sel == 2 {
        Scale::Times(3600)
    } else {
        Scale::Times(86400)
    }
}

/// Description, unit and scale of a primary VIF together with its VIFE stack
/// (`vif_stack[0]` is the primary VIF itself), after the standard VIF table:
/// energy (Wh, J), volume, mass, on time, operating time, power (W, J/h),
/// volume flow, flow, return, difference and external temperature,
/// pressure, dates; the `0xFD` extension table for diagnostic error flags
/// (a bitfield) and battery lifetime; anything else is an unknown metric.
///
/// Where the published tables name one quantity in more than one way, the
/// names reported to clients are kept: `Current Flow` for VIFs `0x38..=0x3F`
/// (the volume-flow row), `Forward Volume` / `Backward Volume` for a volume
/// followed by VIFE `0x3B` / `0x3C`, and `Remaining Battery Lifetime` for
/// `0xFD 0x74`.
pub open spec fn vif_info(primary_vif: u8, vif_stack: Seq<u8>) -> (Seq<char>, Seq<char>, Scale) {
    let base = primary_vif & 0x7Fu8;
    if base == 0x7D && vif_stack.len() > 1 {
        let vife = vif_stack[1] & 0x7Fu8;
        if vife == 0x17 {
            ("Diagnostic Error Flags"@, "bitfield"@, Scale::Times(1))
        } else if vife == 0x74 {
            ("Remaining Battery Lifetime"@, "days"@, Scale::Times(1))
        } else {
            ("Extension Metric"@, "raw"@, Scale::Times(1))
        }
    } else if 0x10 <= base <= 0x17 {
        let desc = if vif_stack.len() > 1 {
            if vif_stack[1] & 0x7Fu8 == 0x3B {
                "Forward Volume"@
            } else if vif_stack[1] & 0x7Fu8 == 0x3C {
                "Backward Volume"@
            } else {
                "Volume"@
            }
        } else {
            "Volume"@
        };
        (desc, "m³"@, Scale::Pow10(((base & 0x07u8) as int - 6) as i32))
    } else if base <= 0x07 {
        ("Energy"@, "Wh"@, Scale::Pow10(((base & 0x07u8) as int - 3) as i32))
    } else if 0x08 <= base <= 0x0F {
        ("Energy"@, "J"@, Scale::Pow10((base & 0x07u8) as i32))
    } else if 0x18 <= base <= 0x1F {
        ("Mass"@, "kg"@, Scale::Pow10(((base & 0x07u8) as int - 3) as i32))
    } else if 0x20 <= base <= 0x23 {
        ("On Time"@, "seconds"@, time_scale(base & 0x03u8))
    } else if 0x24 <= base <= 0x27 {
        ("Operating Time"@, "seconds"@, time_scale(base & 0x03u8))
    } else if 0x28 <= base <= 0x2F {
        ("Power"@, "W"@, Scale::Pow10(((base & 0x07u8) as int - 3) as i32))
    } else if 0x30 <= base <= 0x37 {
        ("Power"@, "J/h"@, Scale::Pow10((base & 0x07u8) as i32))
    } else if 0x38 <= base <= 0x3F {
        ("Current Flow"@, "m³/h"@, Scale::Pow10(((base & 0x07u8) as int - 6) as i32))
    } else if 0x58 <= base <= 0x5B {
        ("Flow Temperature"@, "°C"@, Scale::Pow10(((base & 0x03u8) as int - 3) as i32))
    } else if 0x5C <= base <= 0x5F {
        ("Return Temperature"@, "°C"@, Scale::Pow10(((base & 0x03u8) as int - 3) as i32))
    } else if 0x60 <= base <= 0x63 {
        ("Temperature Difference"@, "K"@, Scale::Pow10(((base & 0x03u8) as int - 3) as i32))
    } else if 0x64 <= base <= 0x67 {
        ("External Temperature"@, "°C"@, Scale::Pow10(((base & 0x03u8) as int - 3) as i32))
    } else if 0x68 <= base <= 0x6B {
        ("Pressure"@, "bar"@, Scale::Pow10(((base & 0x03u8) as int - 3) as i32))
    } else if base == 0x6C {
        ("Date and Time"@, ""@, Scale::Times(1))
    } else if base == 0x6D {
        ("Date and Time"@, "ISO8601"@, Scale::Times(1))
    } else {
        ("Unknown Metric"@, "raw"@, Scale::Times(1))
    }
}

fn time_scale_exec(sel: u8) -> (r: Scale)
    ensures
        r == time_scale(sel),
{
    if sel == 0 {
        Scale::Times(1)
    } else if sel == 1 {
        Scale::Times(60)
    } else if sel == 2 {
        Scale::Times(3600)
    } else {
        Scale::Times(86400)
    }
}

/// Description, unit and scale of a VIF with its VIFE stack.
pub fn parse_vif(primary_vif: u8, vif_stack: &[u8]) -> (r: (String, String, Scale))
    ensures
        (r.0@, r.1@, r.2) == vif_info(primary_vif, vif_stack@),
{
    let base = primary_vif & 0x7F;
    if base == 0x7D && vif_stack.len() > 1 {
        let vife = vif_stack[1] & 0x7F;
        if vife == 0x17 {
            return (string_of("Diagnostic Error Flags"), string_of("bitfield"), Scale::Times(1));
        } else if vife == 0x74 {
            return (string_of("Remaining Battery Lifetime"), string_of("days"), Scale::Times(1));
        } else {
            return (string_of("Extension Metric"), string_of("raw"), Scale::Times(1));
        }
    }
    if 0x10 <= base && base <= 0x17 {
        let desc = if vif_stack.len() > 1 {
            if vif_stack[1] & 0x7F == 0x3B {
                string_of("Forward Volume")
            } else if vif_stack[1] & 0x7F == 0x3C {
                string_of("Backward Volume")
            } else {
                string_of("Volume")
            }
        } else {
            string_of("Volume")
        };
        (desc, string_of("m³"), Scale::Pow10((base & 0x07) as i32 - 6))
    } else if base <= 0x07 {
        (string_of("Energy"), string_of("Wh"), Scale::Pow10((base & 0x07) as i32 - 3))
    } else if 0x08 <= base && base <= 0x0F {
        (string_of("Energy"), string_of("J"), Scale::Pow10((base & 0x07) as i32))
    } else if 0x18 <= base && base <= 0x1F {
        (string_of("Mass"), string_of("kg"), Scale::Pow10((base & 0x07) as i32 - 3))
    } else if 0x20 <= base && base <= 0x23 {
        (string_of("On Time"), string_of("seconds"), time_scale_exec(base & 0x03))
    } else if 0x24 <= base && base <= 0x27 {
        (string_of("Operating Time"), string_of("seconds"), time_scale_exec(base & 0x03))
    } else if 0x28 <= base && base <= 0x2F {
        (string_of("Power"), string_of("W"), Scale::Pow10((base & 0x07) as i32 - 3))
    } else if 0x30 <= base && base <= 0x37 {
        (string_of("Power"), string_of("J/h"), Scale::Pow10((base & 0x07) as i32))
    } else if 0x38 <= base && base <= 0x3F {
        (string_of("Current Flow"), string_of("m³/h"), Scale::Pow10((base & 0x07) as i32 - 6))
    } else if 0x58 <= base && base <= 0x5B {
        (string_of("Flow Temperature"), string_of("°C"), Scale::Pow10((base & 0x03) as i32 - 3))
    } else if 0x5C <= base && base <= 0x5F {
        (string_of("Return Temperature"), string_of("°C"), Scale::Pow10((base & 0x03) as i32 - 3))
    } else if 0x60 <= base && base <= 0x63 {
        (string_of("Temperature Difference"), string_of("K"), Scale::Pow10((base & 0x03) as i32 - 3))
    } else if 0x64 <= base && base <= 0x67 {
        (string_of("External Temperature"), string_of("°C"), Scale::Pow10((base & 0x03) as i32 - 3))
    } else if 0x68 <= base && base <= 0x6B {
        (string_of("Pressure"), string_of("bar"), Scale::Pow10((base & 0x03) as i32 - 3))
    } else if base == 0x6C {
        (string_of("Date and Time"), string_of(""), Scale::Times(1))
    } else if base == 0x6D {
        (string_of("Date and Time"), string_of("ISO8601"), Scale::Times(1))
    } else {
        (string_of("Unknown Metric"), string_of("raw"), Scale::Times(1))
    }
}

// ---------------------------------------------------------------------------
// Data field values
// ---------------------------------------------------------------------------

/// Whether the DIF data-field code denotes a BCD field.
pub open spec fn is_bcd_code(dt: u8) -> bool {
    dt == 0x09 || dt == 0x0A || dt == 0x0B || dt == 0x0C || dt == 0x0E
}

/// Signed value of a byte in two's complement.
pub open spec fn signed8(b: u8) -> int {
    if b < 128 {
        b as int
    } else {
        b as int - 256
    }
}

/// Signed little-endian 16-bit value.
pub open spec fn signed16(b0: u8, b1: u8) -> int {
    let v = b0 as int + 256 * b1 as int;
    if v >= 32768 {
        v - 65536
    } else {
        v
    }
}

/// Unsigned little-endian 24-bit value.
pub open spec fn unsigned24(b0: u8, b1: u8, b2: u8) -> int {
    b0 as int + 256 * b1 as int + 65536 * b2 as int
}

/// Unsigned little-endian 32-bit value.
pub open spec fn unsigned32(b0: u8, b1: u8, b2: u8, b3: u8) -> int {
    b0 as int + 256 * b1 as int + 65536 * b2 as int + 16777216 * b3 as int
}

/// Signed little-endian 32-bit value.
pub open spec fn signed32(b0: u8, b1: u8, b2: u8, b3: u8) -> int {
    let v = unsigned32(b0, b1, b2, b3);
    if v >= 0x8000_0000 {
        v - 0x1_0000_0000
    } else {
        v
    }
}

/// The raw number of a data field, by the DIF data-field code (`dif & 0x0F`):
/// 8-bit signed, 16-bit signed, 24-bit unsigned, 32-bit signed, BCD, or a
/// 32-bit real; a field that is too short, and every other code, gives 0.
pub open spec fn decode_raw(dif: u8, data: Seq<u8>, scale: Scale) -> ValueView {
    let dt = dif & 0x0Fu8;
    if dt == 0x01 {
        ValueView::Scaled { raw: (if data.len() >= 1 { signed8(data[0]) } else { 0 }) as i64, scale }
    } else if dt == 0x02 {
        ValueView::Scaled { raw: (if data.len() >= 2 { signed16(data[0], data[1]) } else { 0 }) as i64, scale }
    } else if dt == 0x03 {
        ValueView::Scaled {
            raw: (if data.len() >= 3 { unsigned24(data[0], data[1], data[2]) } else { 0 }) as i64,
            scale,
        }
    } else if dt == 0x04 {
        ValueView::Scaled {
            raw: (if data.len() >= 4 { signed32(data[0], data[1], data[2], data[3]) } else { 0 }) as i64,
            scale,
        }
    } else if is_bcd_code(dt) {
        ValueView::Scaled { raw: bcd_value(data) as i64, scale }
    } else if dt == 0x05 && data.len() >= 4 {
        ValueView::Real32 { bits: unsigned32(data[0], data[1], data[2], data[3]) as u32, scale }
    } else {
        ValueView::Scaled { raw: 0, scale }
    }
}

/// Description, unit and value of one record. Date fields that decode to a
/// valid date become text; everything else is a number with the VIF's scale.
pub open spec fn evaluate(dif: u8, vif: u8, vif_stack: Seq<u8>, data: Seq<u8>) -> (Seq<char>, Seq<char>, ValueView) {
    let base = vif & 0x7Fu8;
    if base == 0x6D && data.len() >= 4 && mbus_datetime_f(data) is Some {
        ("Date and Time"@, "ISO8601"@, ValueView::Text(mbus_datetime_f(data)->0))
    } else if base == 0x6C && data.len() >= 2 && mbus_date(data) is Some {
        ("Target Date"@, ""@, ValueView::Text(mbus_date(data)->0))
    } else {
        let info = vif_info(vif, vif_stack);
        (info.0, info.1, decode_raw(dif, data, info.2))
    }
}

fn decode_raw_exec(dif: u8, data: &[u8], scale: Scale) -> (r: MeasurementValue)
    requires
        is_bcd_code(dif & 0x0F) ==> data@.len() <= 9,
    ensures
        r@ == decode_raw(dif, data@, scale),
{
    let dt = dif & 0x0F;
    if dt == 0x01 {
        let raw: i64 = if data.len() >= 1 {
            if data[0] < 128 { data[0] as i64 } else { data[0] as i64 - 256 }
        } else {
            0
        };
        MeasurementValue::Scaled { raw, scale }
    } else if dt == 0x02 {
        let raw: i64 = if data.len() >= 2 {
            let v = data[0] as i64 + 256 * (data[1] as i64);
            if v >= 32768 { v - 65536 } else { v }
        } else {
            0
        };
        MeasurementValue::Scaled { raw, scale }
    } else if dt == 0x03 {
        let raw: i64 = if data.len() >= 3 {
            data[0] as i64 + 256 * (data[1] as i64) + 65536 * (data[2] as i64)
        } else {
            0
        };
        MeasurementValue::Scaled { raw, scale }
    } else if dt == 0x04 {
        let raw: i64 = if data.len() >= 4 {
            let v = data[0] as i64 + 256 * (data[1] as i64) + 65536 * (data[2] as i64)
                + 16777216 * (data[3] as i64);
            if v >= 0x8000_0000 { v - 0x1_0000_0000 } else { v }
        } else {
            0
        };
        MeasurementValue::Scaled { raw, scale }
    } else if dt == 0x09 || dt == 0x0A || dt == 0x0B || dt == 0x0C || dt == 0x0E {
        let v = parse_bcd_bytes(data);
        proof {
            lemma_bcd_bound(data@);
            reveal_with_fuel(pow100, 10);
            lemma_pow100_mono(data@.len(), 9);
        }
        MeasurementValue::Scaled { raw: v as i64, scale }
    } else if dt == 0x05 && data.len() >= 4 {
        let bits: u32 = data[0] as u32 + 256 * (data[1] as u32) + 65536 * (data[2] as u32)
            + 16777216 * (data[3] as u32);
        MeasurementValue::Real32 { bits, scale }
    } else {
        MeasurementValue::Scaled { raw: 0, scale }
    }
}

/// Evaluates one record: description, unit and value.
fn evaluate_record(primary_dif: u8, primary_vif: u8, vif_stack: &[u8], data_segment: &[u8]) -> (r: (
    String,
    String,
    MeasurementValue,
))
    requires
        is_bcd_code(primary_dif & 0x0F) ==> data_segment@.len() <= 9,
    ensures
        (r.0@, r.1@, r.2@) == evaluate(primary_dif, primary_vif, vif_stack@, data_segment@),
{
    let base_vif = primary_vif & 0x7F;
    if base_vif == 0x6D && data_segment.len() >= 4 {
        if let Some(dt) = parse_mbus_datetime_f(data_segment) {
            return (string_of("Date and Time"), string_of("ISO8601"), MeasurementValue::Text(dt));
        }
    } else if base_vif == 0x6C && data_segment.len() >= 2 {
        if let Some(date_str) = parse_mbus_date(data_segment) {
            return (string_of("Target Date"), string_of(""), MeasurementValue::Text(date_str));
        }
    }
    let (description, unit, scale) = parse_vif(primary_vif, vif_stack);
    let value = decode_raw_exec(primary_dif, data_segment, scale);
    (description, unit, value)
}

// ---------------------------------------------------------------------------
// Record stream
// ---------------------------------------------------------------------------

/// Index after a DIF/DIFE (or VIF/VIFE) stack starting at `i`: the stack runs
/// up to and including the first byte without the extension bit, or to the
/// end of the input.
pub open spec fn stack_end(raw: Seq<u8>, i: int) -> int
    decreases raw.len() - i,
{
    if i >= raw.len() {
        i
    } else if raw[i] & 0x80u8 == 0 {
        i + 1
    } else {
        stack_end(raw, i + 1)
    }
}

/// First index at or after `i` that does not hold the filler byte `0x2F`.
pub open spec fn skip_fill(raw: Seq<u8>, i: int) -> int
    decreases raw.len() - i,
{
    if i >= raw.len() || raw[i] != 0x2F {
        i
    } else {
        skip_fill(raw, i + 1)
    }
}

/// Where the record stream begins: after leading filler bytes, or after a
/// transport-layer header recognised by its CI field (short header `0x7A`/
/// `0x78`: 5 bytes; long header `0x72`/`0x73`/`0x7E`: 13 bytes), at offset 0
/// or behind a 10-byte link-layer header.
pub open spec fn stream_start(raw: Seq<u8>) -> int {
    if raw.len() >= 2 && raw[0] == 0x2F && raw[1] == 0x2F {
        skip_fill(raw, 0)
    } else if raw.len() >= 4 {
        if raw[0] == 0x78 || raw[0] == 0x7A {
            5
        } else if raw[0] == 0x72 || raw[0] == 0x73 || raw[0] == 0x7E {
            13
        } else if raw.len() >= 12 && (raw[10] == 0x78 || raw[10] == 0x7A) {
            15
        } else if raw.len() >= 12 && (raw[10] == 0x72 || raw[10] == 0x7E) {
            23
        } else {
            0
        }
    } else {
        0
    }
}

/// Length of the data field for a fixed-length DIF data-field code.
pub open spec fn fixed_data_len(dt: u8) -> int {
    if dt == 0x01 || dt == 0x09 {
        1
    } else if dt == 0x02 || dt == 0x0A {
        2
    } else if dt == 0x03 || dt == 0x0B {
        3
    } else if dt == 0x04 || dt == 0x0C || dt == 0x05 {
        4
    } else if dt == 0x06 || dt == 0x0E {
        6
    } else if dt == 0x07 || dt == 0x0F {
        8
    } else {
        0
    }
}

/// The record whose DIF stack is `raw[idx..d_end]`, VIF stack
/// `raw[d_end..v_end]` and data field `raw[ds..ds + dl]`.
pub open spec fn make_record(raw: Seq<u8>, idx: int, d_end: int, v_end: int, ds: int, dl: int) -> MeasurementView {
    let dif = raw[idx];
    let vif = raw[d_end];
    let meta = dif_metadata(raw.subrange(idx, d_end));
    let ev = evaluate(dif, vif, raw.subrange(d_end, v_end), raw.subrange(ds, ds + dl));
    MeasurementView {
        header_raw: hex_upper(raw.subrange(idx, v_end)),
        storage_no: meta.0,
        tariff: meta.1,
        device: meta.2,
        dib: hex_byte_upper(dif),
        vib: hex_byte_upper(vif),
        value: ev.2,
        unit: ev.1,
        description: ev.0,
    }
}

/// Where the next record lies, seen from one position of the stream.
pub enum FrameStep {
    /// A filler byte: continue at the index.
    Skip(int),
    /// End marker, truncated header, or truncated data field.
    Stop,
    /// A record: DIF stack `start..d_end`, VIF stack `d_end..v_end`, data
    /// field `data_start..data_start + data_len`.
    Record { start: int, d_end: int, v_end: int, data_start: int, data_len: int },
}

/// The record framing at index `idx < raw.len()`: `0x2F` is filler,
/// `0x0F`/`0x1F` end the stream; otherwise a DIF/DIFE stack, a VIF/VIFE stack
/// and a data field whose length follows from the DIF data-field code (code
/// `0x0D`: a length byte precedes the data).
pub open spec fn frame_step(raw: Seq<u8>, idx: int) -> FrameStep {
    let dif = raw[idx];
    if dif == 0x2F {
        FrameStep::Skip(idx + 1)
    } else if dif == 0x0F || dif == 0x1F {
        FrameStep::Stop
    } else {
        let d_end = stack_end(raw, idx);
        if d_end >= raw.len() {
            FrameStep::Stop
        } else {
            let v_end = stack_end(raw, d_end);
            let dt = dif & 0x0Fu8;
            let ds = if dt == 0x0D && v_end < raw.len() { v_end + 1 } else { v_end };
            let dl = if dt == 0x0D {
                if v_end < raw.len() { raw[v_end] as int } else { 0 }
            } else {
                fixed_data_len(dt)
            };
            if ds + dl > raw.len() {
                FrameStep::Stop
            } else {
                FrameStep::Record { start: idx, d_end, v_end, data_start: ds, data_len: dl }
            }
        }
    }
}

proof fn lemma_stack_end(raw: Seq<u8>, i: int)
    requires
        0 <= i <= raw.len(),
    ensures
        i <= stack_end(raw, i) <= raw.len(),
        i < raw.len() ==> i < stack_end(raw, i),
    decreases raw.len() - i,
{
    if i < raw.len() && raw[i] & 0x80u8 != 0 {
        lemma_stack_end(raw, i + 1);
    }
}

proof fn lemma_skip_fill(raw: Seq<u8>, i: int)
    requires
        0 <= i <= raw.len(),
    ensures
        i <= skip_fill(raw, i) <= raw.len(),
    decreases raw.len() - i,
{
    if i < raw.len() && raw[i] == 0x2F {
        lemma_skip_fill(raw, i + 1);
    }
}

/// A step never moves backwards and never past the end, and a record's
/// parts are in order.
pub proof fn lemma_step_advances(raw: Seq<u8>, idx: int)
    requires
        0 <= idx < raw.len(),
    ensures
        match frame_step(raw, idx) {
            FrameStep::Skip(n) => idx < n <= raw.len(),
            FrameStep::Record { start, d_end, v_end, data_start, data_len } => start == idx && idx < d_end
                < v_end <= data_start && data_start + data_len <= raw.len() && 0 <= data_len
                && d_end == stack_end(raw, idx) && v_end == stack_end(raw, d_end)
                && idx < data_start + data_len,
            FrameStep::Stop => true,
        },
{
    lemma_stack_end(raw, idx);
    let d_end = stack_end(raw, idx);
    if d_end < raw.len() {
        lemma_stack_end(raw, d_end);
    }
}

/// The records decoded from index `idx` on.
pub open spec fn records_from(raw: Seq<u8>, idx: int) -> Seq<MeasurementView>
    decreases raw.len() - idx,
{
    if idx < 0 || idx >= raw.len() {
        Seq::empty()
    } else {
        proof {
            lemma_step_advances(raw, idx);
        }
        match frame_step(raw, idx) {
            FrameStep::Skip(n) => records_from(raw, n),
            FrameStep::Stop => Seq::empty(),
            FrameStep::Record { start, d_end, v_end, data_start, data_len } =>
                seq![make_record(raw, start, d_end, v_end, data_start, data_len)]
                    + records_from(raw, data_start + data_len),
        }
    }
}

/// All records of an application-layer payload.
pub open spec fn wmbus_records(raw: Seq<u8>) -> Seq<MeasurementView> {
    if raw.len() == 0 {
        Seq::empty()
    } else {
        records_from(raw, stream_start(raw))
    }
}

fn stack_end_exec(raw: &[u8], i: usize) -> (r: usize)
    requires
        i <= raw@.len(),
    ensures
        r == stack_end(raw@, i as int),
{
    let mut j = i;
    while j < raw.len()
        invariant
            i <= j <= raw@.len(),
            stack_end(raw@, i as int) == stack_end(raw@, j as int),
        decreases raw@.len() - j,
    {
        if raw[j] & 0x80 == 0 {
            return j + 1;
        }
        j = j + 1;
    }
    j
}

/// Executable counterpart of [`FrameStep`].
pub(crate) enum Frame {
    Skip(usize),
    Stop,
    Record { start: usize, d_end: usize, v_end: usize, data_start: usize, data_len: usize },
}

/// Whether an executable frame matches the framing model.
pub(crate) open spec fn frame_matches(f: Frame, m: FrameStep) -> bool {
    match (f, m) {
        (Frame::Skip(n), FrameStep::Skip(k)) => n == k,
        (Frame::Stop, FrameStep::Stop) => true,
        (
            Frame::Record { start, d_end, v_end, data_start, data_len },
            FrameStep::Record { start: s, d_end: d, v_end: v, data_start: ds, data_len: dl },
        ) => start == s && d_end == d && v_end == v && data_start == ds && data_len == dl,
        _ => false,
    }
}

/// Frames the record at `idx`.
pub(crate) fn locate_frame(raw: &[u8], idx: usize) -> (r: Frame)
    requires
        idx < raw@.len(),
    ensures
        frame_matches(r, frame_step(raw@, idx as int)),
{
    proof {
        lemma_stack_end(raw@, idx as int);
    }
    let dif = raw[idx];
    if dif == 0x2F {
        return Frame::Skip(idx + 1);
    }
    if dif == 0x0F || dif == 0x1F {
        return Frame::Stop;
    }
    let d_end = stack_end_exec(raw, idx);
    if d_end >= raw.len() {
        return Frame::Stop;
    }
    proof {
        lemma_stack_end(raw@, d_end as int);
    }
    let v_end = stack_end_exec(raw, d_end);
    let data_type = dif & 0x0F;
    let mut ds = v_end;
    let data_len: usize = if data_type == 0x00 {
        0
    } else if data_type == 0x01 || data_type == 0x09 {
        1
    } else if data_type == 0x02 || data_type == 0x0A {
        2
    } else if data_type == 0x03 || data_type == 0x0B {
        3
    } else if data_type == 0x04 || data_type == 0x0C || data_type == 0x05 {
        4
    } else if data_type == 0x06 || data_type == 0x0E {
        6
    } else if data_type == 0x07 || data_type == 0x0F {
        8
    } else if data_type == 0x0D {
        if v_end < raw.len() {
            let len = raw[v_end] as usize;
            ds = v_end + 1;
            len
        } else {
            0
        }
    } else {
        0
    };
    if data_len > raw.len() - ds {
        return Frame::Stop;
    }
    Frame::Record { start: idx, d_end, v_end, data_start: ds, data_len }
}

/// Builds the record framed by the given positions.
fn build_record(raw: &[u8], start: usize, d_end: usize, v_end: usize, ds: usize, dl: usize) -> (r: ParsedMeasurements)
    requires
        start < d_end < v_end <= ds,
        ds + dl <= raw@.len(),
        is_bcd_code(raw@[start as int] & 0x0F) ==> dl <= 6,
    ensures
        r@ == make_record(raw@, start as int, d_end as int, v_end as int, ds as int, dl as int),
{
    let dif = raw[start];
    let primary_vif = raw[d_end];
    let header_raw = hex_encode_upper(&raw[start..v_end]);
    let (storage_no, tariff, device) = parse_dif_dife_metadata(&raw[start..d_end]);
    let (description, unit, value) = evaluate_record(dif, primary_vif, &raw[d_end..v_end], &raw[ds..ds + dl]);
    let mut dib = String::new();
    push_hex_byte_upper(&mut dib, dif);
    let mut vib = String::new();
    push_hex_byte_upper(&mut vib, primary_vif);
    let r = ParsedMeasurements {
        header_raw,
        storage_no,
        tariff,
        device,
        dib,
        vib,
        value,
        unit,
        description,
    };
    proof {
        assert(dib@ =~= hex_byte_upper(dif));
        assert(vib@ =~= hex_byte_upper(primary_vif));
    }
    r
}

/// The data field of a BCD code is at most six bytes long.
pub proof fn lemma_bcd_frame_len(raw: Seq<u8>, idx: int)
    requires
        0 <= idx < raw.len(),
    ensures
        frame_step(raw, idx) matches FrameStep::Record { start, data_len, .. } ==> (is_bcd_code(raw[start] & 0x0Fu8) ==> data_len <= 6),
{
}

/// Where the record stream of `raw_bytes` begins.
pub(crate) fn stream_start_exec(raw_bytes: &[u8]) -> (r: usize)
    ensures
        r == stream_start(raw_bytes@),
{
    let mut idx: usize = 0;
    if raw_bytes.len() >= 2 && raw_bytes[0] == 0x2F && raw_bytes[1] == 0x2F {
        while idx < raw_bytes.len() && raw_bytes[idx] == 0x2F
            invariant
                idx <= raw_bytes@.len(),
                skip_fill(raw_bytes@, 0) == skip_fill(raw_bytes@, idx as int),
            decreases raw_bytes@.len() - idx,
        {
            idx = idx + 1;
        }
    } else if raw_bytes.len() >= 4 {
        let ci = raw_bytes[0];
        if ci == 0x78 || ci == 0x7A {
            idx = 5;
        } else if ci == 0x72 || ci == 0x73 || ci == 0x7E {
            idx = 13;
        } else if raw_bytes.len() >= 12 && (raw_bytes[10] == 0x78 || raw_bytes[10] == 0x7A) {
            idx = 15;
        } else if raw_bytes.len() >= 12 && (raw_bytes[10] == 0x72 || raw_bytes[10] == 0x7E) {
            idx = 23;
        } else {
            idx = 0;
        }
    }
    idx
}

/// Decodes all data records of an application-layer payload. Decoding never
/// fails: it stops at an end marker (`0x0F`/`0x1F`) or at a truncated record.
pub fn parse_wmbus_records(raw_bytes: &[u8]) -> (r: Vec<ParsedMeasurements>)
    ensures
        records_view(r@) == wmbus_records(raw_bytes@),
{
    let mut processed_records: Vec<ParsedMeasurements> = Vec::new();
    if raw_bytes.len() == 0 {
        proof {
            assert(records_view(processed_records@) =~= Seq::<MeasurementView>::empty());
        }
        return processed_records;
    }
    let mut idx: usize = stream_start_exec(raw_bytes);
    proof {
        assert(records_view(processed_records@) =~= Seq::<MeasurementView>::empty());
    }
    while idx < raw_bytes.len()
        invariant
            records_view(processed_records@) + records_from(raw_bytes@, idx as int)
                == wmbus_records(raw_bytes@),
        ensures
            records_view(processed_records@) == wmbus_records(raw_bytes@),
        decreases raw_bytes@.len() - idx,
    {
        proof {
            lemma_step_advances(raw_bytes@, idx as int);
        }
        let ghost before = records_view(processed_records@);
        proof {
            lemma_bcd_frame_len(raw_bytes@, idx as int);
        }
        match locate_frame(raw_bytes, idx) {
            Frame::Skip(n) => {
                idx = n;
            },
            Frame::Stop => {
                proof {
                    assert(records_view(processed_records@) + records_from(raw_bytes@, idx as int)
                        =~= records_view(processed_records@));
                }
                break;
            },
            Frame::Record { start, d_end, v_end, data_start, data_len } => {
                let rec = build_record(raw_bytes, start, d_end, v_end, data_start, data_len);
                let n = data_start + data_len;
                let ghost m = rec@;
                processed_records.push(rec);
                proof {
                    assert(records_view(processed_records@) =~= before.push(m));
                    assert(before + (seq![m] + records_from(raw_bytes@, n as int))
                        =~= before.push(m) + records_from(raw_bytes@, n as int));
                }
                idx = n;
            },
        }
        if idx >= raw_bytes.len() {
            proof {
                assert(records_view(processed_records@) + records_from(raw_bytes@, idx as int)
                    =~= records_view(processed_records@));
            }
        }
    }
    processed_records
}

} // verus!
