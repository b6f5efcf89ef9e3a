//! Properties that hold across the library's functions: decoding what was
//! encoded, what key masking can reveal, the shape of every service answer,
//! filler stripping, driver precedence, and agreement of the two record
//! decoders.
use vstd::prelude::*;
use vstd::utf8::{encode_utf8, is_ascii_chars, is_ascii_chars_encode_utf8};
use crate::crypto::{aes128_cbc_decrypt, aes128_cmac};
use crate::drivers::axioma::{axioma_parse, axioma_supports};
use crate::drivers::diehl::{shows_zero, diehl_adjust, diehl_parse, diehl_supports};
use crate::drivers::standard_oms::standard_parse;
use crate::drivers::meter_x::meter_x_parse;
use crate::encoding::{base64_standard_decode, hex_digit_value};
use crate::legacy::{JsonValueView, legacy_evaluate, le_signed, le_unsigned, lemma_le_bound, legacy_mode7, pow256, oms_records, oms_records_from, valid_plaintext};
use crate::mbus::{FrameStep, frame_step, mbus_date, lemma_step_advances, records_from, skip_fill, stream_start,
    wmbus_records};
use crate::registry::{builtin_dispatch, dispatch, first_supporting};
use crate::security::{EncryptionMode, config_field, lemma_find_mode7_tpl, decrypt_sanitized, find_byte, find_mode7_tpl, mode_from, kdf_input, mode5_iv, mode7_info, sanitized,
    strip_leading_fill, strip_trailing_fill, zero_block};
use crate::service::{first_bad_pair, handle_request, lemma_first_bad_pair, hex_key_decode, hex_pair_bytes, hex_pair_ok, hex_pair_value,
    masked_key};
use crate::text::{dec_padded, hex_digit_lower, hex_digit_upper, hex_lower, hex_upper, lemma_hex_lower_index,
    lemma_hex_upper_index};
use crate::traits::{DllHeaderView, MeasurementView, ParseErrorView, PayloadFields, ProcessResultView, ValueView, MeterDriver, header_of, manufacturer_code_of,
    manufacturer_hex_of};

verus! {

proof fn lemma_hex_digit_ascii(d: int)
    requires
        0 <= d < 16,
    ensures
        hex_digit_upper(d) as int == if d < 10 { 48 + d } else { 55 + d },
        '\0' <= hex_digit_upper(d) <= '\u{7f}',
{
}

proof fn lemma_all_pairs_ok(b: Seq<u8>, p: int)
    requires
        0 <= p,
        forall|k: int| p <= k && 2 * k + 1 < b.len() ==> #[trigger] hex_pair_ok(b[2 * k], b[2 * k + 1]),
    ensures
        first_bad_pair(b, p) is None,
    decreases b.len() - 2 * p,
{
    if 2 * p + 1 < b.len() {
        assert(hex_pair_ok(b[2 * p], b[2 * p + 1]));
        lemma_all_pairs_ok(b, p + 1);
    }
}

proof fn lemma_hex_digit_lower_ascii(d: int)
    requires
        0 <= d < 16,
    ensures
        hex_digit_lower(d) as int == if d < 10 { 48 + d } else { 87 + d },
        '\0' <= hex_digit_lower(d) <= '\u{7f}',
{
}

/// Decoding text whose characters at `2k` and `2k + 1` are digits of the
/// high and low nibble of `key[k]` gives the key back.
proof fn lemma_hex_digits_decode(h: Seq<char>, key: Seq<u8>)
    requires
        h.len() == 2 * key.len(),
        forall|i: int| 0 <= i < h.len() ==> '\0' <= #[trigger] h[i] <= '\u{7f}',
        forall|k: int|
            #![trigger key[k]]
            0 <= k < key.len() ==> hex_digit_value(h[2 * k] as int) == key[k] as int / 16 && hex_digit_value(
                h[2 * k + 1] as int,
            ) == key[k] as int % 16,
    ensures
        hex_key_decode(encode_utf8(h)) == Ok::<Seq<u8>, Seq<char>>(key),
{
    assert(is_ascii_chars(h));
    is_ascii_chars_encode_utf8(h);
    let b = encode_utf8(h);
    assert forall|k: int| 0 <= k && 2 * k + 1 < b.len() implies #[trigger] hex_pair_ok(b[2 * k], b[2 * k + 1])
        && hex_pair_value(b[2 * k], b[2 * k + 1]) == key[k] by {
        assert(key[k] == key[k]);
        assert(h[2 * k] as u8 == b[2 * k]);
        assert(h[2 * k + 1] as u8 == b[2 * k + 1]);
        let c0 = h[2 * k];
        let c1 = h[2 * k + 1];
        assert('\0' <= c0 <= '\u{7f}');
        assert('\0' <= c1 <= '\u{7f}');
        assert(c0 as u8 as int == c0 as int);
        assert(c1 as u8 as int == c1 as int);
        assert(hex_digit_value(b[2 * k] as int) == key[k] as int / 16);
        assert(hex_digit_value(b[2 * k + 1] as int) == key[k] as int % 16);
    }
    lemma_all_pairs_ok(b, 0);
    assert(hex_pair_bytes(b) =~= key);
}

/// Decoding a key written in upper-case hexadecimal gives the key back.
pub proof fn law_hex_key_roundtrip(key: Seq<u8>)
    ensures
        hex_key_decode(encode_utf8(hex_upper(key))) == Ok::<Seq<u8>, Seq<char>>(key),
{
    let h = hex_upper(key);
    lemma_hex_upper_index(key);
    assert forall|i: int| 0 <= i < h.len() implies '\0' <= #[trigger] h[i] <= '\u{7f}' by {
        let j = i / 2;
        assert(key[j] == key[j]);
        let d = if i % 2 == 0 { key[j] as int / 16 } else { key[j] as int % 16 };
        assert(h[i] == hex_digit_upper(d));
        lemma_hex_digit_ascii(d);
    }
    assert forall|k: int|
        #![trigger key[k]]
        0 <= k < key.len() implies hex_digit_value(h[2 * k] as int) == key[k] as int / 16 && hex_digit_value(
            h[2 * k + 1] as int,
        ) == key[k] as int % 16 by {
        lemma_hex_digit_ascii(key[k] as int / 16);
        lemma_hex_digit_ascii(key[k] as int % 16);
    }
    lemma_hex_digits_decode(h, key);
}

/// Decoding a key written in lower-case hexadecimal gives the key back.
pub proof fn law_hex_key_roundtrip_lower(key: Seq<u8>)
    ensures
        hex_key_decode(encode_utf8(hex_lower(key))) == Ok::<Seq<u8>, Seq<char>>(key),
{
    let h = hex_lower(key);
    lemma_hex_lower_index(key);
    assert forall|i: int| 0 <= i < h.len() implies '\0' <= #[trigger] h[i] <= '\u{7f}' by {
        let j = i / 2;
        assert(key[j] == key[j]);
        let d = if i % 2 == 0 { key[j] as int / 16 } else { key[j] as int % 16 };
        assert(h[i] == hex_digit_lower(d));
        lemma_hex_digit_lower_ascii(d);
    }
    assert forall|k: int|
        #![trigger key[k]]
        0 <= k < key.len() implies hex_digit_value(h[2 * k] as int) == key[k] as int / 16 && hex_digit_value(
            h[2 * k + 1] as int,
        ) == key[k] as int % 16 by {
        lemma_hex_digit_lower_ascii(key[k] as int / 16);
        lemma_hex_digit_lower_ascii(key[k] as int % 16);
    }
    lemma_hex_digits_decode(h, key);
}

/// A decoded key has one byte per pair of input bytes, and byte `i` is the
/// value of the pair at `2i`, `2i + 1`, which is a valid pair.
pub proof fn law_hex_key_reads_pairs(b: Seq<u8>)
    ensures
        hex_key_decode(b) matches Ok(v) ==> v.len() == b.len() / 2 && forall|i: int|
            0 <= i < v.len() ==> hex_pair_ok(b[2 * i], b[2 * i + 1]) && #[trigger] v[i] == hex_pair_value(
                b[2 * i],
                b[2 * i + 1],
            ),
{
    if b.len() % 2 == 0 && first_bad_pair(b, 0) is None {
        lemma_first_bad_pair(b, 0);
    }
}

/// Masking never depends on the middle of a key: keys longer than eight
/// bytes that share their first and last four bytes are masked alike, so
/// every byte in between stays hidden; all keys of at most eight bytes are
/// masked alike, so none of their bytes is shown.
pub proof fn law_mask_hides_middle(a: Seq<char>, b: Seq<char>)
    requires
        encode_utf8(a).len() <= 8 && encode_utf8(b).len() <= 8 || (encode_utf8(a).len() > 8
            && encode_utf8(b).len() > 8 && encode_utf8(a).subrange(0, 4) == encode_utf8(b).subrange(0, 4)
            && encode_utf8(a).subrange(encode_utf8(a).len() - 4, encode_utf8(a).len() as int)
            == encode_utf8(b).subrange(encode_utf8(b).len() - 4, encode_utf8(b).len() as int)),
    ensures
        masked_key(Some(a)) == masked_key(Some(b)),
{
}

/// Every answer of the parse service has one shape: status 200 with
/// `success` and data, or status 400 or 422 with `error` and a message.
/// Status 400 comes exactly for a payload that is not Base64 or a key that
/// is not hexadecimal.
pub proof fn law_response_shape(
    drivers: Seq<Box<dyn MeterDriver>>,
    payload: Seq<char>,
    oms_mode: Option<u8>,
    key: Option<Seq<char>>,
)
    ensures
        ({
            let (code, resp) = handle_request(drivers, payload, oms_mode, key);
            &&& code == 200 || code == 400 || code == 422
            &&& (code == 200) == (resp.status == "success"@)
            &&& (code == 200) == resp.data is Some
            &&& (code == 200) == resp.error is None
            &&& (code == 400) == (base64_standard_decode(payload) is Err || (key matches Some(k)
                && hex_key_decode(encode_utf8(k)) is Err))
        }),
{
    reveal_strlit("success");
    reveal_strlit("error");
    assert("success"@ != "error"@) by {
        assert("success"@[0] != "error"@[0]);
    }
}

/// Filler stripping leaves no filler byte at either end.
pub proof fn law_sanitized_has_no_fill(s: Seq<u8>)
    ensures
        sanitized(s).len() > 0 ==> sanitized(s)[0] != 0x2F && sanitized(s).last() != 0x2F,
{
    lemma_strip_leading(s);
    lemma_strip_trailing(strip_leading_fill(s));
}

/// Filler stripping is idempotent.
pub proof fn law_sanitize_idempotent(s: Seq<u8>)
    ensures
        sanitized(sanitized(s)) == sanitized(s),
{
    law_sanitized_has_no_fill(s);
    let t = sanitized(s);
    assert(strip_leading_fill(t) == t);
    assert(strip_trailing_fill(t) == t);
}

proof fn lemma_strip_leading(s: Seq<u8>)
    ensures
        strip_leading_fill(s).len() > 0 ==> strip_leading_fill(s)[0] != 0x2F,
        exists|k: int| 0 <= k <= s.len() && strip_leading_fill(s) == #[trigger] s.subrange(k, s.len() as int),
    decreases s.len(),
{
    if s.len() > 0 && s[0] == 0x2F {
        lemma_strip_leading(s.drop_first());
        let k = choose|k: int| 0 <= k <= s.drop_first().len() && strip_leading_fill(s.drop_first())
            == #[trigger] s.drop_first().subrange(k, s.drop_first().len() as int);
        assert(s.drop_first().subrange(k, s.drop_first().len() as int) =~= s.subrange(k + 1, s.len() as int));
    } else {
        assert(s.subrange(0, s.len() as int) =~= s);
    }
}

proof fn lemma_strip_trailing(s: Seq<u8>)
    requires
        s.len() > 0 ==> s[0] != 0x2F,
    ensures
        strip_trailing_fill(s).len() > 0 ==> strip_trailing_fill(s).last() != 0x2F
            && strip_trailing_fill(s)[0] == s[0],
    decreases s.len(),
{
    if s.len() > 0 && s.last() == 0x2F {
        lemma_strip_trailing(s.drop_last());
    }
}


/// Whatever the mode, a payload that decrypts and sanitizes successfully
/// neither begins nor ends with a filler byte.
pub proof fn law_decrypted_payload_has_no_fill(mode: EncryptionMode, raw: Seq<u8>, header_len: int, key: Option<Seq<u8>>)
    ensures
        decrypt_sanitized(mode, raw, header_len, key) matches Ok(b) ==> (b.len() > 0 ==> b[0] != 0x2F && b.last()
            != 0x2F),
{
    if raw.len() >= header_len {
        let body = raw.subrange(header_len, raw.len() as int);
        law_sanitized_has_no_fill(body);
        match key {
            Some(k) => {
                law_sanitized_has_no_fill(aes128_cbc_decrypt(k, mode5_iv(raw), body));
                if let Ok(info) = mode7_info(raw) {
                    law_sanitized_has_no_fill(aes128_cbc_decrypt(
                        aes128_cmac(k, kdf_input(info.message_counter, info.meter_id)),
                        zero_block(),
                        info.ciphertext,
                    ));
                }
            },
            None => {},
        }
    }
}

proof fn lemma_first_supporting_extend(
    ds: Seq<Box<dyn MeterDriver>>,
    ext: Seq<Box<dyn MeterDriver>>,
    h: DllHeaderView,
    i: int,
)
    requires
        0 <= i <= ds.len(),
        ext.len() == ds.len() + 1,
        forall|k: int| 0 <= k < ds.len() ==> #[trigger] ext[k] == ds[k],
    ensures
        first_supporting(ext, h, i) == match first_supporting(ds, h, i) {
            Some(j) => Some(j),
            None => if ext[ds.len() as int].spec_supports(h) { Some(ds.len() as int) } else { None },
        },
    decreases ds.len() - i,
{
    if i < ds.len() {
        assert(ext[i] == ds[i]);
        lemma_first_supporting_extend(ds, ext, h, i + 1);
    } else {
        assert(first_supporting(ext, h, i + 1) is None);
    }
}

/// Registering a driver never changes how telegrams are routed that an
/// earlier driver already supports: `ext` is `ds` with one more driver at
/// the end, and that driver only takes telegrams that no earlier driver
/// supports and that it supports itself.
pub proof fn law_register_keeps_precedence(
    ds: Seq<Box<dyn MeterDriver>>,
    ext: Seq<Box<dyn MeterDriver>>,
    raw: Seq<u8>,
    oms_mode: Option<u8>,
    key: Option<Seq<u8>>,
)
    requires
        ext.len() == ds.len() + 1,
        forall|k: int| 0 <= k < ds.len() ==> #[trigger] ext[k] == ds[k],
    ensures
        raw.len() < 10 || first_supporting(ds, header_of(raw), 0) is Some || !ext[ds.len() as int].spec_supports(
            header_of(raw),
        ) ==> dispatch(ext, raw, oms_mode, key) == dispatch(ds, raw, oms_mode, key),
        raw.len() >= 10 && first_supporting(ds, header_of(raw), 0) is None && ext[ds.len() as int].spec_supports(
            header_of(raw),
        ) ==> dispatch(ext, raw, oms_mode, key) == ext[ds.len() as int].spec_parse(raw, oms_mode, key),
{
    if raw.len() >= 10 {
        let h = header_of(raw);
        lemma_first_supporting_extend(ds, ext, h, 0);
        if let Some(j) = first_supporting(ds, h, 0) {
            lemma_first_supporting_range(ds, h, 0);
            assert(ext[j] == ds[j]);
        }
    }
}

proof fn lemma_first_supporting_range(ds: Seq<Box<dyn MeterDriver>>, h: DllHeaderView, i: int)
    requires
        0 <= i,
    ensures
        first_supporting(ds, h, i) matches Some(j) ==> i <= j < ds.len(),
    decreases ds.len() - i,
{
    if i < ds.len() && !ds[i].spec_supports(h) {
        lemma_first_supporting_range(ds, h, i + 1);
    }
}


/// The M-field that packs three characters from `@` to `_` as five-bit
/// groups (offset 64, first character in the highest group), little endian,
/// with the unused top bit set or clear.
pub open spec fn packed_m_field(c1: u8, c2: u8, c3: u8, top_bit: bool) -> Seq<u8> {
    let v = (c1 - 64) * 1024 + (c2 - 64) * 32 + (c3 - 64) + if top_bit { 0x8000int } else { 0 };
    seq![(v % 256) as u8, (v / 256) as u8]
}

/// Packing three characters into an M-field and reading the manufacturer
/// code back gives the same three characters, whatever the unused top bit.
pub proof fn law_manufacturer_code_roundtrip(c1: u8, c2: u8, c3: u8, top_bit: bool)
    requires
        64 <= c1 <= 95,
        64 <= c2 <= 95,
        64 <= c3 <= 95,
    ensures
        manufacturer_code_of(packed_m_field(c1, c2, c3, top_bit)) == seq![c1 as char, c2 as char, c3 as char],
{
    let x1 = (c1 - 64) as u16;
    let x2 = (c2 - 64) as u16;
    let x3 = (c3 - 64) as u16;
    let t: u16 = if top_bit { 1 } else { 0 };
    let m = packed_m_field(c1, c2, c3, top_bit);
    let v: u16 = (m[0] as int + 256 * m[1] as int) as u16;
    assert(v == t * 0x8000 + x1 * 1024 + x2 * 32 + x3);
    assert((v >> 10u16) & 0x1Fu16 == x1 && (v >> 5u16) & 0x1Fu16 == x2 && v & 0x1Fu16 == x3) by (bit_vector)
        requires
            x1 < 32,
            x2 < 32,
            x3 < 32,
            t < 2,
            v == t * 0x8000 + x1 * 1024 + x2 * 32 + x3,
    ;
    assert(manufacturer_code_of(m) =~= seq![c1 as char, c2 as char, c3 as char]);
}

/// Every manufacturer code is three characters from `@` to `_`.
pub proof fn law_manufacturer_code_letters(m: Seq<u8>)
    requires
        m.len() == 2,
    ensures
        manufacturer_code_of(m).len() == 3,
        forall|i: int| 0 <= i < 3 ==> '@' <= #[trigger] manufacturer_code_of(m)[i] <= '_',
{
    let v: u16 = (m[0] as int + 256 * m[1] as int) as u16;
    let x1 = (v >> 10u16) & 0x1Fu16;
    let x2 = (v >> 5u16) & 0x1Fu16;
    let x3 = v & 0x1Fu16;
    assert(x1 <= 31 && x2 <= 31 && x3 <= 31) by (bit_vector)
        requires
            x1 == (v >> 10u16) & 0x1Fu16,
            x2 == (v >> 5u16) & 0x1Fu16,
            x3 == v & 0x1Fu16,
    ;
    let c = manufacturer_code_of(m);
    assert(c[0] as int == x1 + 64);
    assert(c[1] as int == x2 + 64);
    assert(c[2] as int == x3 + 64);
}

proof fn lemma_hex_digit_injective(d: int, e: int)
    requires
        0 <= d < 16,
        0 <= e < 16,
        hex_digit_upper(d) == hex_digit_upper(e),
    ensures
        d == e,
{
    lemma_hex_digit_ascii(d);
    lemma_hex_digit_ascii(e);
}

/// The M-field whose hexadecimal notation is `0907` holds the bytes
/// `0x07, 0x09`, whose manufacturer code begins with `B`.
proof fn lemma_field_0907(m: Seq<u8>)
    requires
        m.len() == 2,
        manufacturer_hex_of(m) == "0907"@,
    ensures
        manufacturer_code_of(m)[0] == 'B',
{
    reveal_strlit("0907");
    let h = manufacturer_hex_of(m);
    assert(h[0] == hex_digit_upper(m[1] as int / 16));
    assert(h[1] == hex_digit_upper(m[1] as int % 16));
    assert(h[2] == hex_digit_upper(m[0] as int / 16));
    assert(h[3] == hex_digit_upper(m[0] as int % 16));
    lemma_hex_digit_ascii(0);
    lemma_hex_digit_ascii(9);
    lemma_hex_digit_ascii(7);
    lemma_hex_digit_injective(m[1] as int / 16, 0);
    lemma_hex_digit_injective(m[1] as int % 16, 9);
    lemma_hex_digit_injective(m[0] as int / 16, 0);
    lemma_hex_digit_injective(m[0] as int % 16, 7);
    let v: u16 = (m[0] as int + 256 * m[1] as int) as u16;
    assert(v == 0x0907);
    assert((v >> 10u16) & 0x1Fu16 == 2) by (bit_vector)
        requires
            v == 0x0907,
    ;
}

/// The built-in registry routes by manufacturer code: `AXI` and `ASI` to
/// the Axioma driver, `DME` and `HYD` to the Diehl driver, `MTX` to the
/// `MTX` driver, and every other telegram to the standard OMS driver.
pub proof fn law_builtin_routing(raw: Seq<u8>, oms_mode: Option<u8>, key: Option<Seq<u8>>)
    requires
        raw.len() >= 10,
    ensures
        ({
            let code = manufacturer_code_of(raw.subrange(2, 4));
            &&& code == "AXI"@ || code == "ASI"@ ==> builtin_dispatch(raw, oms_mode, key) == axioma_parse(
                raw,
                oms_mode,
                key,
            )
            &&& code == "DME"@ || code == "HYD"@ ==> builtin_dispatch(raw, oms_mode, key) == diehl_parse(
                raw,
                oms_mode,
                key,
            )
            &&& code == "MTX"@ ==> builtin_dispatch(raw, oms_mode, key) == meter_x_parse(raw, oms_mode, key)
            &&& code != "AXI"@ && code != "ASI"@ && code != "DME"@ && code != "HYD"@ && code != "MTX"@
                && manufacturer_hex_of(raw.subrange(2, 4)) != "0907"@ ==> builtin_dispatch(raw, oms_mode, key)
                == standard_parse(raw, oms_mode, key)
        }),
{
    reveal_strlit("AXI");
    reveal_strlit("ASI");
    reveal_strlit("DME");
    reveal_strlit("HYD");
    reveal_strlit("MTX");
    let h = header_of(raw);
    let code = manufacturer_code_of(h.m_field);
    if manufacturer_hex_of(h.m_field) == "0907"@ {
        lemma_field_0907(h.m_field);
    }
    if code == "DME"@ || code == "HYD"@ || code == "MTX"@ {
        assert(code[0] != 'A' && code[0] != 'B');
        assert(!axioma_supports(h));
    }
    if code == "MTX"@ {
        assert(!diehl_supports(h));
    }
}


proof fn lemma_decoders_agree(raw: Seq<u8>, idx: int, k: nat)
    ensures
        oms_records_from(raw, idx, k).len() == records_from(raw, idx).len(),
        forall|i: int|
            0 <= i < records_from(raw, idx).len() ==> {
                let a = #[trigger] oms_records_from(raw, idx, k)[i];
                let b = records_from(raw, idx)[i];
                &&& a.HeaderRaw == b.header_raw
                &&& a.DIF == "0x"@ + b.dib
                &&& a.VIF == "0x"@ + b.vib
                &&& a.RecordIndex == (k + i) as usize
            },
    decreases raw.len() - idx,
{
    if 0 <= idx < raw.len() {
        lemma_step_advances(raw, idx);
        match frame_step(raw, idx) {
            FrameStep::Skip(n) => {
                lemma_decoders_agree(raw, n, k);
            },
            FrameStep::Stop => {},
            FrameStep::Record { start, d_end, v_end, data_start, data_len } => {
                let n = data_start + data_len;
                lemma_decoders_agree(raw, n, k + 1);
                let rest_a = oms_records_from(raw, n, k + 1);
                let rest_b = records_from(raw, n);
                assert forall|i: int| 0 < i < records_from(raw, idx).len() implies #[trigger] oms_records_from(
                    raw,
                    idx,
                    k,
                )[i] == rest_a[i - 1] && records_from(raw, idx)[i] == rest_b[i - 1] by {}
            },
        }
    }
}

proof fn lemma_headers_start_with_dib(raw: Seq<u8>, idx: int)
    ensures
        forall|i: int|
            0 <= i < records_from(raw, idx).len() ==> {
                let r = #[trigger] records_from(raw, idx)[i];
                r.header_raw.len() >= 4 && r.header_raw.len() % 2 == 0 && r.header_raw.subrange(0, 2) == r.dib
                    && r.dib.len() == 2 && r.vib.len() == 2
            },
    decreases raw.len() - idx,
{
    if 0 <= idx < raw.len() {
        lemma_step_advances(raw, idx);
        match frame_step(raw, idx) {
            FrameStep::Skip(n) => {
                lemma_headers_start_with_dib(raw, n);
            },
            FrameStep::Stop => {},
            FrameStep::Record { start, d_end, v_end, data_start, data_len } => {
                let n = data_start + data_len;
                lemma_headers_start_with_dib(raw, n);
                let hdr = raw.subrange(start, v_end);
                lemma_hex_upper_index(hdr);
                assert(hdr[0] == raw[start]);
                let r0 = records_from(raw, idx)[0];
                assert(r0.header_raw.subrange(0, 2) =~= r0.dib);
                assert forall|i: int| 0 < i < records_from(raw, idx).len() implies #[trigger] records_from(
                    raw,
                    idx,
                )[i] == records_from(raw, n)[i - 1] by {}
            },
        }
    }
}

/// Both record decoders frame a payload alike: the same number of records,
/// with the same raw headers and the same DIF and VIF bytes; the
/// first-generation records are numbered 0, 1, 2, ... in order.
pub proof fn law_decoders_frame_alike(raw: Seq<u8>)
    ensures
        oms_records(raw).len() == wmbus_records(raw).len(),
        forall|i: int|
            0 <= i < wmbus_records(raw).len() ==> {
                let a = #[trigger] oms_records(raw)[i];
                let b = wmbus_records(raw)[i];
                &&& a.HeaderRaw == b.header_raw
                &&& a.DIF == "0x"@ + b.dib
                &&& a.VIF == "0x"@ + b.vib
                &&& a.RecordIndex == i as usize
            },
{
    if raw.len() > 0 {
        lemma_decoders_agree(raw, stream_start(raw), 0);
    }
}

/// Every decoded record, known or not, keeps its raw header (an even number
/// of hexadecimal digits, at least a DIF and a VIF, beginning with the DIF)
/// and its DIF and VIF as two hexadecimal digits each.
pub proof fn law_header_begins_with_dib(raw: Seq<u8>)
    ensures
        forall|i: int|
            0 <= i < wmbus_records(raw).len() ==> {
                let r = #[trigger] wmbus_records(raw)[i];
                r.header_raw.len() >= 4 && r.header_raw.len() % 2 == 0 && r.header_raw.subrange(0, 2) == r.dib
                    && r.dib.len() == 2 && r.vib.len() == 2
            },
{
    if raw.len() > 0 {
        lemma_headers_start_with_dib(raw, stream_start(raw));
    }
}


/// First-generation mode 7 decryption yields plaintext or nothing: its
/// result is empty or begins with two filler bytes or a transport CI field.
pub proof fn law_mode7_plaintext_or_empty(raw: Seq<u8>, master: Seq<u8>)
    ensures
        legacy_mode7(raw, master).len() == 0 || valid_plaintext(legacy_mode7(raw, master)),
{
}

/// Diehl post-processing only relabels a record: its raw header, DIF and
/// VIF notation and its storage, tariff and device numbers stay as decoded.
pub proof fn law_diehl_keeps_record_identity(r: MeasurementView)
    ensures
        diehl_adjust(r).header_raw == r.header_raw,
        diehl_adjust(r).dib == r.dib,
        diehl_adjust(r).vib == r.vib,
        diehl_adjust(r).storage_no == r.storage_no,
        diehl_adjust(r).tariff == r.tariff,
        diehl_adjust(r).device == r.device,
{
}


proof fn lemma_record_count(raw: Seq<u8>, idx: int)
    requires
        0 <= idx,
    ensures
        2 * records_from(raw, idx).len() <= if idx < raw.len() { raw.len() - idx } else { 0 },
    decreases raw.len() - idx,
{
    if idx < raw.len() {
        lemma_step_advances(raw, idx);
        match frame_step(raw, idx) {
            FrameStep::Skip(n) => {
                lemma_record_count(raw, n);
            },
            FrameStep::Stop => {},
            FrameStep::Record { start, d_end, v_end, data_start, data_len } => {
                lemma_record_count(raw, data_start + data_len);
            },
        }
    }
}

/// Decoding always ends with a bounded number of records: every record
/// takes at least a DIF and a VIF byte, so a payload of `n` bytes gives at
/// most `n / 2` records.
pub proof fn law_record_count_bounded(raw: Seq<u8>)
    ensures
        2 * wmbus_records(raw).len() <= raw.len(),
{
    if raw.len() > 0 {
        let s = stream_start(raw);
        assert(0 <= s) by {
            if raw.len() >= 2 && raw[0] == 0x2F && raw[1] == 0x2F {
                lemma_skip_fill_bound(raw, 0);
            }
        }
        lemma_record_count(raw, s);
    }
}

proof fn lemma_skip_fill_bound(raw: Seq<u8>, i: int)
    requires
        0 <= i,
    ensures
        i <= skip_fill(raw, i),
    decreases raw.len() - i,
{
    if i < raw.len() && raw[i] == 0x2F {
        lemma_skip_fill_bound(raw, i + 1);
    }
}

/// The signed reading of at most eight little-endian bytes is the two's
/// complement of the unsigned reading: with `n` the number of bytes read
/// (at most 8), it lies in `-256^n / 2 .. 256^n / 2` and differs from the
/// unsigned value by a multiple of `256^n`.
pub proof fn law_signed_reading(s: Seq<u8>)
    ensures
        ({
            let n: nat = if s.len() <= 8 { s.len() } else { 8 };
            &&& s.len() == 0 ==> le_signed(s) == 0
            &&& s.len() > 0 ==> -(pow256(n) / 2) <= le_signed(s) < pow256(n) / 2
            &&& s.len() > 0 ==> (le_unsigned(s) - le_signed(s)) % (pow256(n) as int) == 0
        }),
{
    if s.len() > 0 {
        let n: nat = if s.len() <= 8 { s.len() } else { 8 };
        let t = if s.len() <= 8 { s } else { s.subrange(0, 8) };
        lemma_le_bound(t);
        assert(t.len() == n);
        assert(pow256(n) == 256 * pow256((n - 1) as nat));
        let p = pow256(n) as int;
        assert(p % 2 == 0);
        if le_unsigned(s) >= p / 2 {
            assert((le_unsigned(s) - le_signed(s)) == p);
            assert(p % p == 0) by (nonlinear_arith) requires p > 0;
        } else {
            assert(0int % p == 0) by (nonlinear_arith) requires p > 0;
        }
    }
}

proof fn lemma_strip_leading_slice(s: Seq<u8>)
    ensures
        exists|k: int|
            0 <= k <= s.len() && strip_leading_fill(s) == s.subrange(k, s.len() as int) && forall|i: int|
                0 <= i < k ==> #[trigger] s[i] == 0x2F,
    decreases s.len(),
{
    if s.len() > 0 && s[0] == 0x2F {
        let t = s.drop_first();
        lemma_strip_leading_slice(t);
        let k = choose|k: int|
            0 <= k <= t.len() && strip_leading_fill(t) == t.subrange(k, t.len() as int) && forall|i: int|
                0 <= i < k ==> #[trigger] t[i] == 0x2F;
        assert(t.subrange(k, t.len() as int) =~= s.subrange(k + 1, s.len() as int));
        assert forall|i: int| 0 <= i < k + 1 implies #[trigger] s[i] == 0x2F by {
            if i > 0 {
                assert(s[i] == t[i - 1]);
            }
        }
    } else {
        assert(s.subrange(0, s.len() as int) =~= s);
    }
}

proof fn lemma_strip_trailing_slice(s: Seq<u8>)
    ensures
        exists|m: int|
            0 <= m <= s.len() && strip_trailing_fill(s) == s.subrange(0, m) && forall|i: int|
                m <= i < s.len() ==> #[trigger] s[i] == 0x2F,
    decreases s.len(),
{
    if s.len() > 0 && s.last() == 0x2F {
        let t = s.drop_last();
        lemma_strip_trailing_slice(t);
        let m = choose|m: int|
            0 <= m <= t.len() && strip_trailing_fill(t) == t.subrange(0, m) && forall|i: int|
                m <= i < t.len() ==> #[trigger] t[i] == 0x2F;
        assert(t.subrange(0, m) =~= s.subrange(0, m));
        assert forall|i: int| m <= i < s.len() implies #[trigger] s[i] == 0x2F by {
            if i < s.len() - 1 {
                assert(s[i] == t[i]);
            }
        }
    } else {
        assert(s.subrange(0, s.len() as int) =~= s);
    }
}

/// Filler stripping keeps exactly the middle of its input: the slice
/// between a run of leading and a run of trailing filler bytes.
pub proof fn law_sanitized_is_middle_slice(s: Seq<u8>)
    ensures
        exists|i: int, j: int|
            0 <= i <= j <= s.len() && sanitized(s) == s.subrange(i, j) && (forall|k: int|
                0 <= k < i ==> #[trigger] s[k] == 0x2F) && (forall|k: int| j <= k < s.len() ==> #[trigger] s[k]
                == 0x2F),
{
    lemma_strip_leading_slice(s);
    let i = choose|k: int|
        0 <= k <= s.len() && strip_leading_fill(s) == s.subrange(k, s.len() as int) && forall|x: int|
            0 <= x < k ==> #[trigger] s[x] == 0x2F;
    let t = strip_leading_fill(s);
    lemma_strip_trailing_slice(t);
    let m = choose|m: int|
        0 <= m <= t.len() && strip_trailing_fill(t) == t.subrange(0, m) && forall|x: int|
            m <= x < t.len() ==> #[trigger] t[x] == 0x2F;
    let j = i + m;
    assert(t.subrange(0, m) =~= s.subrange(i, j));
    assert forall|k: int| j <= k < s.len() implies #[trigger] s[k] == 0x2F by {
        assert(s[k] == t[k - i]);
    }
    assert(sanitized(s) == s.subrange(i, j));
}


/// A type G date field packs day `d` in bits 0..5 of the first byte, the low
/// three bits of the year offset `y` in its bits 5..8, month `m` in the low
/// nibble of the second byte and the high four bits of `y` in its high
/// nibble. Every such field reads back as year `2000 + y`, month `m`, day
/// `d`, each zero-padded.
pub proof fn law_date_type_g_roundtrip(y: nat, m: nat, d: nat)
    requires
        y < 128,
        1 <= m <= 12,
        1 <= d <= 31,
    ensures
        mbus_date(seq![(d + 32 * (y % 8)) as u8, (m + 16 * (y / 8)) as u8]) == Some(
            dec_padded((2000 + y) as nat, 4) + "-"@ + dec_padded(m, 2) + "-"@ + dec_padded(d, 2),
        ),
{
    let b0 = (d + 32 * (y % 8)) as u8;
    let b1 = (m + 16 * (y / 8)) as u8;
    let raw: u16 = (b0 as int + 256 * b1 as int) as u16;
    let dd = d as u16;
    let mm = m as u16;
    let yl = (y % 8) as u16;
    let yh = (y / 8) as u16;
    assert(raw == dd + 32 * yl + 256 * mm + 4096 * yh);
    assert(raw & 0x1Fu16 == dd && (raw >> 8u16) & 0x0Fu16 == mm && ((raw >> 5u16) & 0x07u16) | ((raw >> 9u16)
        & 0x78u16) == yl + 8 * yh && raw != 0xFFFFu16) by (bit_vector)
        requires
            1 <= dd < 32,
            yl < 8,
            1 <= mm <= 12,
            yh < 16,
            raw == dd + 32 * yl + 256 * mm + 4096 * yh,
    ;
    assert(yl + 8 * yh == y);
}

/// Diehl target billing volume: a record whose raw header begins with
/// `4C13` or with `4C933C` is the target volume; a zero reading means it is
/// unset (text `Unset`, no unit), any other reading keeps value and unit.
pub proof fn law_diehl_target_volume(r: MeasurementView)
    requires
        r.header_raw.len() >= 4 && r.header_raw.subrange(0, 4) == "4C13"@ || r.header_raw.len() >= 6
            && r.header_raw.subrange(0, 6) == "4C933C"@,
    ensures
        shows_zero(r.value) ==> diehl_adjust(r).description == "Target Volume (Unset)"@ && diehl_adjust(r).value
            == ValueView::Text("Unset"@) && diehl_adjust(r).unit == ""@,
        !shows_zero(r.value) ==> diehl_adjust(r).description == "Target Volume"@ && diehl_adjust(r).value
            == r.value && diehl_adjust(r).unit == r.unit,
{
    reveal_strlit("4C13");
    reveal_strlit("4C933C");
    reveal_strlit("426C");
    assert(r.header_raw.subrange(0, 4) != "426C"@) by {
        assert(r.header_raw.subrange(0, 4)[1] == 'C');
    }
}

/// In the first-generation decoder, a record whose VIF without the
/// extension bit lies in `0x58..=0x5B` is a flow temperature and one in
/// `0x5C..=0x5F` a return temperature (two different names), both in °C
/// with `10^((vif & 3) - 3)` as the scale and two decimals.
pub proof fn law_legacy_temperature_names(dif: u8, vif: u8, vif_stack: Seq<u8>, data: Seq<u8>)
    requires
        dif & 0x0Fu8 != 0x0D,
        0x58 <= vif & 0x7Fu8 <= 0x5F,
    ensures
        ({
            let e = legacy_evaluate(dif, vif, vif_stack, data);
            &&& vif & 0x7Fu8 <= 0x5B ==> e.0 == "Flow Temperature"@
            &&& vif & 0x7Fu8 >= 0x5C ==> e.0 == "Return Temperature"@
            &&& e.1 == "Temperature"@
            &&& e.2 == "°C"@
            &&& e.3 matches JsonValueView::Rounded { exponent, decimals, .. } && exponent == (vif & 0x03u8) as int
                - 3 && decimals == 2
        }),
        "Flow Temperature"@ != "Return Temperature"@,
{
    reveal_strlit("Flow Temperature");
    reveal_strlit("Return Temperature");
    assert("Flow Temperature"@[0] != "Return Temperature"@[0]);
    assert(vif != 0xFD && vif != 0x7D && (vif & 0x7Fu8) & 0x03u8 == vif & 0x03u8) by (bit_vector)
        requires
            0x58 <= vif & 0x7Fu8 <= 0x5F,
    ;
}

/// With a key, the Axioma driver decodes exactly what the security engine
/// returns for the requested mode behind the 10-byte header, and fails with
/// its error; without a key the payload is read as plaintext.
pub proof fn law_axioma_uses_key_and_mode(raw: Seq<u8>, oms_mode: Option<u8>, key: Option<Seq<u8>>)
    requires
        raw.len() >= 10,
    ensures
        ({
            let mode = if key is Some { mode_from(oms_mode) } else { EncryptionMode::Unencrypted };
            match decrypt_sanitized(mode, raw, 10, key) {
                Err(e) => axioma_parse(raw, oms_mode, key) == Err::<ProcessResultView, ParseErrorView>(e),
                Ok(d) => axioma_parse(raw, oms_mode, key) matches Ok(p) && p.parsed_measurements == wmbus_records(d)
                    && p.payload_fields == PayloadFields::DecryptedLength(d.len() as usize),
            }
        }),
{
}

/// Mode 7 decryption takes the whole four-bit block count `n` of the
/// configuration field (1 to 15): for a telegram with an ELL, an AFL three
/// bytes behind it, a mode 7 short TPL header with KDF A and key id 0, and
/// `16 * n` bytes after that header, decryption succeeds and deciphers
/// exactly those `16 * n` bytes with the derived session key.
pub proof fn law_mode7_uses_all_blocks(raw: Seq<u8>, key: Seq<u8>, ell: int, tpl: int)
    requires
        35 <= raw.len() <= usize::MAX,
        key.len() == 16,
        find_byte(raw, 0x8C, 0) == Some(ell),
        ell + 17 <= raw.len(),
        raw[ell + 3] == 0x90,
        find_mode7_tpl(raw, 0) == Some(tpl),
        (raw[tpl + 5] >> 4u8) & 0x03u8 == 1,
        raw[tpl + 5] & 0x0Fu8 == 0,
        ((config_field(raw, tpl) >> 4u16) & 0x0Fu16) >= 1,
        tpl + 6 + 16 * ((config_field(raw, tpl) >> 4u16) & 0x0Fu16) <= raw.len(),
    ensures
        ({
            let n = ((config_field(raw, tpl) >> 4u16) & 0x0Fu16) as int;
            let ct = raw.subrange(tpl + 6, tpl + 6 + 16 * n);
            &&& mode7_info(raw) matches Ok(info) && info.ciphertext == ct && info.ciphertext.len() == 16 * n
                && info.meter_id == raw.subrange(4, 8) && info.message_counter == raw.subrange(ell + 8, ell + 12)
            &&& decrypt_sanitized(EncryptionMode::Mode7, raw, 10, Some(key)) == Ok::<Seq<u8>, ParseErrorView>(
                sanitized(
                    aes128_cbc_decrypt(
                        aes128_cmac(key, kdf_input(raw.subrange(ell + 8, ell + 12), raw.subrange(4, 8))),
                        zero_block(),
                        ct,
                    ),
                ),
            )
        }),
{
    lemma_find_byte(raw, 0x8C, 0);
    lemma_find_mode7_tpl(raw, 0);
    let n = ((config_field(raw, tpl) >> 4u16) & 0x0Fu16) as int;
    assert(mode7_info(raw) matches Ok(info) && info.ciphertext == raw.subrange(tpl + 6, tpl + 6 + 16 * n));
}

proof fn lemma_find_byte(raw: Seq<u8>, b: u8, i: int)
    ensures
        find_byte(raw, b, i) matches Some(j) ==> i <= j < raw.len() && raw[j] == b,
    decreases raw.len() - i,
{
    if 0 <= i < raw.len() && raw[i] != b {
        lemma_find_byte(raw, b, i + 1);
    }
}

} // verus!
