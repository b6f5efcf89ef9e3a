//! The parse service: request handling for `POST /api/v1/parse` (Base64
//! payload, optional OMS mode, optional hexadecimal key), key masking for
//! audit logs, and the response model.
use vstd::prelude::*;
use vstd::utf8::{decode_utf8, encode_utf8, encode_utf8_decode_utf8, is_char_boundary};
use vstd::string::*;
use crate::encoding::{base64_decode, base64_standard_decode, hex_digit_value};
use crate::registry::{DriverRegistry, dispatch};
use crate::text::{dec_string, push_dec, push_str, string_of};
use crate::traits::{ProcessResult, ProcessResultView, error_message};

verus! {

/// A parse request as received by the service.
#[derive(Debug)]
pub struct ParseRequest {
    pub payload: String,
    pub oms_mode: Option<u8>,
    pub encryptionkey: Option<String>,
}

/// The service's answer: `status` is `success` or `error`.
#[derive(Debug)]
pub struct ParseResponse {
    pub status: String,
    pub data: Option<ProcessResult>,
    pub error: Option<String>,
}

/// Model of a [`ParseResponse`].
pub struct ParseResponseView {
    pub status: Seq<char>,
    pub data: Option<ProcessResultView>,
    pub error: Option<Seq<char>>,
}

impl View for ParseResponse {
    type V = ParseResponseView;

    open spec fn view(&self) -> ParseResponseView {
        ParseResponseView {
            status: self.status@,
            data: match self.data {
                Option::Some(p) => Option::Some(p@),
                Option::None => Option::None,
            },
            error: match self.error {
                Option::Some(e) => Option::Some(e@),
                Option::None => Option::None,
            },
        }
    }
}

// ---------------------------------------------------------------------------
// Hexadecimal keys
// ---------------------------------------------------------------------------

/// Whether a byte is an ASCII hexadecimal digit.
pub open spec fn is_hex_byte(c: u8) -> bool {
    hex_digit_value(c as int) >= 0
}

/// Whether two bytes parse as a base-16 `u8` (an optional `+` followed by
/// digits, as `u8::from_str_radix` accepts).
pub open spec fn hex_pair_ok(b0: u8, b1: u8) -> bool {
    (is_hex_byte(b0) && is_hex_byte(b1)) || (b0 == 0x2B && is_hex_byte(b1))
}

/// The value of a valid pair.
pub open spec fn hex_pair_value(b0: u8, b1: u8) -> u8 {
    if b0 == 0x2B {
        hex_digit_value(b1 as int) as u8
    } else {
        (16 * hex_digit_value(b0 as int) + hex_digit_value(b1 as int)) as u8
    }
}

/// Index of the first invalid pair at or after pair `p`.
pub open spec fn first_bad_pair(b: Seq<u8>, p: int) -> Option<int>
    decreases b.len() - 2 * p,
{
    if p < 0 || 2 * p + 1 >= b.len() {
        Option::None
    } else if !hex_pair_ok(b[2 * p], b[2 * p + 1]) {
        Option::Some(p)
    } else {
        first_bad_pair(b, p + 1)
    }
}

/// The bytes of consecutive valid pairs.
pub open spec fn hex_pair_bytes(b: Seq<u8>) -> Seq<u8> {
    Seq::new(b.len() / 2, |p: int| hex_pair_value(b[2 * p], b[2 * p + 1]))
}

/// Decoding of a hexadecimal key given as UTF-8 bytes.
pub open spec fn hex_key_decode(b: Seq<u8>) -> Result<Seq<u8>, Seq<char>> {
    if b.len() % 2 != 0 {
        Err("Hex string must have an even length"@)
    } else {
        match first_bad_pair(b, 0) {
            Option::Some(_) => Err("invalid digit found in string"@),
            Option::None => Ok(hex_pair_bytes(b)),
        }
    }
}

/// Whether decoding a key never cuts a character in two: the decoder reads
/// the string two bytes at a time until the first invalid pair, and that
/// pair must end on a character boundary.
pub open spec fn hex_key_sliceable(b: Seq<u8>) -> bool {
    b.len() % 2 != 0 || match first_bad_pair(b, 0) {
        Option::Some(p) => is_char_boundary(b, 2 * p + 2),
        Option::None => true,
    }
}

pub(crate) proof fn lemma_first_bad_pair(b: Seq<u8>, p: int)
    requires
        0 <= p,
    ensures
        first_bad_pair(b, p) matches Option::Some(q) ==> p <= q && 2 * q + 1 < b.len() && !hex_pair_ok(b[2 * q], b[2 * q + 1])
            && forall|k: int| p <= k < q ==> #[trigger] hex_pair_ok(b[2 * k], b[2 * k + 1]),
        first_bad_pair(b, p) is None ==> forall|k: int| p <= k && 2 * k + 1 < b.len() ==> #[trigger] hex_pair_ok(b[2 * k], b[2 * k + 1]),
    decreases b.len() - 2 * p,
{
    if 2 * p + 1 < b.len() && hex_pair_ok(b[2 * p], b[2 * p + 1]) {
        lemma_first_bad_pair(b, p + 1);
    }
}

fn hex_digit_exec(c: u8) -> (r: Option<u8>)
    ensures
        match r {
            Option::Some(v) => hex_digit_value(c as int) == v as int && v < 16,
            Option::None => hex_digit_value(c as int) < 0,
        },
{
    if 48 <= c && c <= 57 {
        Some(c - 48)
    } else if 97 <= c && c <= 102 {
        Some(c - 87)
    } else if 65 <= c && c <= 70 {
        Some(c - 55)
    } else {
        None
    }
}

/// Whether [`hex_to_bytes`] can decode `hex` without cutting a character.
pub fn hex_key_is_sliceable(hex: &str) -> (r: bool)
    ensures
        r == hex_key_sliceable(hex.spec_bytes()),
{
    let b = hex.as_bytes();
    if b.len() % 2 != 0 {
        return true;
    }
    let mut p: usize = 0;
    while p < b.len() / 2
        invariant
            b@ == hex.spec_bytes(),
            b@.len() % 2 == 0,
            p <= b@.len() / 2,
            first_bad_pair(b@, 0) == first_bad_pair(b@, p as int),
        decreases b@.len() / 2 - p,
    {
        let ok = match (hex_digit_exec(b[2 * p]), hex_digit_exec(b[2 * p + 1])) {
            (Some(_), Some(_)) => true,
            (None, Some(_)) => b[2 * p] == 0x2B,
            _ => false,
        };
        if !ok {
            return hex.is_char_boundary(2 * p + 2);
        }
        p = p + 1;
    }
    true
}

/// Decodes a hexadecimal key two bytes at a time (each pair as a base-16
/// `u8`, which also accepts a leading `+`).
pub fn hex_to_bytes(hex: &str) -> (r: Result<Vec<u8>, String>)
    requires
        hex_key_sliceable(hex.spec_bytes()),
    ensures
        match (r, hex_key_decode(hex.spec_bytes())) {
            (Ok(v), Ok(w)) => v@ == w,
            (Err(e), Err(m)) => e@ == m,
            _ => false,
        },
{
    let b = hex.as_bytes();
    if b.len() % 2 != 0 {
        return Err(string_of("Hex string must have an even length"));
    }
    let mut out: Vec<u8> = Vec::new();
    let mut p: usize = 0;
    while p < b.len() / 2
        invariant
            b@ == hex.spec_bytes(),
            b@.len() % 2 == 0,
            p <= b@.len() / 2,
            first_bad_pair(b@, 0) == first_bad_pair(b@, p as int),
            out@ == hex_pair_bytes(b@).subrange(0, p as int),
        decreases b@.len() / 2 - p,
    {
        let c0 = b[2 * p];
        let c1 = b[2 * p + 1];
        let v = match (hex_digit_exec(c0), hex_digit_exec(c1)) {
            (Some(h), Some(l)) => h * 16 + l,
            (None, Some(l)) => {
                if c0 == 0x2B {
                    l
                } else {
                    return Err(string_of("invalid digit found in string"));
                }
            },
            _ => {
                return Err(string_of("invalid digit found in string"));
            },
        };
        out.push(v);
        proof {
            assert(out@ =~= hex_pair_bytes(b@).subrange(0, p as int + 1));
        }
        p = p + 1;
    }
    proof {
        lemma_first_bad_pair(b@, p as int);
        assert(out@ =~= hex_pair_bytes(b@));
    }
    Ok(out)
}

// ---------------------------------------------------------------------------
// Audit helpers
// ---------------------------------------------------------------------------

/// The masked form of a key for audit logs: the first and last four bytes
/// around `***` for keys longer than eight bytes (so that at least one byte
/// stays hidden), `***` for keys of at most eight bytes, `NONE` without a
/// key.
pub open spec fn masked_key(key: Option<Seq<char>>) -> Seq<char> {
    match key {
        Option::None => "NONE"@,
        Option::Some(k) => {
            let b = encode_utf8(k);
            if b.len() > 8 {
                decode_utf8(b.subrange(0, 4)) + "***"@ + decode_utf8(b.subrange(b.len() - 4, b.len() as int))
            } else {
                "***"@
            }
        },
    }
}

/// Whether masking a key cuts no character in two.
pub open spec fn mask_sliceable(key: Option<Seq<char>>) -> bool {
    match key {
        Option::None => true,
        Option::Some(k) => {
            let b = encode_utf8(k);
            b.len() > 8 ==> is_char_boundary(b, 4) && is_char_boundary(b, b.len() - 4)
        },
    }
}

/// Model of an optional string.
pub open spec fn opt_text(s: Option<&String>) -> Option<Seq<char>> {
    match s {
        Option::Some(k) => Option::Some(k@),
        Option::None => Option::None,
    }
}

/// Redacts an encryption key for audit logs.
pub fn mask_key(key: Option<&String>) -> (r: String)
    requires
        mask_sliceable(opt_text(key)),
    ensures
        r@ == masked_key(opt_text(key)),
{
    match key {
        Some(k) => {
            let s = k.as_str();
            let n = s.as_bytes().len();
            if n > 8 {
                let (head, _) = s.split_at(4);
                let (_, tail) = s.split_at(n - 4);
                proof {
                    encode_utf8_decode_utf8(head@);
                    encode_utf8_decode_utf8(tail@);
                }
                let mut r = string_of(head);
                push_str(&mut r, "***");
                push_str(&mut r, tail);
                r
            } else {
                string_of("***")
            }
        },
        None => string_of("NONE"),
    }
}

/// The OMS mode for audit logs: its number, or `AUTO` when none was given.
pub open spec fn oms_mode_text(mode: Option<u8>) -> Seq<char> {
    match mode {
        Option::Some(m) => dec_string(m as nat),
        Option::None => "AUTO"@,
    }
}

/// Formats the requested OMS mode for audit logs.
pub fn format_oms_mode(mode: Option<u8>) -> (r: String)
    ensures
        r@ == oms_mode_text(mode),
{
    match mode {
        Some(m) => {
            let mut r = String::new();
            push_dec(&mut r, m as u64);
            r
        },
        None => string_of("AUTO"),
    }
}

// ---------------------------------------------------------------------------
// Request handling
// ---------------------------------------------------------------------------

/// An error response.
pub open spec fn error_response(msg: Seq<char>) -> ParseResponseView {
    ParseResponseView { status: "error"@, data: Option::None, error: Option::Some(msg) }
}

/// The HTTP status and response for a request: 400 for a payload that is not
/// Base64 or a key that is not hexadecimal, 200 with the driver result, or
/// 422 with the processing error's text.
pub open spec fn handle_request(
    drivers: Seq<Box<dyn crate::traits::MeterDriver>>,
    payload: Seq<char>,
    oms_mode: Option<u8>,
    key: Option<Seq<char>>,
) -> (u16, ParseResponseView) {
    match base64_standard_decode(payload) {
        Err(m) => (400, error_response("Invalid base64 payload: "@ + m)),
        Ok(raw) => {
            let key_bytes: Result<Option<Seq<u8>>, Seq<char>> = match key {
                Option::None => Ok(Option::None),
                Option::Some(h) => match hex_key_decode(encode_utf8(h)) {
                    Ok(v) => Ok(Option::Some(v)),
                    Err(m) => Err(m),
                },
            };
            match key_bytes {
                Err(m) => (400, error_response("Invalid encryption key format: "@ + m)),
                Ok(k) => match dispatch(drivers, raw, oms_mode, k) {
                    Ok(p) => (200, ParseResponseView { status: "success"@, data: Option::Some(p), error: Option::None }),
                    Err(e) => (422, error_response(error_message(e))),
                },
            }
        },
    }
}

/// Whether the request's key can be decoded without cutting a character.
pub open spec fn request_key_sliceable(req: &ParseRequest) -> bool {
    match req.encryptionkey {
        Option::Some(h) => hex_key_sliceable(encode_utf8(h@)),
        Option::None => true,
    }
}

/// Model of an optional owned string.
pub open spec fn key_text(s: Option<String>) -> Option<Seq<char>> {
    match s {
        Option::Some(k) => Option::Some(k@),
        Option::None => Option::None,
    }
}

/// Handles a parse request against a driver registry.
pub fn handle_parse_request(registry: &DriverRegistry, req: &ParseRequest) -> (r: (u16, ParseResponse))
    requires
        base64_standard_decode(req.payload@) is Ok ==> request_key_sliceable(req),
    ensures
        (r.0, r.1@) == handle_request(registry.drivers(), req.payload@, req.oms_mode, key_text(req.encryptionkey)),
{
    let raw_payload = match base64_decode(req.payload.as_str()) {
        Ok(bytes) => bytes,
        Err(err) => {
            let mut msg = string_of("Invalid base64 payload: ");
            push_str(&mut msg, err.as_str());
            return (400, ParseResponse { status: string_of("error"), data: None, error: Some(msg) });
        },
    };
    let key_bytes: Option<Vec<u8>> = match &req.encryptionkey {
        Some(hex_str) => match hex_to_bytes(hex_str.as_str()) {
            Ok(bytes) => Some(bytes),
            Err(err) => {
                let mut msg = string_of("Invalid encryption key format: ");
                push_str(&mut msg, err.as_str());
                return (400, ParseResponse { status: string_of("error"), data: None, error: Some(msg) });
            },
        },
        None => None,
    };
    let key_slice: Option<&[u8]> = match &key_bytes {
        Some(v) => Some(v.as_slice()),
        None => None,
    };
    match registry.process(raw_payload.as_slice(), req.oms_mode, key_slice) {
        Ok(result) => (200, ParseResponse { status: string_of("success"), data: Some(result), error: None }),
        Err(err) => (422, ParseResponse { status: string_of("error"), data: None, error: Some(err.message()) }),
    }
}

/// Handles a parse request unless decoding its key would cut a character
/// in two: `None` exactly when the payload is Base64 and the key's first
/// invalid pair of bytes ends inside a character; otherwise the answer of
/// [`handle_parse_request`].
pub fn try_handle_parse_request(registry: &DriverRegistry, req: &ParseRequest) -> (r: Option<(u16, ParseResponse)>)
    ensures
        r is None <==> (base64_standard_decode(req.payload@) is Ok && !request_key_sliceable(req)),
        r matches Some(x) ==> (x.0, x.1@) == handle_request(registry.drivers(), req.payload@, req.oms_mode,
            key_text(req.encryptionkey)),
{
    let sliceable = match &req.encryptionkey {
        Some(k) => hex_key_is_sliceable(k.as_str()),
        None => true,
    };
    if !sliceable {
        if let Ok(_) = base64_decode(req.payload.as_str()) {
            return None;
        }
    }
    Some(handle_parse_request(registry, req))
}

} // verus!
