//! Text codecs: Base64 (`base64` crate), hexadecimal (`hex` crate) and
//! calendar dates (`chrono`), called through trusted functions, and a
//! verified blank-string test.
use vstd::prelude::*;
use base64::Engine;
use chrono::NaiveDate;
use crate::text::dec_padded;

verus! {

/// The outcome of decoding `input` with the standard Base64 alphabet and
/// padding (`base64::engine::general_purpose::STANDARD`): the bytes, or the
/// text of the decode error.
pub uninterp spec fn base64_standard_decode(input: Seq<char>) -> Result<Seq<u8>, Seq<char>>;

/// Decodes standard Base64 (`Engine::decode` of `general_purpose::STANDARD`).
///
/// Trusted: the result, and the `Display` text of the error, are the named
/// outcome for the input. Which inputs are accepted is left to the name.
#[verifier::external_body]
pub(crate) fn base64_decode(input: &str) -> (r: Result<Vec<u8>, String>)
    ensures
        match (r, base64_standard_decode(input@)) {
            (Ok(v), Ok(w)) => v@ == w,
            (Err(e), Err(m)) => e@ == m,
            _ => false,
        },
{
    match base64::engine::general_purpose::STANDARD.decode(input) {
        Ok(v) => Ok(v),
        Err(e) => Err(e.to_string()),
    }
}

/// The value of a hexadecimal digit (either case), or -1.
pub open spec fn hex_digit_value(c: int) -> int {
    if 48 <= c <= 57 {
        c - 48
    } else if 97 <= c <= 102 {
        c - 87
    } else if 65 <= c <= 70 {
        c - 55
    } else {
        -1
    }
}

/// Whether a character is a hexadecimal digit.
pub open spec fn is_hex_char(c: char) -> bool {
    hex_digit_value(c as int) >= 0
}

/// The outcome of `hex::decode` on a string: the decoded bytes, or the text
/// of the `FromHexError`.
pub uninterp spec fn hex_crate_decode(input: Seq<char>) -> Result<Seq<u8>, Seq<char>>;

/// Bytes given by consecutive pairs of hexadecimal digits.
pub open spec fn hex_pairs(s: Seq<char>) -> Seq<u8> {
    Seq::new(
        s.len() / 2,
        |p: int| (16 * hex_digit_value(s[2 * p] as int) + hex_digit_value(s[2 * p + 1] as int)) as u8,
    )
}

/// Decodes a hexadecimal string with the `hex` crate (`hex::decode`).
///
/// Trusted: the result is the named outcome. As the crate's source shows
/// (`FromHex for Vec<u8>`), decoding succeeds exactly for an even number of
/// hexadecimal digits of either case, and yields one byte per pair, high
/// digit first. The error text is left to the name.
#[verifier::external_body]
pub(crate) fn hex_decode(input: &str) -> (r: Result<Vec<u8>, String>)
    ensures
        match (r, hex_crate_decode(input@)) {
            (Ok(v), Ok(w)) => v@ == w,
            (Err(e), Err(m)) => e@ == m,
            _ => false,
        },
        r is Ok <==> input@.len() % 2 == 0 && forall|i: int| 0 <= i < input@.len() ==> #[trigger] is_hex_char(input@[i]),
        r matches Ok(v) ==> v@ == hex_pairs(input@),
{
    match hex::decode(input) {
        Ok(v) => Ok(v),
        Err(e) => Err(e.to_string()),
    }
}

/// Whether a character has the Unicode `White_Space` property, which is
/// what `char::is_whitespace` and `str::trim` go by.
pub open spec fn is_white_space(c: char) -> bool {
    let u = c as u32;
    ||| 0x09 <= u <= 0x0D
    ||| u == 0x20
    ||| u == 0x85
    ||| u == 0xA0
    ||| u == 0x1680
    ||| 0x2000 <= u <= 0x200A
    ||| u == 0x2028
    ||| u == 0x2029
    ||| u == 0x202F
    ||| u == 0x205F
    ||| u == 0x3000
}

/// Whether `s.trim()` is empty: every character is white space.
pub open spec fn trims_to_empty(s: Seq<char>) -> bool {
    forall|i: int| 0 <= i < s.len() ==> #[trigger] is_white_space(s[i])
}

/// Whether a string is empty after trimming white space at both ends.
pub(crate) fn is_blank(s: &str) -> (r: bool)
    ensures
        r == trims_to_empty(s@),
{
    let n = s.unicode_len();
    let mut i: usize = 0;
    while i < n
        invariant
            n == s@.len(),
            i <= n,
            forall|k: int| 0 <= k < i ==> #[trigger] is_white_space(s@[k]),
        decreases n - i,
    {
        let c = s.get_char(i);
        let u = c as u32;
        let white = (0x09 <= u && u <= 0x0D) || u == 0x20 || u == 0x85 || u == 0xA0 || u == 0x1680
            || (0x2000 <= u && u <= 0x200A) || u == 0x2028 || u == 0x2029 || u == 0x202F || u == 0x205F
            || u == 0x3000;
        if !white {
            assert(!is_white_space(s@[i as int]));
            return false;
        }
        i = i + 1;
    }
    true
}

/// Gregorian leap year.
pub open spec fn is_leap_year(y: int) -> bool {
    (y % 4 == 0 && y % 100 != 0) || y % 400 == 0
}

/// Number of days of month `m` in year `y`.
pub open spec fn days_in_month(y: int, m: int) -> int {
    if m == 2 {
        if is_leap_year(y) {
            29
        } else {
            28
        }
    } else if m == 4 || m == 6 || m == 9 || m == 11 {
        30
    } else {
        31
    }
}

/// Whether year, month and day name an existing calendar day.
pub open spec fn is_civil_date(y: int, m: int, d: int) -> bool {
    1 <= m <= 12 && 1 <= d <= days_in_month(y, m)
}

/// `"YYYY-MM-DD hh:mm:00"`.
pub open spec fn datetime_text(year: nat, month: nat, day: nat, hour: nat, minute: nat) -> Seq<char> {
    dec_padded(year, 4) + "-"@ + dec_padded(month, 2) + "-"@ + dec_padded(day, 2) + " "@
        + dec_padded(hour, 2) + ":"@ + dec_padded(minute, 2) + ":00"@
}

/// Builds a calendar date and time with `chrono` (`NaiveDate::from_ymd_opt`,
/// `and_hms_opt` with zero seconds) and formats it as `%Y-%m-%d %H:%M:%S`.
///
/// Trusted: as chrono documents, the date exists exactly for a valid
/// Gregorian calendar day (years 0..=9999 are in range), the time exactly for
/// an hour below 24 and a minute below 60; `%Y` is the zero-padded
/// four-digit year and the other fields are zero-padded to two digits.
#[verifier::external_body]
pub(crate) fn civil_datetime_text(year: i32, month: u32, day: u32, hour: u32, minute: u32) -> (r: Option<String>)
    requires
        0 <= year <= 9999,
    ensures
        match r {
            Some(s) => is_civil_date(year as int, month as int, day as int) && hour < 24 && minute < 60
                && s@ == datetime_text(year as nat, month as nat, day as nat, hour as nat, minute as nat),
            None => !(is_civil_date(year as int, month as int, day as int) && hour < 24 && minute < 60),
        },
{
    match NaiveDate::from_ymd_opt(year, month, day) {
        Some(date) => match date.and_hms_opt(hour, minute, 0) {
            Some(dt) => Some(dt.format("%Y-%m-%d %H:%M:%S").to_string()),
            None => None,
        },
        None => None,
    }
}

} // verus!
