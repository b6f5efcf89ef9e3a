//! Character-level building blocks: decimal and hexadecimal rendering of
//! integers, and small string helpers, each with an exact specification.
use vstd::prelude::*;
use vstd::string::*;

verus! {

/// The ASCII digit for `d` (`0 <= d < 10`).
pub open spec fn dec_digit(d: int) -> char {
    (48 + d) as char
}

/// Upper-case hexadecimal digit for `d` (`0 <= d < 16`).
pub open spec fn hex_digit_upper(d: int) -> char {
    if d < 10 {
        (48 + d) as char
    } else {
        (55 + d) as char
    }
}

/// Lower-case hexadecimal digit for `d` (`0 <= d < 16`).
pub open spec fn hex_digit_lower(d: int) -> char {
    if d < 10 {
        (48 + d) as char
    } else {
        (87 + d) as char
    }
}

/// Decimal notation of a natural number, without leading zeros.
pub open spec fn dec_string(n: nat) -> Seq<char>
    decreases n,
{
    if n < 10 {
        seq![dec_digit(n as int)]
    } else {
        dec_string(n / 10).push(dec_digit((n % 10) as int))
    }
}

/// Decimal notation of `n`, left-padded with `'0'` to at least `width` characters.
pub open spec fn dec_padded(n: nat, width: nat) -> Seq<char> {
    let d = dec_string(n);
    if d.len() < width {
        Seq::new((width - d.len()) as nat, |i: int| '0') + d
    } else {
        d
    }
}

/// Two upper-case hexadecimal digits of a byte.
pub open spec fn hex_byte_upper(b: u8) -> Seq<char> {
    seq![hex_digit_upper(b as int / 16), hex_digit_upper(b as int % 16)]
}

/// Two lower-case hexadecimal digits of a byte.
pub open spec fn hex_byte_lower(b: u8) -> Seq<char> {
    seq![hex_digit_lower(b as int / 16), hex_digit_lower(b as int % 16)]
}

/// Upper-case hexadecimal notation of a byte sequence, two digits per byte.
pub open spec fn hex_upper(bs: Seq<u8>) -> Seq<char>
    decreases bs.len(),
{
    if bs.len() == 0 {
        Seq::empty()
    } else {
        hex_upper(bs.drop_last()) + hex_byte_upper(bs.last())
    }
}

/// Lower-case hexadecimal notation of a byte sequence, two digits per byte.
pub open spec fn hex_lower(bs: Seq<u8>) -> Seq<char>
    decreases bs.len(),
{
    if bs.len() == 0 {
        Seq::empty()
    } else {
        hex_lower(bs.drop_last()) + hex_byte_lower(bs.last())
    }
}

/// The lower-case notation has two digits per byte: the high nibble's
/// digit, then the low nibble's.
pub proof fn lemma_hex_lower_index(bs: Seq<u8>)
    ensures
        hex_lower(bs).len() == 2 * bs.len(),
        forall|j: int|
            #![trigger bs[j]]
            0 <= j < bs.len() ==> hex_lower(bs)[2 * j] == hex_digit_lower(bs[j] as int / 16)
                && hex_lower(bs)[2 * j + 1] == hex_digit_lower(bs[j] as int % 16),
    decreases bs.len(),
{
    if bs.len() > 0 {
        let init = bs.drop_last();
        lemma_hex_lower_index(init);
        assert forall|j: int|
            #![trigger bs[j]]
            0 <= j < bs.len() implies hex_lower(bs)[2 * j] == hex_digit_lower(bs[j] as int / 16)
                && hex_lower(bs)[2 * j + 1] == hex_digit_lower(bs[j] as int % 16) by {
            if j < bs.len() - 1 {
                assert(init[j] == bs[j]);
            }
        }
    }
}

/// The notation has two digits per byte: the high nibble's digit, then the
/// low nibble's.
pub proof fn lemma_hex_upper_index(bs: Seq<u8>)
    ensures
        hex_upper(bs).len() == 2 * bs.len(),
        forall|j: int|
            #![trigger bs[j]]
            0 <= j < bs.len() ==> hex_upper(bs)[2 * j] == hex_digit_upper(bs[j] as int / 16)
                && hex_upper(bs)[2 * j + 1] == hex_digit_upper(bs[j] as int % 16),
    decreases bs.len(),
{
    if bs.len() > 0 {
        let init = bs.drop_last();
        lemma_hex_upper_index(init);
        assert forall|j: int|
            #![trigger bs[j]]
            0 <= j < bs.len() implies hex_upper(bs)[2 * j] == hex_digit_upper(bs[j] as int / 16)
                && hex_upper(bs)[2 * j + 1] == hex_digit_upper(bs[j] as int % 16) by {
            if j < bs.len() - 1 {
                assert(init[j] == bs[j]);
            }
        }
    }
}

/// Appends one character to a string (`String::push`).
#[verifier::external_body]
pub fn push_char(s: &mut String, c: char)
    ensures
        final(s)@ == old(s)@.push(c),
{
    s.push(c);
}

/// Appends the decimal digit `d`.
pub fn push_dec_digit(s: &mut String, d: u8)
    requires
        d < 10,
    ensures
        final(s)@ == old(s)@.push(dec_digit(d as int)),
{
    push_char(s, (48u8 + d) as char);
}

/// Appends one hexadecimal digit.
pub fn push_hex_digit(s: &mut String, d: u8, upper: bool)
    requires
        d < 16,
    ensures
        upper ==> final(s)@ == old(s)@.push(hex_digit_upper(d as int)),
        !upper ==> final(s)@ == old(s)@.push(hex_digit_lower(d as int)),
{
    if d < 10 {
        push_char(s, (48u8 + d) as char);
    } else if upper {
        push_char(s, (55u8 + d) as char);
    } else {
        push_char(s, (87u8 + d) as char);
    }
}

/// Appends the decimal notation of `n`.
pub fn push_dec(s: &mut String, n: u64)
    ensures
        final(s)@ == old(s)@ + dec_string(n as nat),
    decreases n,
{
    if n >= 10 {
        push_dec(s, n / 10);
    }
    push_dec_digit(s, (n % 10) as u8);
    proof {
        assert(n < 10 ==> (n % 10) == n);
    }
}

/// Number of decimal digits of `n`.
pub fn dec_len(n: u64) -> (r: usize)
    ensures
        r == dec_string(n as nat).len(),
    decreases n,
{
    if n < 10 {
        1
    } else {
        let k = dec_len(n / 10);
        proof { lemma_dec_len_bound((n / 10) as nat); }
        k + 1
    }
}

/// `10^k`.
pub open spec fn pow10(k: nat) -> nat
    decreases k,
{
    if k == 0 {
        1
    } else {
        10 * pow10((k - 1) as nat)
    }
}

/// A number below `10^k` has at most `k` decimal digits.
pub proof fn lemma_dec_len_le(n: nat, k: nat)
    requires
        k >= 1,
        n < pow10(k),
    ensures
        1 <= dec_string(n).len() <= k,
    decreases n,
{
    if n >= 10 {
        assert(k >= 2) by {
            if k == 1 {
                assert(pow10(1) == 10 * pow10(0));
            }
        }
        assert(n / 10 < pow10((k - 1) as nat));
        lemma_dec_len_le(n / 10, (k - 1) as nat);
    }
}

/// Decimal notation of a 64-bit value has between one and twenty digits.
pub proof fn lemma_dec_len_bound(n: nat)
    requires
        n <= u64::MAX,
    ensures
        dec_string(n).len() <= 20,
        dec_string(n).len() >= 1,
{
    reveal_with_fuel(pow10, 21);
    lemma_dec_len_le(n, 20);
}

/// Appends `n` in decimal, left-padded with zeros to `width` characters.
pub fn push_dec_padded(s: &mut String, n: u64, width: usize)
    ensures
        final(s)@ == old(s)@ + dec_padded(n as nat, width as nat),
{
    let len = dec_len(n);
    let ghost start = s@;
    if len < width {
        let mut i: usize = 0;
        while i < width - len
            invariant
                len < width,
                i <= width - len,
                s@ == start + Seq::new(i as nat, |k: int| '0'),
            decreases width - len - i,
        {
            push_char(s, '0');
            i = i + 1;
            proof {
                assert(s@ =~= start + Seq::new(i as nat, |k: int| '0'));
            }
        }
    }
    push_dec(s, n);
    proof {
        if len < width {
            assert(s@ =~= start + dec_padded(n as nat, width as nat));
        } else {
            assert(s@ =~= start + dec_padded(n as nat, width as nat));
        }
    }
}

/// Appends two upper-case hexadecimal digits of `b`.
pub fn push_hex_byte_upper(s: &mut String, b: u8)
    ensures
        final(s)@ == old(s)@ + hex_byte_upper(b),
{
    let ghost start = s@;
    push_hex_digit(s, b / 16, true);
    push_hex_digit(s, b % 16, true);
    proof {
        assert(s@ =~= start + hex_byte_upper(b));
    }
}

/// Appends two lower-case hexadecimal digits of `b`.
pub fn push_hex_byte_lower(s: &mut String, b: u8)
    ensures
        final(s)@ == old(s)@ + hex_byte_lower(b),
{
    let ghost start = s@;
    push_hex_digit(s, b / 16, false);
    push_hex_digit(s, b % 16, false);
    proof {
        assert(s@ =~= start + hex_byte_lower(b));
    }
}

/// Upper-case hexadecimal notation of `bytes`.
pub fn hex_encode_upper(bytes: &[u8]) -> (r: String)
    ensures
        r@ == hex_upper(bytes@),
{
    let mut r = String::new();
    let mut i: usize = 0;
    while i < bytes.len()
        invariant
            i <= bytes@.len(),
            r@ == hex_upper(bytes@.subrange(0, i as int)),
        decreases bytes@.len() - i,
    {
        push_hex_byte_upper(&mut r, bytes[i]);
        proof {
            let pre = bytes@.subrange(0, i as int + 1);
            assert(pre.drop_last() =~= bytes@.subrange(0, i as int));
        }
        i = i + 1;
    }
    proof {
        assert(bytes@.subrange(0, bytes@.len() as int) =~= bytes@);
    }
    r
}

/// A string holding the characters of `lit`.
pub fn string_of(lit: &str) -> (r: String)
    ensures
        r@ == lit@,
{
    String::from_str(lit)
}

/// Appends the characters of `lit`.
pub fn push_str(s: &mut String, lit: &str)
    ensures
        final(s)@ == old(s)@ + lit@,
{
    s.append(lit);
}

/// Whether `s` begins with the characters of `prefix`.
pub fn starts_with(s: &String, prefix: &str) -> (r: bool)
    ensures
        r == (prefix@.len() <= s@.len() && s@.subrange(0, prefix@.len() as int) == prefix@),
{
    let n = prefix.unicode_len();
    let m = s.as_str().unicode_len();
    if n > m {
        return false;
    }
    let mut i: usize = 0;
    while i < n
        invariant
            n == prefix@.len(),
            m == s@.len(),
            n <= m,
            i <= n,
            forall|k: int| 0 <= k < i ==> s@[k] == prefix@[k],
        decreases n - i,
    {
        if s.as_str().get_char(i) != prefix.get_char(i) {
            assert(s@.subrange(0, n as int)[i as int] != prefix@[i as int]);
            return false;
        }
        i = i + 1;
    }
    assert(s@.subrange(0, n as int) =~= prefix@);
    true
}

} // verus!
