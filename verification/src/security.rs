//! Transport-layer security: OMS security mode 5 (AES-128-CBC with an IV
//! from the link-layer address) and mode 7 (AES-128-CBC with a session key
//! derived by AES-CMAC, KDF A), followed by removal of `0x2F` filler bytes.
use vstd::prelude::*;
use vstd::slice::slice_to_vec;
use crate::crypto::{aes128_cbc_decrypt, aes128_cmac, cbc_decrypt_no_padding, cmac_aes128};
use crate::text::{dec_string, hex_byte_upper, push_dec, push_hex_byte_upper, push_str, string_of};
use crate::traits::{ParseError, ParseErrorView, key_view};

verus! {

/// The security mode requested for a telegram.
#[derive(Debug, Clone, Copy, PartialEq, Eq, Structural)]
pub enum EncryptionMode {
    Unencrypted,
    Mode5,
    Mode7,
}

/// The mode selected by an OMS mode number: 5 and 7 are the supported
/// modes; anything else, or no number, means no encryption.
pub open spec fn mode_from(val: Option<u8>) -> EncryptionMode {
    match val {
        Option::Some(m) => if m == 5 {
            EncryptionMode::Mode5
        } else if m == 7 {
            EncryptionMode::Mode7
        } else {
            EncryptionMode::Unencrypted
        },
        Option::None => EncryptionMode::Unencrypted,
    }
}

impl From<Option<u8>> for EncryptionMode {
    fn from(val: Option<u8>) -> (r: Self) {
        match val {
            Some(5) => EncryptionMode::Mode5,
            Some(7) => EncryptionMode::Mode7,
            _ => EncryptionMode::Unencrypted,
        }
    }
}

impl vstd::std_specs::convert::FromSpecImpl<Option<u8>> for EncryptionMode {
    open spec fn obeys_from_spec() -> bool {
        true
    }

    open spec fn from_spec(val: Option<u8>) -> EncryptionMode {
        mode_from(val)
    }
}

/// `s` without leading `0x2F` filler bytes.
pub open spec fn strip_leading_fill(s: Seq<u8>) -> Seq<u8>
    decreases s.len(),
{
    if s.len() > 0 && s[0] == 0x2F {
        strip_leading_fill(s.drop_first())
    } else {
        s
    }
}

/// `s` without trailing `0x2F` filler bytes.
pub open spec fn strip_trailing_fill(s: Seq<u8>) -> Seq<u8>
    decreases s.len(),
{
    if s.len() > 0 && s.last() == 0x2F {
        strip_trailing_fill(s.drop_last())
    } else {
        s
    }
}

/// `s` without `0x2F` filler bytes at either end.
pub open spec fn sanitized(s: Seq<u8>) -> Seq<u8> {
    strip_trailing_fill(strip_leading_fill(s))
}

/// The error for a key that is not sixteen bytes long.
pub open spec fn key_length_error(len: nat) -> ParseErrorView {
    ParseErrorView::DecryptionError(
        "Invalid key length: expected 16 bytes, got "@ + dec_string(len),
    )
}

/// Model of the mode 7 security information found in a telegram.
pub struct Mode7Info {
    pub meter_id: Seq<u8>,
    pub message_counter: Seq<u8>,
    pub ciphertext: Seq<u8>,
}

/// First index at or after `i` holding byte `b`.
pub open spec fn find_byte(raw: Seq<u8>, b: u8, i: int) -> Option<int>
    decreases raw.len() - i,
{
    if i < 0 || i >= raw.len() {
        Option::None
    } else if raw[i] == b {
        Option::Some(i)
    } else {
        find_byte(raw, b, i + 1)
    }
}

/// The configuration field of a short transport header at `i` (bytes
/// `i + 3`, `i + 4`, little endian).
pub open spec fn config_field(raw: Seq<u8>, i: int) -> u16 {
    (raw[i + 3] as int + 256 * raw[i + 4] as int) as u16
}

/// The security mode number in a configuration field.
pub open spec fn config_mode(cf: u16) -> u8 {
    ((cf >> 8u16) & 0x1Fu16) as u8
}

/// First index `j >= i` with `j + 5 < raw.len()` that holds the short
/// transport-layer CI `0x7A` with security mode 7 in its configuration field.
pub open spec fn find_mode7_tpl(raw: Seq<u8>, i: int) -> Option<int>
    decreases raw.len() - i,
{
    if i < 0 || i + 5 >= raw.len() {
        Option::None
    } else if raw[i] == 0x7A && config_mode(config_field(raw, i)) == 7 {
        Option::Some(i)
    } else {
        find_mode7_tpl(raw, i + 1)
    }
}

pub(crate) proof fn lemma_find_mode7_tpl(raw: Seq<u8>, i: int)
    ensures
        find_mode7_tpl(raw, i) matches Option::Some(t) ==> i <= t && t + 5 < raw.len() && raw[t] == 0x7A
            && config_mode(config_field(raw, t)) == 7,
    decreases raw.len() - i,
{
    if i >= 0 && i + 5 < raw.len() && !(raw[i] == 0x7A && config_mode(config_field(raw, i)) == 7) {
        lemma_find_mode7_tpl(raw, i + 1);
    }
}

/// Decryption error with the given text.
pub open spec fn dec_err(s: Seq<char>) -> ParseErrorView {
    ParseErrorView::DecryptionError(s)
}

/// Locates meter id, message counter and ciphertext of a mode 7 telegram:
/// the meter id is bytes 4..8; the extended link layer starts at the first
/// `0x8C`; the authentication and fragmentation layer (CI `0x90`) follows
/// three bytes later and holds the message counter at offsets 5..9; the
/// ciphertext follows the first short transport header announcing mode 7 and
/// spans the number of 16-byte blocks given in its configuration field.
pub open spec fn mode7_info(raw: Seq<u8>) -> Result<Mode7Info, ParseErrorView> {
    if raw.len() < 35 {
        Err(dec_err("Mode 7 telegram is too short"@))
    } else {
        match find_byte(raw, 0x8C, 0) {
            Option::None => Err(dec_err("Mode 7 ELL header (0x8C) not found"@)),
            Option::Some(ell) => {
                let afl = ell + 3;
                if raw.len() < ell + 3 {
                    Err(dec_err("Incomplete ELL header"@))
                } else if raw.len() < afl + 14 {
                    Err(dec_err("Incomplete AFL header"@))
                } else if raw[afl] != 0x90 {
                    Err(dec_err("Expected AFL CI 0x90, found 0x"@ + hex_byte_upper(raw[afl])))
                } else {
                    match find_mode7_tpl(raw, 0) {
                        Option::None => Err(dec_err("Mode 7 short TPL header (CI 0x7A) not found"@)),
                        Option::Some(tpl) => {
                            let cf = config_field(raw, tpl);
                            let cfe = raw[tpl + 5];
                            let key_id = cfe & 0x0Fu8;
                            let kdf = (cfe >> 4u8) & 0x03u8;
                            let blocks = ((cf >> 4u16) & 0x0Fu16) as int;
                            let start = tpl + 6;
                            let end = start + blocks * 16;
                            if kdf != 1 {
                                Err(dec_err("Unsupported Mode 7 KDF selection: "@ + dec_string(kdf as nat)
                                    + " (CFE=0x"@ + hex_byte_upper(cfe) + ")"@))
                            } else if key_id != 0 {
                                Err(dec_err("Unsupported Mode 7 Key ID: "@ + dec_string(key_id as nat)
                                    + " (CFE=0x"@ + hex_byte_upper(cfe) + ")"@))
                            } else if blocks == 0 {
                                Err(dec_err("Mode 7 configuration specifies zero encrypted blocks"@))
                            } else if end > usize::MAX {
                                Err(dec_err("Mode 7 encrypted length overflow"@))
                            } else if raw.len() < end {
                                Err(dec_err("Telegram contains only "@ + dec_string((raw.len() - start) as nat)
                                    + " bytes after TPL, but Mode 7 requires "@
                                    + dec_string((blocks * 16) as nat) + " encrypted bytes"@))
                            } else {
                                Ok(Mode7Info {
                                    meter_id: raw.subrange(4, 8),
                                    message_counter: raw.subrange(afl + 5, afl + 9),
                                    ciphertext: raw.subrange(start, end),
                                })
                            }
                        },
                    }
                }
            },
        }
    }
}

/// KDF A input block for the meter-to-collector encryption key:
/// `00 || counter || meter id || 07 07 07 07 07 07 07`.
pub open spec fn kdf_input(message_counter: Seq<u8>, meter_id: Seq<u8>) -> Seq<u8> {
    seq![0x00u8] + message_counter + meter_id + Seq::new(7, |i: int| 0x07u8)
}

/// The mode 7 session key derived from a persistent key.
pub open spec fn mode7_kenc(persistent_key: Seq<u8>, message_counter: Seq<u8>, meter_id: Seq<u8>) -> Result<Seq<u8>, ParseErrorView> {
    if persistent_key.len() != 16 {
        Err(key_length_error(persistent_key.len()))
    } else {
        Ok(aes128_cmac(persistent_key, kdf_input(message_counter, meter_id)))
    }
}

/// The mode 5 initialisation vector: link-layer bytes 2..10 (M-field and
/// address) twice, or sixteen zero bytes for a payload shorter than ten bytes.
pub open spec fn mode5_iv(raw: Seq<u8>) -> Seq<u8> {
    if raw.len() >= 10 {
        raw.subrange(2, 10) + raw.subrange(2, 10)
    } else {
        Seq::new(16, |i: int| 0u8)
    }
}

/// Sixteen zero bytes.
pub open spec fn zero_block() -> Seq<u8> {
    Seq::new(16, |i: int| 0u8)
}

/// The sanitized application payload behind the first `header_len` bytes,
/// decrypted according to `mode`.
pub open spec fn decrypt_sanitized(mode: EncryptionMode, raw: Seq<u8>, header_len: int, key: Option<Seq<u8>>) -> Result<Seq<u8>, ParseErrorView> {
    if raw.len() < header_len {
        Err(ParseErrorView::HeaderError("Payload shorter than specified header length"@))
    } else {
        let body = raw.subrange(header_len, raw.len() as int);
        match mode {
            EncryptionMode::Unencrypted => Ok(sanitized(body)),
            EncryptionMode::Mode5 => match key {
                Option::None => Err(dec_err("OMS Mode 5 requires a 128-bit key"@)),
                Option::Some(k) => if k.len() != 16 {
                    Err(key_length_error(k.len()))
                } else if body.len() == 0 {
                    Err(dec_err("Payload to decrypt is empty"@))
                } else if body.len() % 16 != 0 {
                    Err(dec_err("Mode 5 payload length ("@ + dec_string(body.len())
                        + ") is not a multiple of 16 bytes"@))
                } else {
                    Ok(sanitized(aes128_cbc_decrypt(k, mode5_iv(raw), body)))
                },
            },
            EncryptionMode::Mode7 => match key {
                Option::None => Err(dec_err("OMS Mode 7 requires a 128-bit key"@)),
                Option::Some(k) => if k.len() != 16 {
                    Err(key_length_error(k.len()))
                } else {
                    match mode7_info(raw) {
                        Err(e) => Err(e),
                        Ok(info) => Ok(sanitized(aes128_cbc_decrypt(
                            aes128_cmac(k, kdf_input(info.message_counter, info.meter_id)),
                            zero_block(),
                            info.ciphertext,
                        ))),
                    }
                },
            },
        }
    }
}

/// Model of a byte-vector result.
pub open spec fn bytes_result(r: Result<Vec<u8>, ParseError>) -> Result<Seq<u8>, ParseErrorView> {
    match r {
        Ok(v) => Ok(v@),
        Err(e) => Err(e@),
    }
}

struct Mode7SecurityInfo {
    meter_id: [u8; 4],
    message_counter: [u8; 4],
    ciphertext: Vec<u8>,
}

fn decryption_error(lit: &str) -> (r: ParseError)
    ensures
        r@ == dec_err(lit@),
{
    ParseError::DecryptionError(string_of(lit))
}

/// Security processing of telegrams.
pub struct SecurityEngine;

impl SecurityEngine {
    /// Decrypts the payload behind the first `header_len` bytes according to
    /// `mode` and strips `0x2F` filler bytes from both ends.
    pub fn decrypt_and_sanitize(
        mode: EncryptionMode,
        raw_payload: &[u8],
        header_len: usize,
        key: Option<&[u8]>,
    ) -> (r: Result<Vec<u8>, ParseError>)
        ensures
            bytes_result(r) == decrypt_sanitized(mode, raw_payload@, header_len as int, key_view(key)),
    {
        if raw_payload.len() < header_len {
            return Err(ParseError::HeaderError(string_of("Payload shorter than specified header length")));
        }
        let payload_to_decrypt = &raw_payload[header_len..raw_payload.len()];
        let decrypted = match mode {
            EncryptionMode::Unencrypted => slice_to_vec(payload_to_decrypt),
            EncryptionMode::Mode5 => {
                let key_bytes = match key {
                    Some(k) => k,
                    None => {
                        return Err(decryption_error("OMS Mode 5 requires a 128-bit key"));
                    },
                };
                if let Err(e) = Self::validate_key(key_bytes) {
                    return Err(e);
                }
                if payload_to_decrypt.len() == 0 {
                    return Err(decryption_error("Payload to decrypt is empty"));
                }
                if payload_to_decrypt.len() % 16 != 0 {
                    let mut msg = string_of("Mode 5 payload length (");
                    push_dec(&mut msg, payload_to_decrypt.len() as u64);
                    push_str(&mut msg, ") is not a multiple of 16 bytes");
                    return Err(ParseError::DecryptionError(msg));
                }
                let iv: [u8; 16] = if raw_payload.len() >= 10 {
                    [
                        raw_payload[2], raw_payload[3], raw_payload[4], raw_payload[5],
                        raw_payload[6], raw_payload[7], raw_payload[8], raw_payload[9],
                        raw_payload[2], raw_payload[3], raw_payload[4], raw_payload[5],
                        raw_payload[6], raw_payload[7], raw_payload[8], raw_payload[9],
                    ]
                } else {
                    [0u8; 16]
                };
                proof {
                    assert(iv@ =~= mode5_iv(raw_payload@));
                }
                cbc_decrypt_no_padding(key_bytes, &iv, payload_to_decrypt)
            },
            EncryptionMode::Mode7 => {
                let persistent_key = match key {
                    Some(k) => k,
                    None => {
                        return Err(decryption_error("OMS Mode 7 requires a 128-bit key"));
                    },
                };
                if let Err(e) = Self::validate_key(persistent_key) {
                    return Err(e);
                }
                let security = match Self::parse_mode7(raw_payload) {
                    Ok(s) => s,
                    Err(e) => {
                        return Err(e);
                    },
                };
                let kenc = match Self::derive_mode7_kenc(
                    persistent_key,
                    &security.message_counter,
                    &security.meter_id,
                ) {
                    Ok(k) => k,
                    Err(e) => {
                        return Err(e);
                    },
                };
                let iv = [0u8; 16];
                proof {
                    assert(iv@ =~= zero_block());
                }
                cbc_decrypt_no_padding(&kenc, &iv, &security.ciphertext)
            },
        };
        Ok(Self::sanitize(&decrypted))
    }

    /// Locates meter id, message counter and ciphertext of a mode 7 telegram.
    fn parse_mode7(raw_payload: &[u8]) -> (r: Result<Mode7SecurityInfo, ParseError>)
        ensures
            match (r, mode7_info(raw_payload@)) {
                (Ok(info), Ok(m)) => info.meter_id@ == m.meter_id && info.message_counter@
                    == m.message_counter && info.ciphertext@ == m.ciphertext
                    && m.ciphertext.len() % 16 == 0,
                (Err(e), Err(m)) => e@ == m,
                _ => false,
            },
    {
        let len = raw_payload.len();
        if len < 35 {
            return Err(decryption_error("Mode 7 telegram is too short"));
        }
        let meter_id = [raw_payload[4], raw_payload[5], raw_payload[6], raw_payload[7]];
        let mut ell: usize = 0;
        while ell < len && raw_payload[ell] != 0x8C
            invariant
                ell <= len == raw_payload@.len(),
                find_byte(raw_payload@, 0x8C, 0) == find_byte(raw_payload@, 0x8C, ell as int),
            decreases len - ell,
        {
            ell = ell + 1;
        }
        if ell == len {
            return Err(decryption_error("Mode 7 ELL header (0x8C) not found"));
        }
        let ell_pos = ell;
        if len - ell_pos < 3 {
            return Err(decryption_error("Incomplete ELL header"));
        }
        let afl_pos = ell_pos + 3;
        if len - afl_pos < 14 {
            return Err(decryption_error("Incomplete AFL header"));
        }
        if raw_payload[afl_pos] != 0x90 {
            let mut msg = string_of("Expected AFL CI 0x90, found 0x");
            push_hex_byte_upper(&mut msg, raw_payload[afl_pos]);
            return Err(ParseError::DecryptionError(msg));
        }
        let message_counter = [
            raw_payload[afl_pos + 5],
            raw_payload[afl_pos + 6],
            raw_payload[afl_pos + 7],
            raw_payload[afl_pos + 8],
        ];
        let mut i: usize = 0;
        let mut tpl_found: Option<usize> = None;
        while i < len - 5
            invariant_except_break
                len == raw_payload@.len(),
                len >= 35,
                i <= len - 5,
                tpl_found is None,
                find_mode7_tpl(raw_payload@, 0) == find_mode7_tpl(raw_payload@, i as int),
            ensures
                match tpl_found {
                    Option::Some(t) => find_mode7_tpl(raw_payload@, 0) == Option::Some(t as int) && t + 5 < len,
                    Option::None => find_mode7_tpl(raw_payload@, 0) is None,
                },
            decreases len - 5 - i,
        {
            if raw_payload[i] == 0x7A {
                let cf: u16 = raw_payload[i + 3] as u16 + (raw_payload[i + 4] as u16) * 256;
                assert((cf >> 8u16) & 0x1Fu16 <= 31) by (bit_vector);
                let mode = ((cf >> 8u16) & 0x1F) as u8;
                if mode == 7 {
                    tpl_found = Some(i);
                    break;
                }
            }
            i = i + 1;
        }
        let tpl_pos = match tpl_found {
            Some(t) => t,
            None => {
                return Err(decryption_error("Mode 7 short TPL header (CI 0x7A) not found"));
            },
        };
        proof {
            lemma_find_mode7_tpl(raw_payload@, 0);
        }
        if len - tpl_pos < 6 {
            return Err(decryption_error("Incomplete Mode 7 TPL header"));
        }
        let cf: u16 = raw_payload[tpl_pos + 3] as u16 + (raw_payload[tpl_pos + 4] as u16) * 256;
        let cfe = raw_payload[tpl_pos + 5];
        assert((cf >> 8u16) & 0x1Fu16 <= 31) by (bit_vector);
        let mode = ((cf >> 8u16) & 0x1F) as u8;
        if mode != 7 {
            let mut msg = string_of("Expected Security Mode 7, found Mode ");
            push_dec(&mut msg, mode as u64);
            return Err(ParseError::DecryptionError(msg));
        }
        let key_id = cfe & 0x0F;
        let kdf_selection = (cfe >> 4u8) & 0x03;
        if kdf_selection != 1 {
            let mut msg = string_of("Unsupported Mode 7 KDF selection: ");
            push_dec(&mut msg, kdf_selection as u64);
            push_str(&mut msg, " (CFE=0x");
            push_hex_byte_upper(&mut msg, cfe);
            push_str(&mut msg, ")");
            return Err(ParseError::DecryptionError(msg));
        }
        if key_id != 0 {
            let mut msg = string_of("Unsupported Mode 7 Key ID: ");
            push_dec(&mut msg, key_id as u64);
            push_str(&mut msg, " (CFE=0x");
            push_hex_byte_upper(&mut msg, cfe);
            push_str(&mut msg, ")");
            return Err(ParseError::DecryptionError(msg));
        }
        let encrypted_blocks = ((cf >> 4u16) & 0x0F) as usize;
        if encrypted_blocks == 0 {
            return Err(decryption_error("Mode 7 configuration specifies zero encrypted blocks"));
        }
        let encrypted_len = encrypted_blocks * 16;
        let ciphertext_start = tpl_pos + 6;
        if ciphertext_start > usize::MAX - encrypted_len {
            return Err(decryption_error("Mode 7 encrypted length overflow"));
        }
        let ciphertext_end = ciphertext_start + encrypted_len;
        if len < ciphertext_end {
            let mut msg = string_of("Telegram contains only ");
            push_dec(&mut msg, (len - ciphertext_start) as u64);
            push_str(&mut msg, " bytes after TPL, but Mode 7 requires ");
            push_dec(&mut msg, encrypted_len as u64);
            push_str(&mut msg, " encrypted bytes");
            return Err(ParseError::DecryptionError(msg));
        }
        let ciphertext = slice_to_vec(&raw_payload[ciphertext_start..ciphertext_end]);
        proof {
            assert(meter_id@ =~= raw_payload@.subrange(4, 8));
            assert(message_counter@ =~= raw_payload@.subrange(afl_pos + 5, afl_pos + 9));
        }
        Ok(Mode7SecurityInfo { meter_id, message_counter, ciphertext })
    }

    /// Derives the mode 7 session key (KDF A): the AES-CMAC of the KDF input
    /// block under the persistent key.
    fn derive_mode7_kenc(
        persistent_key: &[u8],
        message_counter: &[u8; 4],
        meter_id: &[u8; 4],
    ) -> (r: Result<Vec<u8>, ParseError>)
        ensures
            bytes_result(r) == mode7_kenc(persistent_key@, message_counter@, meter_id@),
            r matches Ok(k) ==> k@.len() == 16,
    {
        if let Err(e) = Self::validate_key(persistent_key) {
            return Err(e);
        }
        let kdf_block = [
            0x00u8,
            message_counter[0], message_counter[1], message_counter[2], message_counter[3],
            meter_id[0], meter_id[1], meter_id[2], meter_id[3],
            0x07, 0x07, 0x07, 0x07, 0x07, 0x07, 0x07,
        ];
        proof {
            assert(kdf_block@ =~= kdf_input(message_counter@, meter_id@));
        }
        Ok(cmac_aes128(persistent_key, &kdf_block))
    }

    /// Accepts exactly 16-byte keys.
    fn validate_key(key: &[u8]) -> (r: Result<(), ParseError>)
        ensures
            key@.len() == 16 <==> r is Ok,
            r matches Err(e) ==> e@ == key_length_error(key@.len()),
    {
        if key.len() != 16 {
            let mut msg = string_of("Invalid key length: expected 16 bytes, got ");
            push_dec(&mut msg, key.len() as u64);
            return Err(ParseError::DecryptionError(msg));
        }
        Ok(())
    }

    /// Removes `0x2F` filler bytes from both ends: the result is the slice
    /// between the leading and the trailing run of filler bytes, so it
    /// neither begins nor ends with one.
    pub fn sanitize(decrypted: &[u8]) -> (r: Vec<u8>)
        ensures
            r@ == sanitized(decrypted@),
            exists|i: int, j: int|
                0 <= i <= j <= decrypted@.len() && r@ == decrypted@.subrange(i, j) && (forall|k: int|
                    0 <= k < i ==> #[trigger] decrypted@[k] == 0x2F) && (forall|k: int|
                    j <= k < decrypted@.len() ==> #[trigger] decrypted@[k] == 0x2F),
            r@.len() > 0 ==> r@[0] != 0x2F && r@.last() != 0x2F,
    {
        let mut lo: usize = 0;
        let n = decrypted.len();
        proof {
            assert(decrypted@.subrange(0, n as int) =~= decrypted@);
        }
        while lo < n && decrypted[lo] == 0x2F
            invariant
                lo <= n == decrypted@.len(),
                strip_leading_fill(decrypted@) == strip_leading_fill(decrypted@.subrange(lo as int, n as int)),
                forall|k: int| 0 <= k < lo ==> #[trigger] decrypted@[k] == 0x2F,
            decreases n - lo,
        {
            proof {
                assert(decrypted@.subrange(lo as int, n as int).drop_first()
                    =~= decrypted@.subrange(lo as int + 1, n as int));
            }
            lo = lo + 1;
        }
        proof {
            let sub = decrypted@.subrange(lo as int, n as int);
            assert(strip_leading_fill(sub) == sub);
        }
        let mut hi: usize = n;
        while hi > lo && decrypted[hi - 1] == 0x2F
            invariant
                lo <= hi <= n == decrypted@.len(),
                sanitized(decrypted@) == strip_trailing_fill(decrypted@.subrange(lo as int, hi as int)),
                forall|k: int| 0 <= k < lo ==> #[trigger] decrypted@[k] == 0x2F,
                forall|k: int| hi <= k < n ==> #[trigger] decrypted@[k] == 0x2F,
                lo < n ==> decrypted@[lo as int] != 0x2F,
            decreases hi - lo,
        {
            proof {
                assert(decrypted@.subrange(lo as int, hi as int).drop_last()
                    =~= decrypted@.subrange(lo as int, hi as int - 1));
            }
            hi = hi - 1;
        }
        let r = slice_to_vec(&decrypted[lo..hi]);
        proof {
            assert(r@ == decrypted@.subrange(lo as int, hi as int));
        }
        r
    }
}

} // verus!
