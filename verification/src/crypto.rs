//! The block-cipher primitives the library uses, taken from the RustCrypto
//! crates `aes`, `cbc` and `cmac`. Their results are named, not restated.
use vstd::prelude::*;
use aes::Aes128;
use aes::cipher::block_padding::NoPadding;
use aes::cipher::{BlockDecryptMut, KeyInit, KeyIvInit};
use cmac::{Cmac, Mac};

verus! {

/// AES-128 decryption of `data` in CBC mode with initialisation vector `iv`,
/// without padding, as `cbc::Decryptor<aes::Aes128>` computes it.
pub uninterp spec fn aes128_cbc_decrypt(key: Seq<u8>, iv: Seq<u8>, data: Seq<u8>) -> Seq<u8>;

/// The AES-128 CMAC tag of `msg` under `key`, as `cmac::Cmac<aes::Aes128>`
/// computes it.
pub uninterp spec fn aes128_cmac(key: Seq<u8>, msg: Seq<u8>) -> Seq<u8>;

/// Decrypts `data` with AES-128-CBC and no padding
/// (`cbc::Decryptor::<Aes128>::new_from_slices` and `decrypt_padded_mut::<NoPadding>`).
///
/// Trusted: the result is the named CBC decryption, and has the length of the
/// input. The crate's source accepts any 16-byte key and IV, and with no
/// padding it returns all whole blocks, so neither call fails under `requires`.
#[verifier::external_body]
pub(crate) fn cbc_decrypt_no_padding(key: &[u8], iv: &[u8], data: &[u8]) -> (r: Vec<u8>)
    requires
        key@.len() == 16,
        iv@.len() == 16,
        data@.len() % 16 == 0,
    ensures
        r@ == aes128_cbc_decrypt(key@, iv@, data@),
        r@.len() == data@.len(),
{
    let mut buf = data.to_vec();
    let cipher = cbc::Decryptor::<Aes128>::new_from_slices(key, iv).unwrap();
    cipher.decrypt_padded_mut::<NoPadding>(&mut buf).unwrap();
    buf
}

/// Computes the AES-128 CMAC of `msg` (`Cmac::<Aes128>::new_from_slice`,
/// `update`, `finalize`).
///
/// Trusted: the result is the named tag, sixteen bytes long (the AES block
/// size, which is the output size of `CmacCore`). A 16-byte key is always
/// accepted.
#[verifier::external_body]
pub(crate) fn cmac_aes128(key: &[u8], msg: &[u8]) -> (r: Vec<u8>)
    requires
        key@.len() == 16,
    ensures
        r@ == aes128_cmac(key@, msg@),
        r@.len() == 16,
{
    let mut mac = <Cmac<Aes128> as KeyInit>::new_from_slice(key).unwrap();
    mac.update(msg);
    mac.finalize().into_bytes().to_vec()
}

} // verus!
