//! The cryptographic unwrap: hex-decodes the ciphertext field of a response,
//! checks its size, and decrypts it with the pre-shared key and IV (AES-128
//! in CBC mode with PKCS#7 padding).

use vstd::prelude::*;
use cbc::cipher::{BlockDecryptMut, KeyIvInit};
use crate::text::is_digit;

verus! {

/// The pre-shared 16-byte key and 16-byte initialization vector that the
/// device encrypts the seed with. Shared with the firmware out of band and
/// never transmitted; the caller injects it.
#[derive(Clone, Copy)]
pub struct SharedSecret {
    pub key: [u8; 16],
    pub iv: [u8; 16],
}

/// Why unwrapping a ciphertext failed.
#[derive(Debug, Clone, Copy, PartialEq, Eq, Structural)]
pub enum CryptoError {
    /// The key field is not a well-formed hex string.
    InvalidHex,
    /// The ciphertext is not exactly 32 bytes; `got` is the size observed.
    WrongCiphertextSize { got: usize },
    /// The padding of the decrypted text is malformed.
    DecryptFailed,
}

pub open spec fn is_hex_digit(c: char) -> bool {
    is_digit(c) || 97 <= c as u32 <= 102 || 65 <= c as u32 <= 70
}

pub open spec fn hex_val(c: char) -> nat {
    if is_digit(c) {
        (c as u32 - 48) as nat
    } else if 97 <= c as u32 {
        (c as u32 - 87) as nat
    } else {
        (c as u32 - 55) as nat
    }
}

/// A well-formed hex encoding: an even number of hex digits, either case.
pub open spec fn is_hex_seq(s: Seq<char>) -> bool {
    s.len() % 2 == 0 && forall|i: int| 0 <= i < s.len() ==> is_hex_digit(#[trigger] s[i])
}

/// The bytes a hex string encodes: one per digit pair, high digit first.
pub open spec fn spec_hex_bytes(s: Seq<char>) -> Seq<u8> {
    Seq::new(s.len() / 2, |i: int| (hex_val(s[2 * i]) * 16 + hex_val(s[2 * i + 1])) as u8)
}

#[verifier::external_type_specification]
#[verifier::external_body]
pub struct ExFromHexError(hex::FromHexError);

/// Relies on `hex::decode`, which reads the UTF-8 bytes of the string: it
/// succeeds exactly when those bytes are an even number of ASCII hex digits,
/// either case — for a `&str`, exactly when its characters are — and then
/// yields one byte for each digit pair, high digit first.
#[verifier::external_body]
fn hex_decode(s: &str) -> (r: Result<Vec<u8>, hex::FromHexError>)
    ensures
        r matches Ok(b) ==> is_hex_seq(s@) && b@ == spec_hex_bytes(s@),
        r is Err ==> !is_hex_seq(s@),
{
    hex::decode(s)
}

#[verifier::external_type_specification]
#[verifier::external_body]
pub struct ExUnpadError(block_padding::UnpadError);

/// What AES-128-CBC decryption with the given key and IV, followed by PKCS#7
/// unpadding, recovers from a ciphertext, if anything: a function of its
/// arguments alone.
pub uninterp spec fn aes128_cbc_unwrap(key: Seq<u8>, iv: Seq<u8>, ciphertext: Seq<u8>) -> Option<
    Seq<u8>,
>;

/// Relies on `cbc::Decryptor::<aes::Aes128>` and its `decrypt_padded_mut`
/// with `block_padding::Pkcs7`: the outcome depends on the key, the IV and
/// the ciphertext alone; it is an error unless the ciphertext is a whole
/// positive number of 16-byte blocks and the decrypted text ends in
/// well-formed padding; on success the padding, 1 to 16 bytes, is stripped.
#[verifier::external_body]
fn aes128_cbc_decrypt(key: &[u8; 16], iv: &[u8; 16], ciphertext: &[u8]) -> (r: Result<
    Vec<u8>,
    block_padding::UnpadError,
>)
    ensures
        (r matches Ok(p) ==> aes128_cbc_unwrap(key@, iv@, ciphertext@) == Some(p@)
            && ciphertext@.len() % 16 == 0 && ciphertext@.len() - 16 <= p@.len()
            < ciphertext@.len()),
        r is Err ==> aes128_cbc_unwrap(key@, iv@, ciphertext@) is None,
{
    let mut buf = ciphertext.to_vec();
    let cipher = cbc::Decryptor::<aes::Aes128>::new(key.into(), iv.into());
    match cipher.decrypt_padded_mut::<block_padding::Pkcs7>(&mut buf) {
        Ok(p) => Ok(p.to_vec()),
        Err(e) => Err(e),
    }
}

/// What unwrapping the hex-encoded ciphertext field yields: the decrypted
/// seed bytes, or the first reason it fails. The hex must be well formed, the
/// ciphertext exactly 32 bytes, and the decrypted padding valid.
pub open spec fn spec_unwrap_seed(key: Seq<u8>, iv: Seq<u8>, hex: Seq<char>) -> Result<
    Seq<u8>,
    CryptoError,
> {
    if !is_hex_seq(hex) {
        Err(CryptoError::InvalidHex)
    } else if spec_hex_bytes(hex).len() != 32 {
        Err(CryptoError::WrongCiphertextSize { got: (hex.len() / 2) as usize })
    } else {
        match aes128_cbc_unwrap(key, iv, spec_hex_bytes(hex)) {
            Option::Some(p) => Ok(p),
            Option::None => Err(CryptoError::DecryptFailed),
        }
    }
}

/// Decrypts the hex-encoded ciphertext field with the pre-shared secret:
/// decodes the hex, requires exactly two AES blocks, decrypts them and strips
/// the padding. A ciphertext of the wrong size is never decrypted; a
/// recovered seed is between 16 and 31 bytes long.
pub fn decrypt_seed(secret: &SharedSecret, ciphertext_hex: &str) -> (r: Result<
    Vec<u8>,
    CryptoError,
>)
    ensures
        (match (r, spec_unwrap_seed(secret.key@, secret.iv@, ciphertext_hex@)) {
            (Ok(v), Ok(s)) => v@ == s,
            (Err(e), Err(se)) => e == se,
            _ => false,
        }),
        r matches Ok(v) ==> 16 <= v@.len() <= 31,
{
    let bytes = match hex_decode(ciphertext_hex) {
        Ok(b) => b,
        Err(_) => {
            return Err(CryptoError::InvalidHex);
        },
    };
    if bytes.len() != 32 {
        return Err(CryptoError::WrongCiphertextSize { got: bytes.len() });
    }
    match aes128_cbc_decrypt(&secret.key, &secret.iv, bytes.as_slice()) {
        Ok(p) => Ok(p),
        Err(_) => Err(CryptoError::DecryptFailed),
    }
}

/// The display text of each unwrap error; the size error names the number of
/// bytes observed.
pub open spec fn spec_crypto_error_message(e: CryptoError) -> Seq<char> {
    match e {
        CryptoError::InvalidHex => "invalid hex in KEY"@,
        CryptoError::WrongCiphertextSize { got } => "expected 32 bytes, got "@
            + crate::text::spec_digits(got as nat),
        CryptoError::DecryptFailed => "decryption failed"@,
    }
}

impl CryptoError {
    /// The display text of the error.
    pub fn message(&self) -> (r: String)
        ensures
            r@ == spec_crypto_error_message(*self),
    {
        match self {
            CryptoError::InvalidHex => "invalid hex in KEY".to_owned(),
            CryptoError::WrongCiphertextSize { got } => {
                let mut out = "expected 32 bytes, got ".to_owned();
                let d = crate::text::digits_string(*got);
                vstd::string::StringExecFns::append(&mut out, d.as_str());
                out
            },
            CryptoError::DecryptFailed => "decryption failed".to_owned(),
        }
    }
}

} // verus!
