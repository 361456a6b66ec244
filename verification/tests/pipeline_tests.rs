use aes::cipher::block_padding::Pkcs7;
use aes::cipher::{BlockEncryptMut, KeyIvInit};

use trng_client_core::crypto::{decrypt_seed, CryptoError, SharedSecret};
use trng_client_core::pipeline::{process_response, GenerateError};
use trng_client_core::protocol::ParseError;

const KEY: [u8; 16] = [
    0x2B, 0x7E, 0x15, 0x16, 0x28, 0xAE, 0xD2, 0xA6, 0xAB, 0xF7, 0x15, 0x88, 0x09, 0xCF, 0x4F,
    0x3C,
];
const IV: [u8; 16] = [
    0xff, 0x01, 0x02, 0x03, 0x04, 0x05, 0x06, 0x07, 0x08, 0x09, 0x0a, 0x0b, 0x0c, 0x0d, 0x0e,
    0x0f,
];

fn secret() -> SharedSecret {
    SharedSecret { key: KEY, iv: IV }
}

/// Encrypts a 16-byte seed the way the device does: AES-128-CBC, PKCS#7
/// padding, two blocks out.
fn encrypt_seed(seed: &[u8; 16]) -> String {
    let mut buf = [0u8; 32];
    buf[..16].copy_from_slice(seed);
    let ct = cbc::Encryptor::<aes::Aes128>::new(&KEY.into(), &IV.into())
        .encrypt_padded_mut::<Pkcs7>(&mut buf, 16)
        .unwrap();
    assert_eq!(ct.len(), 32);
    hex::encode(ct)
}

fn sample_seed() -> [u8; 16] {
    let mut s = [0u8; 16];
    for (i, b) in s.iter_mut().enumerate() {
        *b = i as u8;
    }
    s
}

#[test]
fn decrypt_recovers_the_seed() {
    let seed = sample_seed();
    let hex_ct = encrypt_seed(&seed);
    let out = decrypt_seed(&secret(), &hex_ct).unwrap();
    assert_eq!(out, seed.to_vec());
}

#[test]
fn decrypt_rejects_bad_hex() {
    assert_eq!(
        decrypt_seed(&secret(), "zz").unwrap_err(),
        CryptoError::InvalidHex
    );
    assert_eq!(
        decrypt_seed(&secret(), "0").unwrap_err(),
        CryptoError::InvalidHex
    );
}

#[test]
fn decrypt_rejects_wrong_size_before_decrypting() {
    // 30 bytes where 32 are expected
    let hex_ct = "00".repeat(30);
    let e = decrypt_seed(&secret(), &hex_ct).unwrap_err();
    assert_eq!(e, CryptoError::WrongCiphertextSize { got: 30 });
    assert_eq!(e.message(), "expected 32 bytes, got 30");
}

#[test]
fn decrypt_rejects_malformed_padding() {
    // 32 bytes that do not decrypt to valid PKCS#7 padding under this key/IV
    let hex_ct = "00".repeat(32);
    assert_eq!(
        decrypt_seed(&secret(), &hex_ct).unwrap_err(),
        CryptoError::DecryptFailed
    );
}

#[test]
fn decrypt_needs_the_right_iv() {
    let seed = sample_seed();
    let hex_ct = encrypt_seed(&seed);
    let other = SharedSecret {
        key: KEY,
        iv: [0u8; 16],
    };
    // a wrong IV garbles the first block; if the padding still validates, the
    // seed that comes out differs from the one encrypted
    match decrypt_seed(&other, &hex_ct) {
        Ok(out) => assert_ne!(out, seed.to_vec()),
        Err(e) => assert_eq!(e, CryptoError::DecryptFailed),
    }
}

#[test]
fn end_to_end_scenario() {
    let seed = sample_seed();
    let response = format!("LEN:4,COMPLEX:0,KEY:{}", encrypt_seed(&seed));
    let password = process_response(&secret(), &response).unwrap();
    assert_eq!(password, "0123");
}

#[test]
fn end_to_end_is_deterministic() {
    let seed = [0x5au8; 16];
    let response = format!("LEN:24,COMPLEX:5,KEY:{}", encrypt_seed(&seed));
    let first = process_response(&secret(), &response).unwrap();
    let second = process_response(&secret(), &response).unwrap();
    assert_eq!(first, second);
    assert_eq!(first.len(), 24);
}

#[test]
fn end_to_end_reports_parse_errors() {
    let e = process_response(&secret(), "LEN:5,COMPLEX:2").unwrap_err();
    assert_eq!(
        e,
        GenerateError::Parse(ParseError::WrongFieldCount { count: 2 })
    );
    assert_eq!(e.message(), "invalid response format (2 parts)");
}

#[test]
fn end_to_end_reports_crypto_errors() {
    let e = process_response(&secret(), "LEN:5,COMPLEX:2,KEY:zz").unwrap_err();
    assert_eq!(e, GenerateError::Crypto(CryptoError::InvalidHex));
    assert_eq!(e.message(), "invalid hex in KEY");
}

#[test]
fn password_length_follows_the_requested_length() {
    let seed = [7u8; 16];
    for len in [0usize, 1, 16, 31, 100] {
        let response = format!("LEN:{},COMPLEX:3,KEY:{}", len, encrypt_seed(&seed));
        let password = process_response(&secret(), &response).unwrap();
        assert_eq!(password.len(), len);
    }
}
