//! Client-side core of a small password-generator device protocol: parsing of
//! the device's response line, unwrapping of the encrypted seed, and the
//! deterministic derivation of a password from the seed.
//!
//! The wire contract for the seed is the padded two-block variant: the
//! ciphertext is exactly 32 bytes, decrypted with AES-128 in CBC mode under a
//! pre-shared key and IV, and stripped of its PKCS#7 padding.

pub mod crypto;
pub mod password;
pub mod pipeline;
pub mod protocol;
pub mod text;
