//! The composed operation behind the generate trigger: parse the response
//! line, unwrap the encrypted seed, derive the password. Every failure
//! short-circuits; no partial password is ever returned.

use vstd::prelude::*;
use crate::crypto::{
    decrypt_seed, is_hex_digit, spec_crypto_error_message, spec_unwrap_seed, CryptoError,
    SharedSecret,
};
use crate::password::{generate_password_from_bytes, spec_password};
use crate::protocol::{
    parse_response, spec_parse, spec_parse_error_message, spec_serialize, ParseError,
    lemma_parse_serialize_round_trip,
};
use crate::text::is_ws;

verus! {

/// Why no password came out of a response line.
#[derive(Debug, Clone, Copy, PartialEq, Eq, Structural)]
pub enum GenerateError {
    /// The response line was rejected by the parser.
    Parse(ParseError),
    /// The ciphertext field could not be unwrapped.
    Crypto(CryptoError),
}

/// What processing a response line with a given secret yields: the derived
/// password, or the first error on the way.
pub open spec fn spec_generate(key: Seq<u8>, iv: Seq<u8>, response: Seq<char>) -> Result<
    Seq<char>,
    GenerateError,
> {
    match spec_parse(response) {
        Err(e) => Err(GenerateError::Parse(e)),
        Ok((length, complexity, hex)) => match spec_unwrap_seed(key, iv, hex) {
            Err(e) => Err(GenerateError::Crypto(e)),
            Ok(seed) => Ok(spec_password(seed, length as nat, complexity)),
        },
    }
}

/// Runs the whole pipeline on one response line: parse, unwrap the seed with
/// the secret, derive the password. A password that comes out has exactly
/// the length the response requested.
pub fn process_response(secret: &SharedSecret, response: &str) -> (r: Result<
    String,
    GenerateError,
>)
    requires
        response@.len() < usize::MAX,
    ensures
        (match (r, spec_generate(secret.key@, secret.iv@, response@)) {
            (Ok(p), Ok(sp)) => p@ == sp,
            (Err(e), Err(se)) => e == se,
            _ => false,
        }),
        r matches Ok(p) ==> spec_parse(response@) matches Ok(fields) && p@.len() == fields.0,
{
    let (length, complexity, hex) = match parse_response(response) {
        Ok(fields) => fields,
        Err(e) => {
            return Err(GenerateError::Parse(e));
        },
    };
    let seed = match decrypt_seed(secret, hex.as_str()) {
        Ok(s) => s,
        Err(e) => {
            return Err(GenerateError::Crypto(e));
        },
    };
    Ok(generate_password_from_bytes(seed.as_slice(), length, complexity))
}

/// The display text handed to the caller for each failure.
pub open spec fn spec_generate_error_message(e: GenerateError) -> Seq<char> {
    match e {
        GenerateError::Parse(pe) => spec_parse_error_message(pe),
        GenerateError::Crypto(ce) => spec_crypto_error_message(ce),
    }
}

impl GenerateError {
    /// The display text of the error.
    pub fn message(&self) -> (r: String)
        ensures
            r@ == spec_generate_error_message(*self),
    {
        match self {
            GenerateError::Parse(pe) => pe.message(),
            GenerateError::Crypto(ce) => ce.message(),
        }
    }
}

/// Unwrapping and deriving is deterministic: one ciphertext, one requested
/// length and one complexity code always yield one password, however often
/// the operation runs.
pub proof fn lemma_generation_deterministic(
    key: Seq<u8>,
    iv: Seq<u8>,
    hex: Seq<char>,
    length: nat,
    complexity: u8,
    p1: Seq<char>,
    p2: Seq<char>,
)
    requires
        spec_unwrap_seed(key, iv, hex) matches Ok(seed1) && p1 == spec_password(
            seed1,
            length,
            complexity,
        ),
        spec_unwrap_seed(key, iv, hex) matches Ok(seed2) && p2 == spec_password(
            seed2,
            length,
            complexity,
        ),
    ensures
        p1 == p2,
{
}

/// Parsing a serialized response whose key field is hex-encoded yields the
/// three fields back.
pub proof fn lemma_round_trip_hex_key(length: usize, complexity: u8, key: Seq<char>)
    requires
        forall|i: int| 0 <= i < key.len() ==> is_hex_digit(#[trigger] key[i]),
    ensures
        spec_parse(spec_serialize(length, complexity, key)) == Ok::<
            (usize, u8, Seq<char>),
            ParseError,
        >((length, complexity, key)),
{
    assert forall|i: int| 0 <= i < key.len() implies (#[trigger] key[i]) != ',' && !is_ws(
        key[i],
    ) by {
        assert(is_hex_digit(key[i]));
    }
    lemma_parse_serialize_round_trip(length, complexity, key);
}

} // verus!
