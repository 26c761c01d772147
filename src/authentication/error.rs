//! The errors of signing and of decoding.
use vstd::prelude::*;

verus! {

#[verifier::external_type_specification]
#[verifier::external_body]
pub struct ExIoError(std::io::Error);

/// Why a token could not be signed (or its key read).
#[derive(Debug)]
pub enum MyError {
    IO(std::io::Error),
    /// The private key is not an RSA key in unencrypted PKCS#8.
    BadPrivateKey,
    /// The signing primitive failed.
    OOM,
    BadSignature,
}

/// Why a text is not a token.
#[derive(Debug, Clone, Copy, PartialEq, Eq, Structural)]
pub enum DecodeError {
    /// The text is not three dot-separated segments of which the first two
    /// are the base64url of a canonical header and of canonical claims.
    InvalidTokenFormat,
}

} // verus!
