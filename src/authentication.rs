//! Issuing, decoding and checking compact tokens.

pub mod decode;
pub mod domain;
pub mod encoding;
pub mod error;
pub mod json;
pub mod sign;
pub mod verify;

pub use decode::decode;
pub use domain::{
    Header, Options, Payload, Token, TokenError, DEFAULT_TOKEN_ALG, DEFAULT_TOKEN_TTL, DEFAULT_TOKEN_TYPE,
    TOKEN_DELIMETER,
};
pub use error::{DecodeError, MyError};
pub use sign::sign;
pub use verify::{verify, verify_at, verify_claims_at, verify_signature};
