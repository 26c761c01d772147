//! Signed compact tokens (header, claims and an RSA signature in three
//! base64url segments) and the booking domain that uses them.

pub mod authentication;
pub mod did;
pub mod domain;
pub mod text;
