//! Accepting or rejecting a token.
use super::decode::{decode, decode_result, is_text_of, segments, split_segments};
use super::error::DecodeError;
use super::domain::{expired_at, get_sys_time_in_secs, Token, TokenError, DEFAULT_TOKEN_ALG, DEFAULT_TOKEN_TYPE};
use super::encoding::{base64url_decode, base64url_of};
use super::json::push_all;
use super::sign::dot;
use crate::text::str_eq;
use vstd::prelude::*;
use vstd::utf8::*;

verus! {

/// Whether `signature` is a valid RSA PKCS#1 v1.5 SHA-256 signature of `msg`
/// under the DER `RSAPublicKey` `public_key`.
pub uninterp spec fn rsa_pkcs1_sha256_valid(public_key: Seq<u8>, msg: Seq<u8>, signature: Seq<u8>) -> bool;

/// Relies on ring's `UnparsedPublicKey::verify` with
/// `RSA_PKCS1_2048_8192_SHA256`: whether the signature is valid, which
/// depends on the three byte strings alone.
#[verifier::external_body]
fn rsa_pkcs1_sha256_verify(public_key: &[u8], msg: &[u8], signature: &[u8]) -> (r: bool)
    ensures
        r == rsa_pkcs1_sha256_valid(public_key@, msg@, signature@),
{
    ring::signature::UnparsedPublicKey::new(
        &ring::signature::RSA_PKCS1_2048_8192_SHA256,
        public_key,
    ).verify(msg, signature).is_ok()
}

/// The judgement of a token with header and claims `tok` at time `now`:
/// the algorithm and type must be the ones tokens are signed with, and the
/// claims must not have expired.
pub open spec fn verdict(tok: ((Seq<char>, Seq<char>), (Seq<char>, u64)), now: u64) -> Result<
    (),
    TokenError,
> {
    if tok.0.0 != DEFAULT_TOKEN_ALG@ {
        Err(TokenError::InvalidAlg)
    } else if tok.0.1 != DEFAULT_TOKEN_TYPE@ {
        Err(TokenError::InvalidTyp)
    } else if expired_at(tok.1.1, now) {
        Err(TokenError::Expired)
    } else {
        Ok(())
    }
}

/// The token text `t` carries a valid signature under `public_key`: its third
/// segment encodes a signature of its first two segments joined by a dot.
pub open spec fn signature_valid(t: Seq<u8>, public_key: Seq<u8>) -> bool {
    let parts = segments(t);
    &&& parts.len() == 3
    &&& exists|sig: Seq<u8>|
        #[trigger] base64url_of(sig) == parts[2] && rsa_pkcs1_sha256_valid(
            public_key,
            parts[0] + dot() + parts[1],
            sig,
        )
}

/// The judgement of the token text `t` under the issuer's key `public_key` at
/// time `now`: it must decode, carry a valid signature, and then pass
/// `verdict`.
pub open spec fn verification(t: Seq<u8>, public_key: Seq<u8>, now: u64) -> Result<(), TokenError> {
    if !exists|x| #[trigger] is_text_of(t, x) {
        Err(TokenError::InvalidFormat)
    } else if !signature_valid(t, public_key) {
        Err(TokenError::InvalidSignature)
    } else {
        verdict(choose|x| #[trigger] is_text_of(t, x), now)
    }
}

/// Verifies a token's text under the issuer's public key (DER
/// `RSAPublicKey`) against the clock's present reading. A clock before the
/// epoch is judged as the epoch itself: both come before every expiry.
pub fn verify(token: &str, public_key: &[u8]) -> (r: Result<(), TokenError>)
    ensures
        exists|now: u64| r == #[trigger] verification(encode_utf8(token@), public_key@, now),
{
    let now = match get_sys_time_in_secs() {
        Some(n) => n,
        None => 0,
    };
    verify_at(token, public_key, now)
}

/// Verifies a token's text under the issuer's public key at time `now`:
/// first its format, then its signature, then its header and expiry.
pub fn verify_at(token: &str, public_key: &[u8], now: u64) -> (r: Result<(), TokenError>)
    ensures
        r == verification(encode_utf8(token@), public_key@, now),
{
    let ghost t = encode_utf8(token@);
    let decoded = match decode(token) {
        Ok(d) => d,
        Err(_) => {
            return Err(TokenError::InvalidFormat);
        },
    };
    assert(is_text_of(t, decoded@));
    let signed = verify_signature(token, public_key);
    if signed.is_err() {
        return signed;
    }
    proof {
        let x = choose|x| #[trigger] is_text_of(t, x);
        assert(x == decoded@);
    }
    verify_claims_at(&decoded, now)
}

/// Checks a decoded token's header and expiry at time `now`.
pub fn verify_claims_at(token: &Token, now: u64) -> (r: Result<(), TokenError>)
    ensures
        r == verdict(token@, now),
{
    let r = verify_header(token);
    if r.is_err() {
        return r;
    }
    if token.is_expired_at(now) {
        return Err(TokenError::Expired);
    }
    Ok(())
}

fn verify_header(token: &Token) -> (r: Result<(), TokenError>)
    ensures
        r == (if token.header.alg@ != DEFAULT_TOKEN_ALG@ {
            Err(TokenError::InvalidAlg)
        } else if token.header.typ@ != DEFAULT_TOKEN_TYPE@ {
            Err(TokenError::InvalidTyp)
        } else {
            Ok(())
        }),
{
    if !str_eq(token.header.alg.as_str(), DEFAULT_TOKEN_ALG) {
        return Err(TokenError::InvalidAlg);
    }
    if !str_eq(token.header.typ.as_str(), DEFAULT_TOKEN_TYPE) {
        return Err(TokenError::InvalidTyp);
    }
    Ok(())
}

/// Checks the signature of a token's text against the issuer's public key
/// (DER `RSAPublicKey`), over the text's own first two segments.
pub fn verify_signature(token: &str, public_key: &[u8]) -> (r: Result<(), TokenError>)
    ensures
        r == (if signature_valid(encode_utf8(token@), public_key@) {
            Ok(())
        } else {
            Err(TokenError::InvalidSignature)
        }),
{
    let ghost t = encode_utf8(token@);
    let parts = split_segments(token.as_bytes());
    if parts.len() != 3 {
        return Err(TokenError::InvalidSignature);
    }
    assert(parts@[0]@ == segments(t)[0]);
    assert(parts@[1]@ == segments(t)[1]);
    assert(parts@[2]@ == segments(t)[2]);
    let signature = match base64url_decode(parts[2].as_slice()) {
        Some(s) => s,
        None => {
            return Err(TokenError::InvalidSignature);
        },
    };
    let mut message: Vec<u8> = Vec::new();
    push_all(&mut message, parts[0].as_slice());
    message.push(0x2e);
    push_all(&mut message, parts[1].as_slice());
    assert(message@ =~= segments(t)[0] + dot() + segments(t)[1]);
    if rsa_pkcs1_sha256_verify(public_key, message.as_slice(), signature.as_slice()) {
        assert(base64url_of(signature@) == segments(t)[2]);
        Ok(())
    } else {
        Err(TokenError::InvalidSignature)
    }
}

/// A token text with a valid signature and the default header is rejected as
/// expired exactly when its expiry is before the present time, and accepted
/// otherwise.
pub proof fn lemma_verification_expiry(
    t: Seq<u8>,
    public_key: Seq<u8>,
    now: u64,
    r: Result<Token, DecodeError>,
)
    requires
        decode_result(t, r),
        r matches Ok(d) && d@.0 == (DEFAULT_TOKEN_ALG@, DEFAULT_TOKEN_TYPE@),
        signature_valid(t, public_key),
    ensures
        r matches Ok(d) && (d.payload.exp < now ==> verification(t, public_key, now) == Err::<
            (),
            TokenError,
        >(TokenError::Expired)) && (d.payload.exp >= now ==> verification(t, public_key, now)
            == Ok::<(), TokenError>(())),
{
    if let Ok(d) = r {
        assert(is_text_of(t, d@));
        let x = choose|x| #[trigger] is_text_of(t, x);
        assert(x == d@);
    }
}

/// A token with the default header is rejected as expired exactly when its
/// expiry is before the present time, and accepted otherwise.
pub proof fn lemma_verdict_expiry(tok: ((Seq<char>, Seq<char>), (Seq<char>, u64)), now: u64)
    requires
        tok.0 == (DEFAULT_TOKEN_ALG@, DEFAULT_TOKEN_TYPE@),
    ensures
        tok.1.1 < now ==> verdict(tok, now) == Err::<(), TokenError>(TokenError::Expired),
        tok.1.1 >= now ==> verdict(tok, now) == Ok::<(), TokenError>(()),
{
}

} // verus!
