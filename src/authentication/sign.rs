//! Issuing a token: the base64url of the header's and the claims' canonical
//! JSON, and an RSA PKCS#1 v1.5 SHA-256 signature over those two segments.
use super::decode::{
    decode_result, header_segment, is_text_of, lemma_segments_nonempty, payload_segment, segments,
};
use super::domain::{default_header, expiry, Header, Payload, Token};
use super::encoding::{
    base64url_encode, base64url_of, encodes, is_base64url_text, lemma_ascii_valid_utf8,
    string_from_utf8,
};
use super::error::{DecodeError, MyError};
use super::json::{
    header_json, lemma_payload_json_injective, payload_json, push_all, write_header_json,
    write_payload_json,
};
use vstd::prelude::*;
use vstd::utf8::*;

verus! {

/// Whether ring takes `der` for an unencrypted PKCS#8 RSA private key.
pub uninterp spec fn rsa_pkcs8_accepted(der: Seq<u8>) -> bool;

/// The RSA PKCS#1 v1.5 SHA-256 signature of `msg` under the PKCS#8 RSA key
/// `der`.
pub uninterp spec fn rsa_pkcs1_sha256_sig_of(der: Seq<u8>, msg: Seq<u8>) -> Seq<u8>;

/// Relies on ring's `KeyPair::from_pkcs8` and `KeyPair::sign` with
/// `RSA_PKCS1_SHA256`, into a buffer of `public().modulus_len()` bytes.
/// `from_pkcs8` parses and checks the bytes and nothing else, so whether it
/// takes the key depends on them alone; a refusal is `BadPrivateKey`.
/// PKCS#1 v1.5 padding draws nothing from the random source, so a signature
/// that `sign` returns depends on the key and the message alone; it is as long
/// as the key's modulus, so never empty. `sign` may still fail on a key that
/// `from_pkcs8` took (it checks its own result, which an inconsistent key
/// spoils); that failure is `OOM`.
#[verifier::external_body]
fn rsa_pkcs1_sha256_sign(pkcs8: &[u8], msg: &[u8]) -> (r: Result<Vec<u8>, MyError>)
    ensures
        match r {
            Ok(s) => rsa_pkcs8_accepted(pkcs8@) && s@ == rsa_pkcs1_sha256_sig_of(pkcs8@, msg@)
                && s@.len() > 0,
            Err(MyError::BadPrivateKey) => !rsa_pkcs8_accepted(pkcs8@),
            Err(MyError::OOM) => rsa_pkcs8_accepted(pkcs8@),
            Err(_) => false,
        },
{
    let key = match ring::rsa::KeyPair::from_pkcs8(pkcs8) {
        Ok(key) => key,
        Err(_) => return Err(MyError::BadPrivateKey),
    };
    let mut signature = vec![0u8; key.public().modulus_len()];
    let rng = ring::rand::SystemRandom::new();
    match key.sign(&ring::signature::RSA_PKCS1_SHA256, &rng, msg, &mut signature) {
        Ok(()) => Ok(signature),
        Err(_) => Err(MyError::OOM),
    }
}

pub open spec fn dot() -> Seq<u8> {
    seq![0x2eu8]
}

/// `x` has a base64url text, and that text encodes nothing else.
pub open spec fn well_encoded(x: Seq<u8>) -> bool {
    encodes(base64url_of(x), x)
}

/// The text that the signature of a token for claims `p` covers: the
/// encoded default header and the encoded claims, joined by a dot.
pub open spec fn signing_input_of(p: (Seq<char>, u64)) -> Seq<u8> {
    let h = default_header();
    base64url_of(header_json(h.0, h.1)) + dot() + base64url_of(payload_json(p.0, p.1))
}

/// The signature of a token for claims `p` under the key `secret`.
pub open spec fn signature_of(p: (Seq<char>, u64), secret: Seq<u8>) -> Seq<u8> {
    rsa_pkcs1_sha256_sig_of(secret, signing_input_of(p))
}

/// The text of the token for claims `p` under the key `secret`: its signing
/// input and the base64url of its signature, joined by a dot.
pub open spec fn signed_text(p: (Seq<char>, u64), secret: Seq<u8>) -> Seq<u8> {
    signing_input_of(p) + dot() + base64url_of(signature_of(p, secret))
}

/// `t` is the token text for claims `p` under the key `secret`, with what the
/// encoder showed of its three encoded parts.
pub open spec fn is_signed_text(t: Seq<u8>, p: (Seq<char>, u64), secret: Seq<u8>) -> bool {
    let h = default_header();
    &&& well_encoded(header_json(h.0, h.1))
    &&& well_encoded(payload_json(p.0, p.1))
    &&& well_encoded(signature_of(p, secret))
    &&& signature_of(p, secret).len() > 0
    &&& t == signed_text(p, secret)
}

/// Signs `encoded_header "." encoded_payload` with the PKCS#8 RSA key
/// `secret`.
pub fn create_signature(secret: &[u8], encoded_header: &[u8], encoded_payload: &[u8]) -> (r:
    Result<Vec<u8>, MyError>)
    ensures
        match r {
            Ok(sig) => rsa_pkcs8_accepted(secret@) && sig@ == rsa_pkcs1_sha256_sig_of(
                secret@,
                encoded_header@ + dot() + encoded_payload@,
            ) && sig@.len() > 0,
            Err(MyError::BadPrivateKey) => !rsa_pkcs8_accepted(secret@),
            Err(MyError::OOM) => rsa_pkcs8_accepted(secret@),
            Err(_) => false,
        },
{
    let mut message: Vec<u8> = Vec::new();
    push_all(&mut message, encoded_header);
    message.push(0x2e);
    push_all(&mut message, encoded_payload);
    assert(message@ =~= encoded_header@ + dot() + encoded_payload@);
    rsa_pkcs1_sha256_sign(secret, message.as_slice())
}

/// Issues a token for `payload`, signed with the PKCS#8 RSA key `secret`.
/// Its three segments are never empty.
pub fn sign(payload: &Payload, secret: &[u8]) -> (r: Result<String, MyError>)
    ensures
        match r {
            Ok(t) => rsa_pkcs8_accepted(secret@) && is_signed_text(
                encode_utf8(t@),
                payload@,
                secret@,
            ),
            Err(MyError::BadPrivateKey) => !rsa_pkcs8_accepted(secret@),
            Err(MyError::OOM) => rsa_pkcs8_accepted(secret@),
            Err(_) => false,
        },
        r matches Ok(t) ==> segments(encode_utf8(t@)).len() == 3 && forall|k: int|
            0 <= k < 3 ==> (#[trigger] segments(encode_utf8(t@))[k]).len() > 0,
{
    let header = Header::new();
    let header_text = write_header_json(header.alg.as_str(), header.typ.as_str());
    let encoded_header = base64url_encode(header_text.as_slice());
    let payload_text = write_payload_json(payload.name.as_str(), payload.exp);
    let encoded_payload = base64url_encode(payload_text.as_slice());
    let signature = match create_signature(
        secret,
        encoded_header.as_slice(),
        encoded_payload.as_slice(),
    ) {
        Ok(s) => s,
        Err(e) => {
            return Err(e);
        },
    };
    let encoded_signature = base64url_encode(signature.as_slice());
    let mut text: Vec<u8> = Vec::new();
    push_all(&mut text, encoded_header.as_slice());
    text.push(0x2e);
    push_all(&mut text, encoded_payload.as_slice());
    text.push(0x2e);
    push_all(&mut text, encoded_signature.as_slice());
    proof {
        let e1 = encoded_header@;
        let e2 = encoded_payload@;
        let e3 = encoded_signature@;
        assert(text@ =~= e1 + dot() + e2 + dot() + e3);
        assert forall|i: int| 0 <= i < text@.len() implies #[trigger] text@[i] < 0x80 by {
            if i < e1.len() {
                assert(text@[i] == e1[i]);
            } else if i == e1.len() {
            } else if i < e1.len() + 1 + e2.len() {
                assert(text@[i] == e2[i - e1.len() - 1]);
            } else if i == e1.len() + 1 + e2.len() {
            } else {
                assert(text@[i] == e3[i - e1.len() - 2 - e2.len()]);
            }
        }
        lemma_ascii_valid_utf8(text@);
        assert(text@ == signed_text(payload@, secret@));
        lemma_signed_segments(text@, payload@, secret@);
        assert(header_text@.len() > 0);
        assert(payload_text@.len() > 0);
    }
    match string_from_utf8(text) {
        Ok(s) => Ok(s),
        // unreachable: the text is ASCII
        Err(_) => Err(MyError::BadSignature),
    }
}

/// A text without dots is a single segment.
proof fn lemma_segments_plain(a: Seq<u8>)
    requires
        forall|i: int| 0 <= i < a.len() ==> #[trigger] a[i] != 0x2e,
    ensures
        segments(a) == seq![a],
    decreases a.len(),
{
    if a.len() > 0 {
        lemma_segments_plain(a.drop_last());
        assert(a.drop_last().push(a.last()) =~= a);
        assert(segments(a) =~= seq![a]);
    } else {
        assert(a =~= Seq::<u8>::empty());
    }
}

/// A dot followed by text without dots adds that text as one more segment.
proof fn lemma_segments_after_dot(t: Seq<u8>, a: Seq<u8>)
    requires
        forall|i: int| 0 <= i < a.len() ==> #[trigger] a[i] != 0x2e,
    ensures
        segments(t + dot() + a) == segments(t).push(a),
    decreases a.len(),
{
    if a.len() == 0 {
        assert(t + dot() + a =~= t + dot());
        assert((t + dot()).drop_last() =~= t);
        assert(a =~= Seq::<u8>::empty());
    } else {
        let b = a.drop_last();
        lemma_segments_after_dot(t, b);
        assert((t + dot() + a).drop_last() =~= t + dot() + b);
        assert((t + dot() + a).last() == a.last());
        lemma_segments_nonempty(t);
        assert(b.push(a.last()) =~= a);
        assert(segments(t + dot() + a) =~= segments(t).push(a));
    }
}

proof fn lemma_no_dots(e: Seq<u8>)
    requires
        is_base64url_text(e),
    ensures
        forall|i: int| 0 <= i < e.len() ==> #[trigger] e[i] != 0x2e,
{
    assert forall|i: int| 0 <= i < e.len() implies #[trigger] e[i] != 0x2e by {
        assert(is_base64url_text(e));
    }
}

/// The segments of a token issued for claims `p` are its encoded header,
/// its encoded claims and its encoded signature.
pub proof fn lemma_signed_segments(t: Seq<u8>, p: (Seq<char>, u64), secret: Seq<u8>)
    requires
        well_encoded(header_json(default_header().0, default_header().1)),
        well_encoded(payload_json(p.0, p.1)),
        well_encoded(signature_of(p, secret)),
        t == signed_text(p, secret),
    ensures
        segments(t) == seq![
            base64url_of(header_json(default_header().0, default_header().1)),
            base64url_of(payload_json(p.0, p.1)),
            base64url_of(signature_of(p, secret)),
        ],
{
    let sig = signature_of(p, secret);
    let h = default_header();
    let e1 = base64url_of(header_json(h.0, h.1));
    let e2 = base64url_of(payload_json(p.0, p.1));
    let e3 = base64url_of(sig);
    lemma_no_dots(e1);
    lemma_no_dots(e2);
    lemma_no_dots(e3);
    lemma_segments_plain(e1);
    lemma_segments_after_dot(e1, e2);
    lemma_segments_after_dot(e1 + dot() + e2, e3);
    assert(segments(t) =~= seq![e1, e2, e3]);
}

/// Decoding a token that `sign` issued for claims `p` gives the default
/// header and exactly the claims `p`.
pub proof fn lemma_decode_signed(
    t: Seq<u8>,
    p: (Seq<char>, u64),
    secret: Seq<u8>,
    r: Result<Token, DecodeError>,
)
    requires
        is_signed_text(t, p, secret),
        decode_result(t, r),
    ensures
        r matches Ok(tok) && tok@ == (default_header(), p),
{
    lemma_signed_segments(t, p, secret);
    let parts = segments(t);
    assert(header_segment(parts[0], default_header()));
    assert(payload_segment(parts[1], p));
    assert(is_text_of(t, (default_header(), p)));
}

/// Tokens issued for distinct claims carry distinct signing inputs: the text
/// that each signature covers (the first two segments) differs. That their
/// signatures then differ rests on RSA and is not stated here.
pub proof fn lemma_distinct_claims_distinct_inputs(
    secret: Seq<u8>,
    t1: Seq<u8>,
    p1: (Seq<char>, u64),
    t2: Seq<u8>,
    p2: (Seq<char>, u64),
)
    requires
        is_signed_text(t1, p1, secret),
        is_signed_text(t2, p2, secret),
        p1 != p2,
    ensures
        segments(t1)[0] + dot() + segments(t1)[1] != segments(t2)[0] + dot() + segments(t2)[1],
{
    lemma_signed_segments(t1, p1, secret);
    lemma_signed_segments(t2, p2, secret);
    let h = default_header();
    let e0 = base64url_of(header_json(h.0, h.1));
    let e1 = base64url_of(payload_json(p1.0, p1.1));
    let e2 = base64url_of(payload_json(p2.0, p2.1));
    if e0 + dot() + e1 == e0 + dot() + e2 {
        assert(e1 =~= (e0 + dot() + e1).subrange((e0.len() + 1) as int, (e0 + dot() + e1).len() as int));
        assert(e2 =~= (e0 + dot() + e2).subrange((e0.len() + 1) as int, (e0 + dot() + e2).len() as int));
        assert(payload_json(p2.0, p2.1) == payload_json(p1.0, p1.1));
        lemma_payload_json_injective(p1.0, p1.1, p2.0, p2.1);
    }
}

/// The same name issued at two different times, for the same lifetime,
/// gives tokens whose signing inputs differ, as long as neither expiry is
/// cut off at the largest time.
pub proof fn lemma_reissued_claims_distinct_inputs(
    name: Seq<char>,
    now1: u64,
    now2: u64,
    ttl: u64,
    secret: Seq<u8>,
    t1: Seq<u8>,
    t2: Seq<u8>,
)
    requires
        now1 != now2,
        now1 + ttl <= u64::MAX,
        now2 + ttl <= u64::MAX,
        is_signed_text(t1, (name, expiry(now1, ttl)), secret),
        is_signed_text(t2, (name, expiry(now2, ttl)), secret),
    ensures
        segments(t1)[0] + dot() + segments(t1)[1] != segments(t2)[0] + dot() + segments(t2)[1],
{
    lemma_distinct_claims_distinct_inputs(
        secret,
        t1,
        (name, expiry(now1, ttl)),
        t2,
        (name, expiry(now2, ttl)),
    );
}

} // verus!
