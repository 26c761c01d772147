//! The URL-safe, unpadded base64 of every token segment, and the UTF-8 of its
//! text.
use base64::engine::general_purpose::URL_SAFE_NO_PAD;
use base64::Engine;
use vstd::prelude::*;
use vstd::utf8::*;

verus! {

#[verifier::external_type_specification]
#[verifier::external_body]
pub struct ExFromUtf8Error(std::string::FromUtf8Error);

/// The URL-safe base64 text of `b`, without padding.
pub uninterp spec fn base64url_of(b: Seq<u8>) -> Seq<u8>;

/// A byte of the URL-safe base64 alphabet: `A-Z`, `a-z`, `0-9`, `-` and `_`.
pub open spec fn is_base64url_byte(c: u8) -> bool {
    ||| 0x41 <= c <= 0x5a
    ||| 0x61 <= c <= 0x7a
    ||| 0x30 <= c <= 0x39
    ||| c == 0x2d
    ||| c == 0x5f
}

pub open spec fn is_base64url_text(s: Seq<u8>) -> bool {
    forall|i: int| 0 <= i < s.len() ==> is_base64url_byte(#[trigger] s[i])
}

/// `e` is the base64url text of `b`, and of nothing else; it is empty only
/// where `b` is.
pub open spec fn encodes(e: Seq<u8>, b: Seq<u8>) -> bool {
    &&& base64url_of(b) == e
    &&& is_base64url_text(e)
    &&& (b.len() > 0 ==> e.len() > 0)
    &&& forall|x: Seq<u8>| #[trigger] base64url_of(x) == e ==> x == b
}

/// Relies on base64's `URL_SAFE_NO_PAD` engine, `Engine::encode`: its output
/// holds only the URL-safe alphabet and no padding, it is empty only for an
/// empty input, and base64 is reversible, so no other input has the same
/// output.
#[verifier::external_body]
pub(crate) fn base64url_encode(b: &[u8]) -> (r: Vec<u8>)
    ensures
        encodes(r@, b@),
{
    URL_SAFE_NO_PAD.encode(b).into_bytes()
}

/// Relies on base64's `URL_SAFE_NO_PAD` engine, `Engine::decode`: it refuses
/// padding and nonzero trailing bits, so it accepts exactly the texts that
/// `encode` writes, and returns what was encoded. Its error is dropped.
#[verifier::external_body]
pub(crate) fn base64url_decode(s: &[u8]) -> (r: Option<Vec<u8>>)
    ensures
        match r {
            Some(b) => forall|x: Seq<u8>| #[trigger] base64url_of(x) == s@ <==> x == b@,
            None => forall|x: Seq<u8>| #[trigger] base64url_of(x) != s@,
        },
{
    URL_SAFE_NO_PAD.decode(s).ok()
}

/// Relies on `String::from_utf8`: it succeeds exactly on valid UTF-8 and then
/// holds those bytes.
#[verifier::external_body]
pub(crate) fn string_from_utf8(b: Vec<u8>) -> (r: Result<String, std::string::FromUtf8Error>)
    ensures
        r is Ok <==> valid_utf8(b@),
        r matches Ok(s) ==> encode_utf8(s@) == b@,
{
    String::from_utf8(b)
}

pub open spec fn is_ascii_bytes(b: Seq<u8>) -> bool {
    forall|i: int| 0 <= i < b.len() ==> #[trigger] b[i] < 0x80
}

pub proof fn lemma_ascii_valid_utf8(b: Seq<u8>)
    requires
        is_ascii_bytes(b),
    ensures
        valid_utf8(b),
    decreases b.len(),
{
    if b.len() > 0 {
        let c = b[0];
        assert((c & 0x7f) as u32 == c as u32) by (bit_vector)
            requires
                c < 0x80,
        ;
        assert(valid_first_scalar(b));
        let rest = b.subrange(1, b.len() as int);
        assert(pop_first_scalar(b) =~= rest);
        lemma_ascii_valid_utf8(rest);
    }
}

/// Strings with the same UTF-8 encoding are the same string.
pub proof fn lemma_utf8_unique(s: Seq<char>, t: Seq<char>)
    requires
        encode_utf8(s) == encode_utf8(t),
    ensures
        s == t,
{
    encode_utf8_decode_utf8(s);
    encode_utf8_decode_utf8(t);
}

} // verus!
