//! Reading a token's text back into its header and claims. The signature
//! segment is not looked at here; `verify_signature` checks it.
use super::domain::{Header, Payload, Token};
use super::encoding::{base64url_decode, base64url_of, lemma_utf8_unique, string_from_utf8};
use super::error::DecodeError;
use super::json::{header_json, parse_header_json, parse_payload_json, payload_json};
use vstd::prelude::*;
use vstd::utf8::*;

verus! {

broadcast use encode_utf8_valid_utf8;

/// The pieces of `t` between its dots, as `split('.')` gives them.
pub open spec fn segments(t: Seq<u8>) -> Seq<Seq<u8>>
    decreases t.len(),
{
    if t.len() == 0 {
        seq![Seq::<u8>::empty()]
    } else {
        let s = segments(t.drop_last());
        if t.last() == 0x2e {
            s.push(Seq::empty())
        } else {
            s.update(s.len() - 1, s.last().push(t.last()))
        }
    }
}

/// `seg` is the base64url of the canonical text of header `h`.
pub open spec fn header_segment(seg: Seq<u8>, h: (Seq<char>, Seq<char>)) -> bool {
    base64url_of(header_json(h.0, h.1)) == seg
}

/// `seg` is the base64url of the canonical text of claims `p`.
pub open spec fn payload_segment(seg: Seq<u8>, p: (Seq<char>, u64)) -> bool {
    base64url_of(payload_json(p.0, p.1)) == seg
}

/// `t` is the text of a token with header and claims `tok`: three segments,
/// the first two encoding them. The third is not read.
pub open spec fn is_text_of(t: Seq<u8>, tok: ((Seq<char>, Seq<char>), (Seq<char>, u64))) -> bool {
    let parts = segments(t);
    &&& parts.len() == 3
    &&& header_segment(parts[0], tok.0)
    &&& payload_segment(parts[1], tok.1)
}

/// What decoding the text `t` gives: the one token whose text it is, or a
/// format error where there is none.
pub open spec fn decode_result(t: Seq<u8>, r: Result<Token, DecodeError>) -> bool {
    match r {
        Err(DecodeError::InvalidTokenFormat) => !exists|x| #[trigger] is_text_of(t, x),
        Ok(tok) => forall|x| #[trigger] is_text_of(t, x) <==> x == tok@,
    }
}

pub proof fn lemma_segments_nonempty(t: Seq<u8>)
    ensures
        segments(t).len() >= 1,
    decreases t.len(),
{
    if t.len() > 0 {
        lemma_segments_nonempty(t.drop_last());
    }
}

pub(crate) fn split_segments(t: &[u8]) -> (r: Vec<Vec<u8>>)
    ensures
        r@.len() == segments(t@).len(),
        forall|k: int| 0 <= k < r@.len() ==> (#[trigger] r@[k])@ == segments(t@)[k],
{
    let mut parts: Vec<Vec<u8>> = Vec::new();
    let mut cur: Vec<u8> = Vec::new();
    let mut i: usize = 0;
    assert(t@.take(0) =~= Seq::<u8>::empty());
    while i < t.len()
        invariant
            i <= t@.len(),
            parts@.len() + 1 == segments(t@.take(i as int)).len(),
            forall|k: int|
                0 <= k < parts@.len() ==> (#[trigger] parts@[k])@ == segments(t@.take(i as int))[k],
            cur@ == segments(t@.take(i as int)).last(),
        decreases t@.len() - i,
    {
        proof {
            lemma_segments_nonempty(t@.take(i as int));
            assert(t@.take(i + 1).drop_last() =~= t@.take(i as int));
            assert(t@.take(i + 1).last() == t@[i as int]);
        }
        if t[i] == 0x2e {
            parts.push(cur);
            cur = Vec::new();
            assert(cur@ =~= Seq::<u8>::empty());
        } else {
            cur.push(t[i]);
        }
        i = i + 1;
    }
    parts.push(cur);
    assert(t@.take(i as int) =~= t@);
    parts
}

fn decode_header(seg: &[u8]) -> (r: Option<Header>)
    ensures
        match r {
            Some(h) => forall|x| #[trigger] header_segment(seg@, x) <==> x == h@,
            None => forall|x| !#[trigger] header_segment(seg@, x),
        },
{
    let bytes = match base64url_decode(seg) {
        Some(b) => b,
        None => {
            return None;
        },
    };
    let (alg_bytes, typ_bytes) = match parse_header_json(bytes.as_slice()) {
        Some(fields) => fields,
        None => {
            return None;
        },
    };
    proof {
        assert forall|x: (Seq<char>, Seq<char>)| #[trigger] header_segment(seg@, x) implies alg_bytes@
            == encode_utf8(x.0) && typ_bytes@ == encode_utf8(x.1) by {
            assert(header_json(x.0, x.1) == bytes@);
        }
    }
    let alg = match string_from_utf8(alg_bytes) {
        Ok(s) => s,
        Err(_) => {
            return None;
        },
    };
    let typ = match string_from_utf8(typ_bytes) {
        Ok(s) => s,
        Err(_) => {
            return None;
        },
    };
    let h = Header { alg, typ };
    proof {
        assert(header_json(alg@, typ@) == bytes@);
        assert forall|x: (Seq<char>, Seq<char>)| #[trigger] header_segment(seg@, x) <==> x == h@ by {
            if header_segment(seg@, x) {
                lemma_utf8_unique(x.0, alg@);
                lemma_utf8_unique(x.1, typ@);
            }
        }
    }
    Some(h)
}

fn decode_payload(seg: &[u8]) -> (r: Option<Payload>)
    ensures
        match r {
            Some(p) => forall|x| #[trigger] payload_segment(seg@, x) <==> x == p@,
            None => forall|x| !#[trigger] payload_segment(seg@, x),
        },
{
    let bytes = match base64url_decode(seg) {
        Some(b) => b,
        None => {
            return None;
        },
    };
    let (name_bytes, exp) = match parse_payload_json(bytes.as_slice()) {
        Some(fields) => fields,
        None => {
            return None;
        },
    };
    proof {
        assert forall|x: (Seq<char>, u64)| #[trigger] payload_segment(seg@, x) implies name_bytes@
            == encode_utf8(x.0) && exp == x.1 by {
            assert(payload_json(x.0, x.1) == bytes@);
        }
    }
    let name = match string_from_utf8(name_bytes) {
        Ok(s) => s,
        Err(_) => {
            return None;
        },
    };
    let p = Payload { name, exp };
    proof {
        assert(payload_json(name@, exp) == bytes@);
        assert forall|x: (Seq<char>, u64)| #[trigger] payload_segment(seg@, x) <==> x == p@ by {
            if payload_segment(seg@, x) {
                lemma_utf8_unique(x.0, name@);
            }
        }
    }
    Some(p)
}

/// Splits a token's text into header and claims, without checking its
/// signature.
pub fn decode(token: &str) -> (r: Result<Token, DecodeError>)
    ensures
        decode_result(encode_utf8(token@), r),
        segments(encode_utf8(token@)).len() != 3 ==> r matches Err(
            DecodeError::InvalidTokenFormat,
        ),
{
    let bytes = token.as_bytes();
    let ghost t = encode_utf8(token@);
    let parts = split_segments(bytes);
    if parts.len() != 3 {
        return Err(DecodeError::InvalidTokenFormat);
    }
    assert(parts@[0]@ == segments(t)[0]);
    assert(parts@[1]@ == segments(t)[1]);
    let header = match decode_header(parts[0].as_slice()) {
        Some(h) => h,
        None => {
            return Err(DecodeError::InvalidTokenFormat);
        },
    };
    let payload = match decode_payload(parts[1].as_slice()) {
        Some(p) => p,
        None => {
            return Err(DecodeError::InvalidTokenFormat);
        },
    };
    let token = Token::new(header, payload);
    proof {
        assert forall|x| #[trigger] is_text_of(t, x) <==> x == token@ by {
            if x == token@ {
                assert(header_segment(segments(t)[0], x.0));
                assert(payload_segment(segments(t)[1], x.1));
            }
        }
    }
    Ok(token)
}

} // verus!
