//! The canonical JSON text of a token's header and claims.
//!
//! Both objects have a fixed shape, so their text is written here byte by
//! byte, with the escapes that serde_json chooses, and read back only in that
//! exact form: a reader accepts a text if and only if it is the canonical text
//! of some value, and then returns that value.
use vstd::prelude::*;
use vstd::utf8::*;

verus! {

/// The lowercase hexadecimal digit of `n < 16`.
pub open spec fn hex_digit(n: int) -> u8 {
    if n < 10 {
        (0x30 + n) as u8
    } else {
        (0x61 + n - 10) as u8
    }
}

/// The JSON text of one byte of a string's UTF-8 encoding.
pub open spec fn escaped_byte(b: u8) -> Seq<u8> {
    if b == 0x22 {
        seq![0x5cu8, 0x22u8]
    } else if b == 0x5c {
        seq![0x5cu8, 0x5cu8]
    } else if b == 0x08 {
        seq![0x5cu8, 0x62u8]
    } else if b == 0x0c {
        seq![0x5cu8, 0x66u8]
    } else if b == 0x0a {
        seq![0x5cu8, 0x6eu8]
    } else if b == 0x0d {
        seq![0x5cu8, 0x72u8]
    } else if b == 0x09 {
        seq![0x5cu8, 0x74u8]
    } else if b < 0x20 {
        seq![0x5cu8, 0x75u8, 0x30u8, 0x30u8, hex_digit((b / 16) as int), hex_digit((b % 16) as int)]
    } else {
        seq![b]
    }
}

/// The escaped body of a JSON string whose UTF-8 encoding is `s`.
pub open spec fn escaped(s: Seq<u8>) -> Seq<u8>
    decreases s.len(),
{
    if s.len() == 0 {
        Seq::empty()
    } else {
        escaped(s.drop_last()) + escaped_byte(s.last())
    }
}

/// A JSON string literal: the escaped bytes between two quotes.
pub open spec fn json_string(s: Seq<u8>) -> Seq<u8> {
    seq![0x22u8] + escaped(s) + seq![0x22u8]
}

/// The decimal digits of `n`, without leading zeros.
pub open spec fn decimal(n: nat) -> Seq<u8>
    decreases n,
{
    if n < 10 {
        seq![(0x30 + n) as u8]
    } else {
        decimal(n / 10).push((0x30 + n % 10) as u8)
    }
}

/// `{"alg":`
pub open spec fn alg_key() -> Seq<u8> {
    seq![0x7bu8, 0x22u8, 0x61u8, 0x6cu8, 0x67u8, 0x22u8, 0x3au8]
}

/// `,"typ":`
pub open spec fn typ_key() -> Seq<u8> {
    seq![0x2cu8, 0x22u8, 0x74u8, 0x79u8, 0x70u8, 0x22u8, 0x3au8]
}

/// `{"name":`
pub open spec fn name_key() -> Seq<u8> {
    seq![0x7bu8, 0x22u8, 0x6eu8, 0x61u8, 0x6du8, 0x65u8, 0x22u8, 0x3au8]
}

/// `,"exp":`
pub open spec fn exp_key() -> Seq<u8> {
    seq![0x2cu8, 0x22u8, 0x65u8, 0x78u8, 0x70u8, 0x22u8, 0x3au8]
}

/// `}`
pub open spec fn close_brace() -> Seq<u8> {
    seq![0x7du8]
}

/// `{"alg":"<alg>","typ":"<typ>"}`, over the UTF-8 bytes of the two fields.
pub open spec fn header_json_bytes(alg: Seq<u8>, typ: Seq<u8>) -> Seq<u8> {
    alg_key() + json_string(alg) + typ_key() + json_string(typ) + close_brace()
}

/// `{"name":"<name>","exp":<exp>}`, over the UTF-8 bytes of the name.
pub open spec fn payload_json_bytes(name: Seq<u8>, exp: u64) -> Seq<u8> {
    name_key() + json_string(name) + exp_key() + decimal(exp as nat) + close_brace()
}

/// The canonical text of a header with the given fields.
pub open spec fn header_json(alg: Seq<char>, typ: Seq<char>) -> Seq<u8> {
    header_json_bytes(encode_utf8(alg), encode_utf8(typ))
}

/// The canonical text of claims with the given subject and expiry.
pub open spec fn payload_json(name: Seq<char>, exp: u64) -> Seq<u8> {
    payload_json_bytes(encode_utf8(name), exp)
}

/// `b` holds `lit` from index `pos` on.
pub open spec fn holds_at(b: Seq<u8>, pos: int, lit: Seq<u8>) -> bool {
    0 <= pos && pos + lit.len() <= b.len() && b.subrange(pos, pos + lit.len()) == lit
}

/// The value of a sequence of decimal digits.
pub open spec fn digits_value(s: Seq<u8>) -> nat
    decreases s.len(),
{
    if s.len() == 0 {
        0
    } else {
        digits_value(s.drop_last()) * 10 + (s.last() - 0x30) as nat
    }
}

pub open spec fn is_digit(c: u8) -> bool {
    0x30 <= c <= 0x39
}

/// Nonempty decimal digits with no leading zero (but for `0` itself).
pub open spec fn canonical_digits(s: Seq<u8>) -> bool {
    &&& s.len() > 0
    &&& forall|k: int| 0 <= k < s.len() ==> is_digit(#[trigger] s[k])
    &&& s.len() > 1 ==> s[0] != 0x30
}

proof fn lemma_escaped_append(a: Seq<u8>, b: Seq<u8>)
    ensures
        escaped(a + b) == escaped(a) + escaped(b),
    decreases b.len(),
{
    if b.len() == 0 {
        assert(a + b =~= a);
        assert(escaped(a) + escaped(b) =~= escaped(a));
    } else {
        assert((a + b).drop_last() =~= a + b.drop_last());
        assert((a + b).last() == b.last());
        lemma_escaped_append(a, b.drop_last());
        assert(escaped(a + b) =~= escaped(a) + escaped(b));
    }
}

proof fn lemma_escaped_single(x: u8)
    ensures
        escaped(seq![x]) == escaped_byte(x),
{
    assert(seq![x].drop_last() =~= Seq::<u8>::empty());
    assert(seq![x].last() == x);
    assert(escaped(Seq::<u8>::empty()) =~= Seq::<u8>::empty());
    assert(escaped(seq![x]) =~= escaped_byte(x));
}

proof fn lemma_escape_head(x: u8)
    ensures
        x >= 0x20 && x != 0x22 && x != 0x5c ==> escaped_byte(x) == seq![x],
        x < 0x20 || x == 0x22 || x == 0x5c ==> escaped_byte(x).len() >= 2 && escaped_byte(x)[0]
            == 0x5c,
        x == 0x22 ==> escaped_byte(x)[1] == 0x22,
        x == 0x5c ==> escaped_byte(x)[1] == 0x5c,
        x == 0x08 ==> escaped_byte(x)[1] == 0x62,
        x == 0x0c ==> escaped_byte(x)[1] == 0x66,
        x == 0x0a ==> escaped_byte(x)[1] == 0x6e,
        x == 0x0d ==> escaped_byte(x)[1] == 0x72,
        x == 0x09 ==> escaped_byte(x)[1] == 0x74,
        x < 0x20 && x != 0x08 && x != 0x09 && x != 0x0a && x != 0x0c && x != 0x0d ==> escaped_byte(
            x,
        ) == seq![0x5cu8, 0x75u8, 0x30u8, 0x30u8, hex_digit((x / 16) as int), hex_digit((x % 16) as int)],
{
}

proof fn lemma_escaped_byte_shape(x: u8)
    ensures
        1 <= escaped_byte(x).len() <= 6,
        escaped_byte(x)[0] != 0x22,
{
}

/// Where a JSON string `v` stands at `pos`, and `out` is a prefix of `v`, the
/// byte after the escapes of `out` is the closing quote or the start of the
/// escape of the next byte of `v`.
proof fn lemma_string_step(b: Seq<u8>, pos: int, v: Seq<u8>, out: Seq<u8>)
    requires
        holds_at(b, pos, json_string(v)),
        out.len() <= v.len(),
        out == v.take(out.len() as int),
    ensures
        pos + 1 + escaped(out).len() < b.len(),
        out.len() == v.len() ==> b[pos + 1 + escaped(out).len()] == 0x22,
        out.len() < v.len() ==> holds_at(
            b,
            pos + 1 + escaped(out).len(),
            escaped_byte(v[out.len() as int]),
        ),
{
    let k = out.len() as int;
    let rest = v.skip(k);
    assert(v =~= out + rest);
    lemma_escaped_append(out, rest);
    let js = json_string(v);
    assert(js =~= seq![0x22u8] + escaped(out) + escaped(rest) + seq![0x22u8]);
    let at = pos + 1 + escaped(out).len();
    assert forall|j: int| 0 <= j < js.len() implies b[pos + j] == js[j] by {
        assert(b.subrange(pos, pos + js.len())[j] == b[pos + j]);
    }
    if k == v.len() {
        assert(rest.len() == 0);
        assert(js[1 + escaped(out).len() as int] == 0x22);
    } else {
        let x = v[k];
        assert(rest =~= seq![x] + rest.skip(1));
        lemma_escaped_append(seq![x], rest.skip(1));
        lemma_escaped_single(x);
        let e = escaped_byte(x);
        assert(escaped(rest) == e + escaped(rest.skip(1)));
        assert forall|j: int| 0 <= j < e.len() implies b[at + j] == e[j] by {
            assert(js[1 + escaped(out).len() + j] == e[j]);
        }
        assert(b.subrange(at, at + e.len()) =~= e);
    }
}

fn push_hex_digit(out: &mut Vec<u8>, n: u8)
    requires
        n < 16,
    ensures
        final(out)@ == old(out)@.push(hex_digit(n as int)),
{
    if n < 10 {
        out.push(0x30 + n);
    } else {
        out.push(0x61 + n - 10);
    }
}

fn push_escaped_byte(out: &mut Vec<u8>, b: u8)
    ensures
        final(out)@ == old(out)@ + escaped_byte(b),
{
    let ghost start = out@;
    if b == 0x22 || b == 0x5c {
        out.push(0x5c);
        out.push(b);
    } else if b == 0x08 {
        out.push(0x5c);
        out.push(0x62);
    } else if b == 0x0c {
        out.push(0x5c);
        out.push(0x66);
    } else if b == 0x0a {
        out.push(0x5c);
        out.push(0x6e);
    } else if b == 0x0d {
        out.push(0x5c);
        out.push(0x72);
    } else if b == 0x09 {
        out.push(0x5c);
        out.push(0x74);
    } else if b < 0x20 {
        out.push(0x5c);
        out.push(0x75);
        out.push(0x30);
        out.push(0x30);
        push_hex_digit(out, b / 16);
        push_hex_digit(out, b % 16);
    } else {
        out.push(b);
    }
    assert(out@ =~= start + escaped_byte(b));
}

/// Appends `json_string(s)`.
fn push_json_string(out: &mut Vec<u8>, s: &[u8])
    ensures
        final(out)@ == old(out)@ + json_string(s@),
{
    let ghost start = out@;
    out.push(0x22);
    let mut i: usize = 0;
    while i < s.len()
        invariant
            i <= s@.len(),
            out@ == start + seq![0x22u8] + escaped(s@.take(i as int)),
        decreases s@.len() - i,
    {
        let ghost before = out@;
        push_escaped_byte(out, s[i]);
        proof {
            assert(s@.take(i + 1).drop_last() =~= s@.take(i as int));
            assert(out@ =~= start + seq![0x22u8] + escaped(s@.take(i + 1)));
        }
        i = i + 1;
    }
    out.push(0x22);
    assert(s@.take(i as int) =~= s@);
    assert(out@ =~= start + json_string(s@));
}

/// Appends `decimal(n)`.
fn push_decimal(out: &mut Vec<u8>, n: u64)
    ensures
        final(out)@ == old(out)@ + decimal(n as nat),
    decreases n,
{
    let ghost start = out@;
    if n >= 10 {
        push_decimal(out, n / 10);
    }
    out.push(0x30 + (n % 10) as u8);
    assert(out@ =~= start + decimal(n as nat));
}

pub(crate) fn push_all(out: &mut Vec<u8>, lit: &[u8])
    ensures
        final(out)@ == old(out)@ + lit@,
{
    let ghost start = out@;
    let mut i: usize = 0;
    while i < lit.len()
        invariant
            i <= lit@.len(),
            out@ == start + lit@.take(i as int),
        decreases lit@.len() - i,
    {
        out.push(lit[i]);
        assert(lit@.take(i + 1) =~= lit@.take(i as int).push(lit@[i as int]));
        i = i + 1;
    }
    assert(lit@.take(i as int) =~= lit@);
}

proof fn lemma_digits_value_step(s: Seq<u8>, k: int)
    requires
        0 <= k < s.len(),
    ensures
        digits_value(s.take(k + 1)) == digits_value(s.take(k)) * 10 + (s[k] - 0x30) as nat,
{
    assert(s.take(k + 1).drop_last() =~= s.take(k));
}

proof fn lemma_value_prefix(s: Seq<u8>, k: int)
    requires
        0 <= k <= s.len(),
    ensures
        digits_value(s.take(k)) <= digits_value(s),
    decreases s.len(),
{
    if k < s.len() {
        lemma_value_prefix(s.drop_last(), k);
        assert(s.drop_last().take(k) =~= s.take(k));
    } else {
        assert(s.take(k) =~= s);
    }
}

proof fn lemma_value_positive(s: Seq<u8>)
    requires
        canonical_digits(s),
        s[0] != 0x30,
    ensures
        digits_value(s) >= 1,
    decreases s.len(),
{
    if s.len() > 1 {
        let t = s.drop_last();
        assert(t[0] == s[0]);
        assert(canonical_digits(t));
        lemma_value_positive(t);
    }
}

proof fn lemma_decimal_canonical(n: nat)
    ensures
        canonical_digits(decimal(n)),
        digits_value(decimal(n)) == n,
        n >= 1 ==> decimal(n)[0] != 0x30,
    decreases n,
{
    if n < 10 {
        let d = decimal(n);
        assert(d.drop_last() =~= Seq::<u8>::empty());
        assert(digits_value(Seq::<u8>::empty()) == 0);
        assert(d.last() == (0x30 + n) as u8);
    } else {
        lemma_decimal_canonical(n / 10);
        let d = decimal(n);
        assert(d.drop_last() =~= decimal(n / 10));
        assert(d.last() == (0x30 + n % 10) as u8);
        assert(d[0] == decimal(n / 10)[0]);
        assert((n / 10) * 10 + n % 10 == n) by (nonlinear_arith);
    }
}

proof fn lemma_canonical_decimal(s: Seq<u8>)
    requires
        canonical_digits(s),
    ensures
        decimal(digits_value(s)) == s,
    decreases s.len(),
{
    if s.len() == 1 {
        assert(s.drop_last() =~= Seq::<u8>::empty());
        assert(digits_value(Seq::<u8>::empty()) == 0);
        assert(is_digit(s[0]));
        assert(digits_value(s) == (s[0] - 0x30) as nat);
        assert(decimal(digits_value(s)) =~= s);
    } else {
        let t = s.drop_last();
        assert(t[0] == s[0]);
        assert(canonical_digits(t));
        lemma_canonical_decimal(t);
        lemma_value_positive(t);
        let v = digits_value(s);
        let d = (s.last() - 0x30) as nat;
        assert(v == digits_value(t) * 10 + d);
        assert(d < 10);
        assert(v / 10 == digits_value(t) && v % 10 == d) by (nonlinear_arith)
            requires
                v == digits_value(t) * 10 + d,
                d < 10,
        ;
        assert(decimal(v) =~= s);
    }
}

proof fn lemma_holds_concat(pre: Seq<u8>, mid: Seq<u8>, post: Seq<u8>)
    ensures
        holds_at(pre + mid + post, pre.len() as int, mid),
{
    assert((pre + mid + post).subrange(pre.len() as int, (pre.len() + mid.len()) as int) =~= mid);
}

proof fn lemma_holds_index(b: Seq<u8>, pos: int, lit: Seq<u8>, j: int)
    requires
        holds_at(b, pos, lit),
        0 <= j < lit.len(),
    ensures
        b[pos + j] == lit[j],
{
    assert(b.subrange(pos, pos + lit.len())[j] == b[pos + j]);
}

/// No two bytes have escapes that both stand at the same place.
proof fn lemma_escape_unique(b: Seq<u8>, i: int, x: u8, y: u8)
    requires
        holds_at(b, i, escaped_byte(x)),
        holds_at(b, i, escaped_byte(y)),
    ensures
        x == y,
{
    lemma_escape_head(x);
    lemma_escape_head(y);
    lemma_escaped_byte_shape(x);
    lemma_escaped_byte_shape(y);
    lemma_holds_index(b, i, escaped_byte(x), 0);
    lemma_holds_index(b, i, escaped_byte(y), 0);
    if escaped_byte(x).len() >= 2 && escaped_byte(y).len() >= 2 {
        lemma_holds_index(b, i, escaped_byte(x), 1);
        lemma_holds_index(b, i, escaped_byte(y), 1);
        if escaped_byte(x).len() == 6 && escaped_byte(y).len() == 6 {
            lemma_holds_index(b, i, escaped_byte(x), 4);
            lemma_holds_index(b, i, escaped_byte(y), 4);
            lemma_holds_index(b, i, escaped_byte(x), 5);
            lemma_holds_index(b, i, escaped_byte(y), 5);
            assert(x == 16 * (x / 16) + x % 16);
            assert(y == 16 * (y / 16) + y % 16);
        }
    }
}

proof fn lemma_json_string_unique_from(b: Seq<u8>, pos: int, v1: Seq<u8>, v2: Seq<u8>, k: int)
    requires
        holds_at(b, pos, json_string(v1)),
        holds_at(b, pos, json_string(v2)),
        0 <= k <= v1.len(),
        k <= v2.len(),
        v1.take(k) == v2.take(k),
    ensures
        v1 == v2,
    decreases v1.len() - k,
{
    let out = v1.take(k);
    lemma_string_step(b, pos, v1, out);
    lemma_string_step(b, pos, v2, out);
    let at = pos + 1 + escaped(out).len();
    if k < v1.len() {
        lemma_escaped_byte_shape(v1[k]);
        lemma_holds_index(b, at, escaped_byte(v1[k]), 0);
    }
    if k < v2.len() {
        lemma_escaped_byte_shape(v2[k]);
        lemma_holds_index(b, at, escaped_byte(v2[k]), 0);
    }
    if k == v1.len() && k == v2.len() {
        assert(v1 =~= v1.take(k));
        assert(v2 =~= v2.take(k));
    } else if k < v1.len() && k < v2.len() {
        lemma_escape_unique(b, at, v1[k], v2[k]);
        assert(v1.take(k + 1) =~= v1.take(k).push(v1[k]));
        assert(v2.take(k + 1) =~= v2.take(k).push(v2[k]));
        lemma_json_string_unique_from(b, pos, v1, v2, k + 1);
    }
}

/// The canonical text of claims determines the claims.
pub proof fn lemma_payload_json_injective(n1: Seq<char>, e1: u64, n2: Seq<char>, e2: u64)
    requires
        payload_json(n1, e1) == payload_json(n2, e2),
    ensures
        n1 == n2,
        e1 == e2,
{
    let b = payload_json(n1, e1);
    let js1 = json_string(encode_utf8(n1));
    let js2 = json_string(encode_utf8(n2));
    let d1 = decimal(e1 as nat);
    let d2 = decimal(e2 as nat);
    assert(b =~= name_key() + js1 + (exp_key() + d1 + close_brace()));
    assert(b =~= name_key() + js2 + (exp_key() + d2 + close_brace()));
    lemma_holds_concat(name_key(), js1, exp_key() + d1 + close_brace());
    lemma_holds_concat(name_key(), js2, exp_key() + d2 + close_brace());
    assert(encode_utf8(n1).take(0) =~= encode_utf8(n2).take(0));
    lemma_json_string_unique_from(b, 8, encode_utf8(n1), encode_utf8(n2), 0);
    encode_utf8_decode_utf8(n1);
    encode_utf8_decode_utf8(n2);
    let start = (8 + js1.len() + 7) as int;
    assert(b.subrange(start, b.len() - 1 as int) =~= d1);
    assert(b.subrange(start, b.len() - 1 as int) =~= d2);
    lemma_decimal_canonical(e1 as nat);
    lemma_decimal_canonical(e2 as nat);
}

/// Whether `b` holds `lit` from index `pos` on.
fn matches_at(b: &[u8], pos: usize, lit: &[u8]) -> (r: bool)
    ensures
        r == holds_at(b@, pos as int, lit@),
{
    if pos > b.len() || lit.len() > b.len() - pos {
        return false;
    }
    let mut i: usize = 0;
    while i < lit.len()
        invariant
            i <= lit@.len(),
            lit@.len() == lit.len(),
            b@.len() == b.len(),
            pos + lit.len() <= b.len(),
            forall|k: int| 0 <= k < i ==> b@[pos + k] == lit@[k],
        decreases lit@.len() - i,
    {
        if b[pos + i] != lit[i] {
            assert(b@.subrange(pos as int, pos + lit@.len())[i as int] != lit@[i as int]);
            return false;
        }
        i = i + 1;
    }
    assert(b@.subrange(pos as int, pos + lit@.len()) =~= lit@);
    true
}

/// The value of a lowercase hexadecimal digit.
fn hex_value(c: u8) -> (r: Option<u8>)
    ensures
        r matches Some(n) ==> n < 16 && hex_digit(n as int) == c,
        forall|n: int| 0 <= n < 16 && hex_digit(n) == c ==> r == Some(n as u8),
{
    if 0x30 <= c && c <= 0x39 {
        Some(c - 0x30)
    } else if 0x61 <= c && c <= 0x66 {
        Some(c - 0x61 + 10)
    } else {
        None
    }
}

/// Reads the escape of one byte at `i`, where no closing quote stands.
fn unescape_at(b: &[u8], i: usize) -> (r: Option<(u8, usize)>)
    requires
        i < b@.len(),
        b@[i as int] != 0x22,
    ensures
        r matches Some((x, n)) ==> n == escaped_byte(x).len() && holds_at(
            b@,
            i as int,
            escaped_byte(x),
        ),
        forall|x: u8|
            holds_at(b@, i as int, #[trigger] escaped_byte(x)) ==> r == Some(
                (x, escaped_byte(x).len() as usize),
            ),
{
    proof {
        assert forall|x: u8, k: int|
            holds_at(b@, i as int, escaped_byte(x)) && 0 <= k < escaped_byte(x).len()
                implies b@[i + k] == #[trigger] escaped_byte(x)[k] by {
            assert(b@.subrange(i as int, i + escaped_byte(x).len())[k] == b@[i + k]);
        }
    }
    proof {
        assert forall|x: u8| holds_at(b@, i as int, #[trigger] escaped_byte(x)) implies b@[i as int]
            == escaped_byte(x)[0] && (escaped_byte(x).len() >= 2 ==> b@[i + 1] == escaped_byte(x)[1]) by {
            lemma_escape_head(x);
            lemma_escaped_byte_shape(x);
        }
    }
    let c = b[i];
    if c != 0x5c {
        proof {
            assert forall|x: u8| holds_at(b@, i as int, #[trigger] escaped_byte(x)) implies x == c by {
                lemma_escape_head(x);
            }
        }
        if c < 0x20 {
            return None;
        }
        assert(b@.subrange(i as int, i + 1) =~= escaped_byte(c));
        return Some((c, 1));
    }
    proof {
        assert forall|x: u8| holds_at(b@, i as int, #[trigger] escaped_byte(x)) implies x < 0x20 || x
            == 0x22 || x == 0x5c by {
            lemma_escape_head(x);
        }
    }
    if i + 1 >= b.len() {
        proof {
            assert forall|x: u8| holds_at(b@, i as int, #[trigger] escaped_byte(x)) implies false by {
                lemma_escape_head(x);
            }
        }
        return None;
    }
    let d = b[i + 1];
    let short: Option<u8> = if d == 0x22 {
        Some(0x22)
    } else if d == 0x5c {
        Some(0x5c)
    } else if d == 0x62 {
        Some(0x08)
    } else if d == 0x66 {
        Some(0x0c)
    } else if d == 0x6e {
        Some(0x0a)
    } else if d == 0x72 {
        Some(0x0d)
    } else if d == 0x74 {
        Some(0x09)
    } else {
        None
    };
    if let Some(x) = short {
        assert(b@.subrange(i as int, i + 2) =~= escaped_byte(x));
        proof {
            assert forall|y: u8| holds_at(b@, i as int, #[trigger] escaped_byte(y)) implies y == x by {
                lemma_escape_head(y);
            }
        }
        return Some((x, 2));
    }
    proof {
        assert forall|y: u8| holds_at(b@, i as int, #[trigger] escaped_byte(y)) implies y < 0x20 && y
            != 0x08 && y != 0x09 && y != 0x0a && y != 0x0c && y != 0x0d && escaped_byte(y).len()
            == 6 && b@[i + 1] == 0x75 && b@[i + 2] == 0x30 && b@[i + 3] == 0x30 && b@[i + 4]
            == hex_digit((y / 16) as int) && b@[i + 5] == hex_digit((y % 16) as int) by {
            lemma_escape_head(y);
            let e = escaped_byte(y);
            assert(b@.subrange(i as int, i + e.len())[2] == b@[i + 2]);
            assert(b@.subrange(i as int, i + e.len())[3] == b@[i + 3]);
            assert(b@.subrange(i as int, i + e.len())[4] == b@[i + 4]);
            assert(b@.subrange(i as int, i + e.len())[5] == b@[i + 5]);
        }
    }
    if d != 0x75 || b.len() - i <= 5 || b[i + 2] != 0x30 || b[i + 3] != 0x30 {
        return None;
    }
    let h1 = b[i + 4];
    if h1 != 0x30 && h1 != 0x31 {
        return None;
    }
    let low = match hex_value(b[i + 5]) {
        Some(n) => n,
        None => {
            return None;
        },
    };
    let x: u8 = if h1 == 0x31 {
        16 + low
    } else {
        low
    };
    if x == 0x08 || x == 0x09 || x == 0x0a || x == 0x0c || x == 0x0d {
        return None;
    }
    assert(x / 16 == (if h1 == 0x31 { 1u8 } else { 0u8 }));
    assert(x % 16 == low);
    assert(b@.subrange(i as int, i + 6) =~= escaped_byte(x));
    Some((x, 6))
}

/// Reads a JSON string literal that starts at `pos`: its bytes and the index
/// just after its closing quote.
fn parse_string(b: &[u8], pos: usize) -> (r: Option<(Vec<u8>, usize)>)
    ensures
        r matches Some((v, end)) ==> end == pos + json_string(v@).len() && holds_at(
            b@,
            pos as int,
            json_string(v@),
        ),
        forall|v: Seq<u8>|
            holds_at(b@, pos as int, #[trigger] json_string(v)) ==> (r matches Some((w, end)) && w@
                == v && end == pos + json_string(v).len()),
{
    if pos >= b.len() || b[pos] != 0x22 {
        proof {
            assert forall|v: Seq<u8>| holds_at(b@, pos as int, #[trigger] json_string(v)) implies false by {
                assert(b@.subrange(pos as int, pos + json_string(v).len())[0] == b@[pos as int]);
            }
        }
        return None;
    }
    let mut out: Vec<u8> = Vec::new();
    let mut i: usize = pos + 1;
    assert(b@.subrange(pos as int, i as int) =~= seq![0x22u8] + escaped(out@));
    loop
        invariant
            pos < i <= b@.len(),
            b@.subrange(pos as int, i as int) == seq![0x22u8] + escaped(out@),
            forall|v: Seq<u8>|
                holds_at(b@, pos as int, #[trigger] json_string(v)) ==> out@.len() <= v.len()
                    && out@ == v.take(out@.len() as int),
        decreases b@.len() - i,
    {
        proof {
            assert(b@.subrange(pos as int, i as int).len() == i - pos);
            assert forall|v: Seq<u8>| holds_at(b@, pos as int, #[trigger] json_string(v)) implies
                i == pos + 1 + escaped(out@).len() && i < b@.len() by {
                lemma_string_step(b@, pos as int, v, out@);
            }
        }
        if i >= b.len() {
            return None;
        }
        let c = b[i];
        if c == 0x22 {
            proof {
                assert(b@.subrange(pos as int, i + 1) =~= json_string(out@));
                assert forall|v: Seq<u8>| holds_at(b@, pos as int, #[trigger] json_string(v)) implies v
                    == out@ by {
                    lemma_string_step(b@, pos as int, v, out@);
                    if out@.len() < v.len() {
                        let e = escaped_byte(v[out@.len() as int]);
                        lemma_escaped_byte_shape(v[out@.len() as int]);
                        assert(b@.subrange(i as int, i + e.len())[0] == b@[i as int]);
                    }
                    assert(v =~= v.take(out@.len() as int));
                }
            }
            return Some((out, i + 1));
        }
        let ghost prev = out@;
        match unescape_at(b, i) {
            None => {
                proof {
                    assert forall|v: Seq<u8>| holds_at(b@, pos as int, #[trigger] json_string(v)) implies false by {
                        lemma_string_step(b@, pos as int, v, out@);
                    }
                }
                return None;
            },
            Some((x, n)) => {
                proof {
                    assert forall|v: Seq<u8>| holds_at(b@, pos as int, #[trigger] json_string(v)) implies
                        prev.len() < v.len() && v[prev.len() as int] == x by {
                        lemma_string_step(b@, pos as int, v, prev);
                    }
                }
                out.push(x);
                proof {
                    assert(out@.drop_last() =~= prev);
                    assert(b@.subrange(pos as int, i + n) =~= b@.subrange(pos as int, i as int)
                        + b@.subrange(i as int, i + n));
                    assert forall|v: Seq<u8>| holds_at(b@, pos as int, #[trigger] json_string(v)) implies
                        out@.len() <= v.len() && out@ == v.take(out@.len() as int) by {
                        assert(prev == v.take(prev.len() as int));
                        assert(out@ =~= v.take(out@.len() as int));
                    }
                }
                i = i + n;
            },
        }
    }
}

/// Reads the decimal digits of `b[start..end]` as a `u64`.
fn parse_u64(b: &[u8], start: usize, end: usize) -> (r: Option<u64>)
    requires
        start <= end <= b@.len(),
    ensures
        r matches Some(n) ==> b@.subrange(start as int, end as int) == decimal(n as nat),
        forall|n: u64|
            b@.subrange(start as int, end as int) == #[trigger] decimal(n as nat) ==> r == Some(n),
{
    let ghost s = b@.subrange(start as int, end as int);
    proof {
        assert forall|n: u64| s == #[trigger] decimal(n as nat) implies canonical_digits(s)
            && digits_value(s) == n by {
            lemma_decimal_canonical(n as nat);
        }
    }
    if start == end {
        return None;
    }
    if end - start > 1 && b[start] == 0x30 {
        assert(s[0] == b@[start as int]);
        return None;
    }
    let mut acc: u64 = 0;
    let mut i: usize = start;
    assert(s.take(0) =~= Seq::<u8>::empty());
    while i < end
        invariant
            start <= i <= end <= b@.len(),
            s == b@.subrange(start as int, end as int),
            s.len() == end - start,
            acc == digits_value(s.take(i - start)),
            forall|k: int| 0 <= k < i - start ==> is_digit(#[trigger] s[k]),
            forall|n: u64| s == #[trigger] decimal(n as nat) ==> canonical_digits(s)
                && digits_value(s) == n,
        decreases end - i,
    {
        let c = b[i];
        assert(s[i - start] == c);
        if c < 0x30 || c > 0x39 {
            return None;
        }
        let d: u64 = (c - 0x30) as u64;
        proof {
            lemma_digits_value_step(s, i - start);
            lemma_value_prefix(s, i - start + 1);
        }
        let m = match acc.checked_mul(10) {
            Some(m) => m,
            None => {
                return None;
            },
        };
        acc = match m.checked_add(d) {
            Some(a) => a,
            None => {
                return None;
            },
        };
        i = i + 1;
    }
    proof {
        assert(s.take(end - start) =~= s);
        assert(s.len() > 1 ==> s[0] == b@[start as int]);
        assert(canonical_digits(s));
        lemma_canonical_decimal(s);
    }
    Some(acc)
}

/// Reads a canonical header text, giving the UTF-8 bytes of its `alg` and
/// `typ` fields.
pub fn parse_header_json(b: &[u8]) -> (r: Option<(Vec<u8>, Vec<u8>)>)
    ensures
        r matches Some((alg, typ)) ==> b@ == header_json_bytes(alg@, typ@),
        forall|alg: Seq<u8>, typ: Seq<u8>|
            b@ == #[trigger] header_json_bytes(alg, typ) ==> (r matches Some((x, y)) && x@ == alg
                && y@ == typ),
{
    let open_alg: [u8; 7] = [0x7b, 0x22, 0x61, 0x6c, 0x67, 0x22, 0x3a];
    let open_typ: [u8; 7] = [0x2c, 0x22, 0x74, 0x79, 0x70, 0x22, 0x3a];
    assert(open_alg@ =~= alg_key());
    assert(open_typ@ =~= typ_key());
    proof {
        assert forall|alg: Seq<u8>, typ: Seq<u8>| b@ == #[trigger] header_json_bytes(alg, typ) implies {
            let p1 = (7 + json_string(alg).len()) as int;
            &&& holds_at(b@, 0, alg_key())
            &&& holds_at(b@, 7, json_string(alg))
            &&& holds_at(b@, p1, typ_key())
            &&& holds_at(b@, p1 + 7, json_string(typ))
            &&& b@.len() == p1 + 7 + json_string(typ).len() + 1
            &&& b@[p1 + 7 + json_string(typ).len() as int] == 0x7d
        } by {
            let js1 = json_string(alg);
            let js2 = json_string(typ);
            lemma_holds_concat(Seq::empty(), alg_key(), js1 + typ_key() + js2 + close_brace());
            assert(b@ =~= Seq::empty() + alg_key() + (js1 + typ_key() + js2 + close_brace()));
            lemma_holds_concat(alg_key(), js1, typ_key() + js2 + close_brace());
            assert(b@ =~= alg_key() + js1 + (typ_key() + js2 + close_brace()));
            lemma_holds_concat(alg_key() + js1, typ_key(), js2 + close_brace());
            assert(b@ =~= alg_key() + js1 + typ_key() + (js2 + close_brace()));
            lemma_holds_concat(alg_key() + js1 + typ_key(), js2, close_brace());
        }
    }
    if !matches_at(b, 0, open_alg.as_slice()) {
        return None;
    }
    let (alg, p1) = match parse_string(b, 7) {
        Some(found) => found,
        None => {
            return None;
        },
    };
    if !matches_at(b, p1, open_typ.as_slice()) {
        return None;
    }
    assert(open_typ@.len() == 7);
    assert(p1 + 7 <= b.len());
    let (typ, p2) = match parse_string(b, p1 + 7) {
        Some(found) => found,
        None => {
            return None;
        },
    };
    if p2 >= b.len() || p2 + 1 != b.len() || b[p2] != 0x7d {
        return None;
    }
    proof {
        assert(b@ =~= b@.subrange(0, 7) + b@.subrange(7, p1 as int) + b@.subrange(
            p1 as int,
            p1 + 7,
        ) + b@.subrange(p1 + 7, p2 as int) + b@.subrange(p2 as int, p2 + 1));
        assert(b@.subrange(p2 as int, p2 + 1) =~= close_brace());
    }
    Some((alg, typ))
}

/// Reads a canonical claims text, giving the UTF-8 bytes of its `name` and
/// its `exp`.
pub fn parse_payload_json(b: &[u8]) -> (r: Option<(Vec<u8>, u64)>)
    ensures
        r matches Some((name, exp)) ==> b@ == payload_json_bytes(name@, exp),
        forall|name: Seq<u8>, exp: u64|
            b@ == #[trigger] payload_json_bytes(name, exp) ==> (r matches Some((x, y)) && x@
                == name && y == exp),
{
    let open_name: [u8; 8] = [0x7b, 0x22, 0x6e, 0x61, 0x6d, 0x65, 0x22, 0x3a];
    let open_exp: [u8; 7] = [0x2c, 0x22, 0x65, 0x78, 0x70, 0x22, 0x3a];
    assert(open_name@ =~= name_key());
    assert(open_exp@ =~= exp_key());
    proof {
        assert forall|name: Seq<u8>, exp: u64| b@ == #[trigger] payload_json_bytes(name, exp) implies {
            let p1 = (8 + json_string(name).len()) as int;
            let d = decimal(exp as nat);
            &&& holds_at(b@, 0, name_key())
            &&& holds_at(b@, 8, json_string(name))
            &&& holds_at(b@, p1, exp_key())
            &&& b@.len() == p1 + 7 + d.len() + 1
            &&& b@.subrange(p1 + 7, p1 + 7 + d.len() as int) == d
            &&& b@[p1 + 7 + d.len() as int] == 0x7d
        } by {
            let js = json_string(name);
            let d = decimal(exp as nat);
            lemma_holds_concat(Seq::empty(), name_key(), js + exp_key() + d + close_brace());
            assert(b@ =~= Seq::empty() + name_key() + (js + exp_key() + d + close_brace()));
            lemma_holds_concat(name_key(), js, exp_key() + d + close_brace());
            assert(b@ =~= name_key() + js + (exp_key() + d + close_brace()));
            lemma_holds_concat(name_key() + js, exp_key(), d + close_brace());
            assert(b@ =~= name_key() + js + exp_key() + (d + close_brace()));
            lemma_holds_concat(name_key() + js + exp_key(), d, close_brace());
        }
    }
    if !matches_at(b, 0, open_name.as_slice()) {
        return None;
    }
    let (name, p1) = match parse_string(b, 8) {
        Some(found) => found,
        None => {
            return None;
        },
    };
    if !matches_at(b, p1, open_exp.as_slice()) {
        return None;
    }
    assert(open_exp@.len() == 7);
    let last = b.len() - 1;
    if last < p1 + 7 || b[last] != 0x7d {
        return None;
    }
    let exp = match parse_u64(b, p1 + 7, last) {
        Some(n) => n,
        None => {
            return None;
        },
    };
    proof {
        assert(b@ =~= b@.subrange(0, 8) + b@.subrange(8, p1 as int) + b@.subrange(
            p1 as int,
            p1 + 7,
        ) + b@.subrange(p1 + 7, last as int) + b@.subrange(last as int, last + 1));
        assert(b@.subrange(last as int, last + 1) =~= close_brace());
    }
    Some((name, exp))
}

/// The canonical text of a header with the given fields.
pub fn write_header_json(alg: &str, typ: &str) -> (r: Vec<u8>)
    ensures
        r@ == header_json(alg@, typ@),
{
    let mut out: Vec<u8> = Vec::new();
    let open_alg: [u8; 7] = [0x7b, 0x22, 0x61, 0x6c, 0x67, 0x22, 0x3a];
    let open_typ: [u8; 7] = [0x2c, 0x22, 0x74, 0x79, 0x70, 0x22, 0x3a];
    push_all(&mut out, open_alg.as_slice());
    push_json_string(&mut out, alg.as_bytes());
    push_all(&mut out, open_typ.as_slice());
    push_json_string(&mut out, typ.as_bytes());
    out.push(0x7d);
    assert(open_alg@ =~= alg_key());
    assert(open_typ@ =~= typ_key());
    assert(out@ =~= header_json(alg@, typ@));
    out
}

/// The canonical text of claims with the given subject and expiry.
pub fn write_payload_json(name: &str, exp: u64) -> (r: Vec<u8>)
    ensures
        r@ == payload_json(name@, exp),
{
    let mut out: Vec<u8> = Vec::new();
    let open_name: [u8; 8] = [0x7b, 0x22, 0x6e, 0x61, 0x6d, 0x65, 0x22, 0x3a];
    let open_exp: [u8; 7] = [0x2c, 0x22, 0x65, 0x78, 0x70, 0x22, 0x3a];
    push_all(&mut out, open_name.as_slice());
    push_json_string(&mut out, name.as_bytes());
    push_all(&mut out, open_exp.as_slice());
    push_decimal(&mut out, exp);
    out.push(0x7d);
    assert(open_name@ =~= name_key());
    assert(open_exp@ =~= exp_key());
    assert(out@ =~= payload_json(name@, exp));
    out
}

} // verus!
