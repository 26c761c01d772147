//! Decentralised identifiers (`did:key`) for Ed25519 keys, their DID
//! documents, and the keys as JSON Web Keys.
use base64::engine::general_purpose::STANDARD_NO_PAD;
use base64::Engine;
use vstd::prelude::*;
use vstd::string::StringExecFns;

verus! {

/// The base58 (Bitcoin alphabet) text of `b`.
pub uninterp spec fn base58btc_of(b: Seq<u8>) -> Seq<char>;

/// The standard base64 text of `b`, without padding.
pub uninterp spec fn base64_std_of(b: Seq<u8>) -> Seq<char>;

/// Relies on bs58's `encode(..).into_string()`, with its default Bitcoin
/// alphabet.
#[verifier::external_body]
fn base58btc(b: &[u8]) -> (r: String)
    ensures
        r@ == base58btc_of(b@),
{
    bs58::encode(b).into_string()
}

/// Relies on base64's `STANDARD_NO_PAD` engine, `Engine::encode`.
#[verifier::external_body]
fn base64_std(b: &[u8]) -> (r: String)
    ensures
        r@ == base64_std_of(b@),
{
    STANDARD_NO_PAD.encode(b)
}

pub struct VerificationMethod {
    pub id: String,
    pub type_: String,
    pub controller: String,
    pub public_key_multibase: String,
}

pub struct DidDocument {
    pub context: Vec<String>,
    pub id: String,
    pub verification_method: Vec<VerificationMethod>,
    pub authentication: Vec<String>,
    pub assertion_method: Vec<String>,
}

pub struct Jwk {
    pub kty: String,
    pub crv: String,
    pub d: String,
    pub x: String,
}

/// The multicodec prefix of an Ed25519 public key.
pub open spec fn ed25519_multicodec() -> Seq<u8> {
    seq![0xedu8, 0x01u8]
}

/// The multibase text of `b`: `z` and its base58.
pub open spec fn multibase_of(b: Seq<u8>) -> Seq<char> {
    "z"@ + base58btc_of(b)
}

/// `did:key:` and the multibase of the prefixed public key.
pub open spec fn did_key_of(public_key: Seq<u8>) -> Seq<char> {
    "did:key:"@ + multibase_of(ed25519_multicodec() + public_key)
}

fn multibase(b: &[u8]) -> (r: String)
    ensures
        r@ == multibase_of(b@),
{
    let encoded = base58btc(b);
    String::from_str("z").concat(encoded.as_str())
}

/// The `did:key` identifier of an Ed25519 public key.
pub fn public_key_to_did_key(public_key: &[u8]) -> (r: String)
    ensures
        r@ == did_key_of(public_key@),
{
    let mut key_bytes: Vec<u8> = Vec::new();
    key_bytes.push(0xed);
    key_bytes.push(0x01);
    let mut i: usize = 0;
    while i < public_key.len()
        invariant
            i <= public_key@.len(),
            key_bytes@ == ed25519_multicodec() + public_key@.take(i as int),
        decreases public_key@.len() - i,
    {
        key_bytes.push(public_key[i]);
        assert(public_key@.take(i + 1) =~= public_key@.take(i as int).push(public_key@[i as int]));
        i = i + 1;
    }
    assert(public_key@.take(i as int) =~= public_key@);
    assert(key_bytes@ =~= ed25519_multicodec() + public_key@);
    let multibase = multibase(key_bytes.as_slice());
    String::from_str("did:key:").concat(multibase.as_str())
}

/// The DID document of `did`, whose one verification method, used both to
/// authenticate and to make assertions, is the Ed25519 key `public_key`.
pub fn create_did_document(did: &str, public_key: &[u8]) -> (r: DidDocument)
    ensures
        r.id@ == did@,
        r.context@.len() == 2,
        r.context@[0]@ == "https://www.w3.org/ns/did/v1"@,
        r.context@[1]@ == "https://w3id.org/security/suites/ed25519-2020/v1"@,
        r.verification_method@.len() == 1,
        r.verification_method@[0].id@ == did@ + "#"@ + multibase_of(public_key@),
        r.verification_method@[0].type_@ == "Ed25519VerificationKey2020"@,
        r.verification_method@[0].controller@ == did@,
        r.verification_method@[0].public_key_multibase@ == multibase_of(public_key@),
        r.authentication@.len() == 1,
        r.authentication@[0]@ == did@ + "#"@ + multibase_of(public_key@),
        r.assertion_method@.len() == 1,
        r.assertion_method@[0]@ == did@ + "#"@ + multibase_of(public_key@),
{
    let public_key_multibase = multibase(public_key);
    let method_id = did.to_owned().concat("#").concat(public_key_multibase.as_str());
    let method = VerificationMethod {
        id: method_id.clone(),
        type_: String::from_str("Ed25519VerificationKey2020"),
        controller: did.to_owned(),
        public_key_multibase,
    };
    let mut context: Vec<String> = Vec::new();
    context.push(String::from_str("https://www.w3.org/ns/did/v1"));
    context.push(String::from_str("https://w3id.org/security/suites/ed25519-2020/v1"));
    let mut verification_method: Vec<VerificationMethod> = Vec::new();
    verification_method.push(method);
    let mut authentication: Vec<String> = Vec::new();
    authentication.push(method_id.clone());
    let mut assertion_method: Vec<String> = Vec::new();
    assertion_method.push(method_id);
    DidDocument {
        context,
        id: did.to_owned(),
        verification_method,
        authentication,
        assertion_method,
    }
}

/// An Ed25519 key pair as a JSON Web Key: its secret key `d` and public key
/// `x` in standard base64 without padding.
pub fn create_jwk(secret_key: &[u8], public_key: &[u8]) -> (r: Jwk)
    ensures
        r.kty@ == "OKP"@,
        r.crv@ == "Ed25519"@,
        r.d@ == base64_std_of(secret_key@),
        r.x@ == base64_std_of(public_key@),
{
    Jwk {
        kty: String::from_str("OKP"),
        crv: String::from_str("Ed25519"),
        d: base64_std(secret_key),
        x: base64_std(public_key),
    }
}

} // verus!
