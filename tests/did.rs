use base64::engine::general_purpose::STANDARD_NO_PAD;
use base64::Engine;
use rush_booking::did::{create_did_document, create_jwk, public_key_to_did_key};

#[test]
fn did_key_prefixes_the_multicodec_and_uses_base58() {
    let public_key = [7u8; 32];
    let mut prefixed = vec![0xed, 0x01];
    prefixed.extend_from_slice(&public_key);
    let did = public_key_to_did_key(&public_key);
    assert_eq!(did, format!("did:key:z{}", bs58::encode(prefixed).into_string()));
    assert!(did.starts_with("did:key:z6Mk"));
}

#[test]
fn did_document_has_one_method_for_both_uses() {
    let public_key = [1u8; 32];
    let multibase = format!("z{}", bs58::encode(public_key).into_string());
    let doc = create_did_document("did:key:zabc", &public_key);
    assert_eq!(doc.id, "did:key:zabc");
    assert_eq!(
        doc.context,
        vec![
            "https://www.w3.org/ns/did/v1".to_string(),
            "https://w3id.org/security/suites/ed25519-2020/v1".to_string(),
        ]
    );
    assert_eq!(doc.verification_method.len(), 1);
    let method = &doc.verification_method[0];
    assert_eq!(method.id, format!("did:key:zabc#{}", multibase));
    assert_eq!(method.type_, "Ed25519VerificationKey2020");
    assert_eq!(method.controller, "did:key:zabc");
    assert_eq!(method.public_key_multibase, multibase);
    assert_eq!(doc.authentication, vec![method.id.clone()]);
    assert_eq!(doc.assertion_method, vec![method.id.clone()]);
}

#[test]
fn jwk_holds_both_keys_in_base64() {
    let jwk = create_jwk(&[0u8, 1, 2], &[255u8; 4]);
    assert_eq!(jwk.kty, "OKP");
    assert_eq!(jwk.crv, "Ed25519");
    assert_eq!(jwk.d, "AAEC");
    assert_eq!(jwk.x, STANDARD_NO_PAD.encode([255u8; 4]));
    assert_eq!(jwk.x, "/////w");
}
