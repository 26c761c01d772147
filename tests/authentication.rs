use base64::engine::general_purpose::{STANDARD, URL_SAFE_NO_PAD};
use base64::Engine;
use rush_booking::authentication::decode::decode;
use rush_booking::authentication::domain::{
    Header, Payload, Token, TokenError, DEFAULT_TOKEN_TTL, TOKEN_DELIMETER,
};
use rush_booking::authentication::error::{DecodeError, MyError};
use rush_booking::authentication::json::{
    parse_header_json, parse_payload_json, write_header_json, write_payload_json,
};
use rush_booking::authentication::sign::{create_signature, sign};
use rush_booking::authentication::verify::{verify, verify_at, verify_claims_at, verify_signature};

/// A 2048-bit RSA key in unencrypted PKCS#8, made for these tests only.
const TEST_KEY_PK8: &str = "\
    MIIEvQIBADANBgkqhkiG9w0BAQEFAASCBKcwggSjAgEAAoIBAQCPNBfQDrO+fWzCyZgTLYmpFm5IIhRqEzXkgQtw\
    1otxfimz9hIMtmSLs9SN+hs8T/Beva6BUCX+oCR5SITn2nQ/gOtFI5vnNTvBwjll9OYQ4RwRP7+/HEYHIWsl2olf\
    AmAHcnvAGpUs+RVRWAxZWtorVGO8me8Wg5NrBUBongzq9wB5On8R56wYEY9+bK8v25LB5T0ZfVB0p1XIS0wCdQk2\
    iYTnr/8KNM69aKg1F8zwHgQS0BkfcIgEsn1yFS/oSMqqlNiapLCyZby3R+W8umH9Wdis1HH8+AzzlgaApFyAFRxJ\
    OHaTqhCbvR0R05xYUfcrdFiaBaVXySPctHLhfrUXAgMBAAECggEAANJTsKXk8hrWHOf7L2D7gTTXvSI068bgcEct\
    QaB5fFU0+AtZXylMumB1v7rHnTj4MBL2hVdoYGWaz/dSi+H8+MBMmUDzDAiKJzpuCd+10jL4bkDnYLlQzYmri7QN\
    RbZFxsUpYJjGclObg7P1ni2fQtBhIhvf+0kV9284R2FgwZhW/R89jMsX2UDw9WvlgTbet3BQTURZiQJ1RRZIwI44\
    qc5fA2hmcn60onRNQ426UJD82mAFJ25Ot1CrRfyHYIqn0eSg+qevdk+jM82M4qwj2jf/j10EzzjYICEdQTBTYW/1\
    uiPjB00BKgyD6Z0pG0XwBbKBqKOdLGvSTs7kjesxQQKBgQDJ7Wls0WeEaT54Cb91YbTZVr59Hy/nuaXjfkvPrw7b\
    zr+u49TG4hx+NLgTGNyRRo39HqTYg/eykBDgBgCKlj+bhnhkUoSQkRKvUbCOZnDJB+7xV4KfCHE/gkmH9vqwVXj2\
    +mpzm2CMXnMbzXR0RaidZZ8hMdETXrDp1hMnBc6XDQKBgQC1jQW4W0v5Jh3XNXTD8UzmJQDMhMCbjLZcz7+YWYt5\
    pFxXhvqjHyPNBVQtuCblrMLOMjZ3cvzRoJ/aQKQOze20Nt6Vcz9daL71RGXZ6KcyljM5eFRuBnboA4S+VNeVLchK\
    AXNX8tFewZel8fBePuMFmIlmSWGiSh6J8AZ/DOGzswKBgE/rCLiqwD+lr7WulfoNK5iBPm8i8sDRtxgsmjCeZlEU\
    qMS9Iy97ui8xClF0m4db10KA6FlREa24WxVvCrPO92nEdM2v4wucfzqoKCqT3LuTyjv2mJn8q2WpWRTY6Sr1CSUm\
    ww7yReoIT6KHVDnYf/2bhLmMj+UMqxRBR98/6x3ZAoGBAJ+ERCVi2lMUoZ2JE4pihy2kD5qjfdRug4Dy7KZA72K2\
    /ofNSoVvA/bNGtR8/HhLHnMr/V1gxDCwECQlLcDwQU5Z86Keu2socLhyG4emetngzStOxehSd8GN7eGKDE3ABz63\
    HZCGAl5efQ9Kj+dPHAu7peYgzc9ZjpGmOx8Aw4MvAoGACgEhsAfM0zeTZxKzuNGGZWy8AXJ6M53RyqKuypY+L2Yf\
    XElGUm6F7Yhil1APzfwOOMgpUqY9YBuh5FC51LMmQoyZ5N8nxTVt6xx3C7mt9qS7V8bj2jidnLHblibO+0mP9CdW\
    AEp4B/iS7CUCLjSsx1szsq97QFG3lkhISmPvj0M=\
";

fn get_private_key_pk8() -> Vec<u8> {
    STANDARD.decode(TEST_KEY_PK8.trim()).expect("Failed to retrieve the private key")
}

fn public_key() -> Vec<u8> {
    let secret = get_private_key_pk8();
    let key = ring::rsa::KeyPair::from_pkcs8(&secret).unwrap();
    key.public().as_ref().to_vec()
}

fn clock_secs() -> u64 {
    std::time::SystemTime::now()
        .duration_since(std::time::UNIX_EPOCH)
        .unwrap()
        .as_secs()
}

/// Returns once the clock's second has moved on.
fn wait_for_next_second() {
    let start = clock_secs();
    while clock_secs() <= start {}
}

fn segment(token: &str, k: usize) -> String {
    token.split(TOKEN_DELIMETER).collect::<Vec<&str>>()[k].to_string()
}

#[test]
fn should_have_err_with_invalid_token() {
    let test_cases = vec![
        ("sdfasf.sdfsd", "does not have full three parts"),
        ("sdfasf.sdfsd.sfaf.asfasf", "have more than three parts"),
    ];

    for (invalid_token, error_message) in test_cases {
        let decoded_token = decode(invalid_token);
        assert!(decoded_token.is_err(), "{}", error_message);
    }
}

#[test]
fn should_decode_the_token() {
    let payload = Payload::new("Tom".into()).unwrap();
    let secret = get_private_key_pk8();
    let token = sign(&payload, &secret).unwrap();

    let decoded_token = decode(&token).expect("Failed to decode the token");

    assert_eq!(decoded_token.payload.name, payload.name);
}

#[test]
fn different_payloads_have_different_expired_time_based_on_order_of_creation() {
    let payload_one = Payload::new("Tom".into()).unwrap();
    wait_for_next_second();
    let payload_two = Payload::new("Tom".into()).unwrap();

    assert!(payload_one.exp < payload_two.exp);
}

#[test]
fn sign_should_produce_different_signature_for_different_payloads() {
    let payload_one = Payload::new("Jerry".into()).unwrap();
    let payload_two = Payload::new("Tom".into()).unwrap();
    let secret = get_private_key_pk8();
    let jwt_one = sign(&payload_one, &secret).unwrap();
    let jwt_two = sign(&payload_two, &secret).unwrap();

    let sign_one = segment(&jwt_one, 2);
    let sign_two = segment(&jwt_two, 2);

    assert_ne!(sign_one, sign_two);
}

#[test]
fn should_produce_different_signature_for_same_payload_at_different_time() {
    let payload_one = Payload::new("Tom".into()).unwrap();
    wait_for_next_second();
    let payload_two = Payload::new("Tom".into()).unwrap();
    let secret = get_private_key_pk8();
    let jwt_one = sign(&payload_one, &secret).unwrap();
    let jwt_two = sign(&payload_two, &secret).unwrap();

    let sign_one = segment(&jwt_one, 2);
    let sign_two = segment(&jwt_two, 2);

    assert_ne!(sign_one, sign_two);
}

#[test]
fn sign_should_add_expiry_to_the_payload() {
    let secret = get_private_key_pk8();
    let payload_one = Payload::new("Tom".into()).unwrap();
    let jwt_one = sign(&payload_one, &secret).unwrap();

    let payload_one = segment(&jwt_one, 1);
    let decoder = URL_SAFE_NO_PAD
        .decode(payload_one)
        .expect("Failed to decode payload string");
    let payload_str = String::from_utf8(decoder).expect("Invalid UTF8 format");
    let payload: serde_json::Value =
        serde_json::from_str(&payload_str).expect("Failed to parse to Payload struct");

    assert!(payload["exp"].as_u64().unwrap() > 0);
}

#[test]
fn should_err_with_the_expired_token() {
    let secret = get_private_key_pk8();
    let payload = Payload::new("Tom".into()).unwrap().set_exp(0).unwrap();
    wait_for_next_second();
    let token = sign(&payload, &secret).unwrap();

    let decoded_token = decode(&token).unwrap();
    assert_eq!(decoded_token.payload.name, "Tom");

    assert_eq!(verify(&token, &public_key()), Err(TokenError::Expired));
}

#[test]
fn should_success_with_the_valid_token() {
    let secret = get_private_key_pk8();
    let payload = Payload::new("Tom".into()).unwrap().set_exp(10).unwrap();
    let token = sign(&payload, &secret).unwrap();

    let decoded_token = decode(&token).unwrap();
    assert_eq!(decoded_token.payload.name, "Tom");

    assert_eq!(verify(&token, &public_key()), Ok(()));
}

#[test]
fn header_text_is_canonical_json() {
    let header = Header::new();
    assert_eq!(header.alg, "RS256");
    assert_eq!(header.typ, "JWT");
    let text = write_header_json(&header.alg, &header.typ);
    assert_eq!(String::from_utf8(text).unwrap(), r#"{"alg":"RS256","typ":"JWT"}"#);
}

#[test]
fn payload_text_is_canonical_json() {
    let text = write_payload_json("Tom", 1_700_003_600);
    assert_eq!(String::from_utf8(text).unwrap(), r#"{"name":"Tom","exp":1700003600}"#);
    let text = write_payload_json("", 0);
    assert_eq!(String::from_utf8(text).unwrap(), r#"{"name":"","exp":0}"#);
    let text = write_payload_json("x", u64::MAX);
    assert_eq!(String::from_utf8(text).unwrap(), r#"{"name":"x","exp":18446744073709551615}"#);
}

#[test]
fn payload_text_escapes_as_serde_json_does() {
    let names = ["a\"b", "back\\slash", "tab\tnew\nline\r", "\u{1}\u{8}\u{c}\u{1f}", "caf\u{e9} \u{1F600}", "/<>{}"];
    for name in names {
        let ours = String::from_utf8(write_payload_json(name, 42)).unwrap();
        let quoted = serde_json::to_string(name).unwrap();
        assert_eq!(ours, format!("{{\"name\":{},\"exp\":42}}", quoted));
    }
}

#[test]
fn payload_text_reads_back_exactly() {
    let names = ["Tom", "", "a\"b\\c", "\u{0}\u{7f}", "\u{e9}\u{1F600}"];
    for name in names {
        let text = write_payload_json(name, 99);
        let (bytes, exp) = parse_payload_json(&text).unwrap();
        assert_eq!(bytes, name.as_bytes());
        assert_eq!(exp, 99);
    }
    let (alg, typ) = parse_header_json(br#"{"alg":"RS256","typ":"JWT"}"#).unwrap();
    assert_eq!(alg, b"RS256");
    assert_eq!(typ, b"JWT");
}

#[test]
fn non_canonical_json_is_refused() {
    let texts: [&[u8]; 8] = [
        br#"{"name":"Tom","exp":012}"#,
        br#"{"name":"Tom", "exp":12}"#,
        br#"{"exp":12,"name":"Tom"}"#,
        br#"{"name":"Tom","exp":18446744073709551616}"#,
        br#"{"name":"T\u006fm","exp":12}"#,
        br#"{"name":"Tom","exp":12} "#,
        br#"{"name":"Tom","exp":}"#,
        br#"{"name":"Tom","exp":12,"iss":"x"}"#,
    ];
    for text in texts {
        assert!(parse_payload_json(text).is_none());
    }
    assert!(parse_payload_json(br#"{"name":"Tom","exp":12}"#).is_some());
}

#[test]
fn decode_reverses_sign_for_awkward_names() {
    let secret = get_private_key_pk8();
    for name in ["Tom", "", "quote\" and \\", "line\nbreak", "\u{e9}t\u{e9} \u{1F600}"] {
        let payload = Payload::issued_at(name.to_string(), 1_700_000_000, 60);
        let token = sign(&payload, &secret).unwrap();
        assert_eq!(token.split('.').count(), 3);
        let decoded = decode(&token).unwrap();
        assert_eq!(decoded.payload.name, name);
        assert_eq!(decoded.payload.exp, 1_700_000_060);
        assert_eq!(decoded.header.alg, "RS256");
        assert_eq!(decoded.header.typ, "JWT");
    }
}

#[test]
fn decode_refuses_wrong_segment_counts() {
    assert!(matches!(decode("a.b"), Err(DecodeError::InvalidTokenFormat)));
    assert!(matches!(decode("a.b.c.d"), Err(DecodeError::InvalidTokenFormat)));
    assert!(matches!(decode(""), Err(DecodeError::InvalidTokenFormat)));
    assert!(matches!(decode("abc"), Err(DecodeError::InvalidTokenFormat)));
}

#[test]
fn decode_refuses_malformed_segments() {
    let header = URL_SAFE_NO_PAD.encode(r#"{"alg":"RS256","typ":"JWT"}"#);
    let payload = URL_SAFE_NO_PAD.encode(r#"{"name":"Tom","exp":5}"#);
    let bad_json = URL_SAFE_NO_PAD.encode(r#"{"name": "Tom"}"#);
    assert!(matches!(decode(&format!("{}.{}.sig", header, payload)), Ok(_)));
    assert!(matches!(decode(&format!("!!.{}.sig", payload)), Err(DecodeError::InvalidTokenFormat)));
    assert!(matches!(decode(&format!("{}.{}.sig", bad_json, payload)), Err(DecodeError::InvalidTokenFormat)));
    assert!(matches!(decode(&format!("{}.{}=.sig", header, payload)), Err(DecodeError::InvalidTokenFormat)));
    assert!(matches!(decode(&format!("{}.{}.sig", header, bad_json)), Err(DecodeError::InvalidTokenFormat)));
    let not_utf8 = URL_SAFE_NO_PAD.encode(b"{\"name\":\"\xff\",\"exp\":5}");
    assert!(matches!(decode(&format!("{}.{}.sig", header, not_utf8)), Err(DecodeError::InvalidTokenFormat)));
}

#[test]
fn verify_judges_expiry_at_a_given_time() {
    let token = Token::new(Header::new(), Payload::issued_at("Tom".into(), 1000, 3600));
    assert_eq!(verify_claims_at(&token, 4599), Ok(()));
    assert_eq!(verify_claims_at(&token, 4600), Ok(()));
    assert_eq!(verify_claims_at(&token, 4601), Err(TokenError::Expired));
    let fresh = Token::new(Header::new(), Payload::new("Tom".into()).unwrap());
    assert!(!fresh.is_expired());
    assert!(fresh.is_expired_at(u64::MAX));
}

#[test]
fn verify_rejects_unexpected_header() {
    let payload = Payload::issued_at("Tom".into(), 1000, 3600);
    let token = Token::new(Header { alg: "HS256".into(), typ: "JWT".into() }, payload);
    assert_eq!(verify_claims_at(&token, 0), Err(TokenError::InvalidAlg));
    let payload = Payload::issued_at("Tom".into(), 1000, 3600);
    let token = Token::new(Header { alg: "RS256".into(), typ: "JWS".into() }, payload);
    assert_eq!(verify_claims_at(&token, 0), Err(TokenError::InvalidTyp));
}

#[test]
fn expiry_saturates_at_the_largest_time() {
    let payload = Payload::issued_at("Tom".into(), u64::MAX - 5, 3600);
    assert_eq!(payload.exp, u64::MAX);
}

#[test]
fn signature_checks_against_the_public_key() {
    let secret = get_private_key_pk8();
    let token = sign(&Payload::issued_at("Tom".into(), 1000, 60), &secret).unwrap();
    assert_eq!(verify_signature(&token, &public_key()), Ok(()));

    let other = sign(&Payload::issued_at("Jerry".into(), 1000, 60), &secret).unwrap();
    let forged = format!("{}.{}.{}", segment(&token, 0), segment(&other, 1), segment(&token, 2));
    assert_eq!(verify_signature(&forged, &public_key()), Err(TokenError::InvalidSignature));
    assert_eq!(verify_signature("a.b", &public_key()), Err(TokenError::InvalidSignature));
    assert_eq!(verify_signature(&token, b"not a key"), Err(TokenError::InvalidSignature));
}

#[test]
fn signing_refuses_a_malformed_key() {
    let payload = Payload::issued_at("Tom".into(), 1000, 60);
    assert!(matches!(sign(&payload, b"not a key"), Err(MyError::BadPrivateKey)));
    assert!(matches!(create_signature(b"", b"a", b"b"), Err(MyError::BadPrivateKey)));
    let signature = create_signature(&get_private_key_pk8(), b"a", b"b").unwrap();
    assert_eq!(signature.len(), 256);
}

#[test]
fn signature_covers_the_encoded_segments() {
    let secret = get_private_key_pk8();
    let token = sign(&Payload::issued_at("Tom".into(), 1000, 60), &secret).unwrap();
    let signature = create_signature(
        &secret,
        segment(&token, 0).as_bytes(),
        segment(&token, 1).as_bytes(),
    )
    .unwrap();
    assert_eq!(URL_SAFE_NO_PAD.encode(signature), segment(&token, 2));
    assert_eq!(
        segment(&token, 0),
        URL_SAFE_NO_PAD.encode(r#"{"alg":"RS256","typ":"JWT"}"#)
    );
    assert_eq!(segment(&token, 1), URL_SAFE_NO_PAD.encode(r#"{"name":"Tom","exp":1060}"#));
}

#[test]
fn options_carry_the_lifetime_into_the_claims() {
    let options = rush_booking::authentication::Options::new();
    assert_eq!(options.expires_in, DEFAULT_TOKEN_TTL);
    let short = rush_booking::authentication::Options { expires_in: 0 };
    let payload = Payload::with_options("abc".into(), &short).unwrap();
    let token = Token::new(Header::new(), payload);
    assert!(verify_claims_at(&token, token.payload.exp + 1).is_err());
    let payload = Payload::with_options("abc".into(), &options).unwrap();
    let other = Payload::with_options("abc".into(), &short).unwrap();
    assert!(payload.exp >= other.exp + DEFAULT_TOKEN_TTL - 5);
}

#[test]
fn signing_is_a_function_of_claims_and_key() {
    let secret = get_private_key_pk8();
    let one = sign(&Payload::issued_at("Tom".into(), 1000, 60), &secret).unwrap();
    let two = sign(&Payload::issued_at("Tom".into(), 1000, 60), &secret).unwrap();
    assert_eq!(one, two);
    for part in one.split('.') {
        assert!(!part.is_empty());
        assert!(part.bytes().all(|c| c.is_ascii_alphanumeric() || c == b'-' || c == b'_'));
    }
    assert_eq!(URL_SAFE_NO_PAD.decode(segment(&one, 2)).unwrap().len(), 256);
}

#[test]
fn verify_checks_format_then_signature_then_claims() {
    let secret = get_private_key_pk8();
    let key = public_key();
    let token = sign(&Payload::issued_at("Tom".into(), 1000, 3600), &secret).unwrap();
    assert_eq!(verify_at(&token, &key, 4600), Ok(()));
    assert_eq!(verify_at(&token, &key, 4601), Err(TokenError::Expired));
    assert_eq!(verify_at("a.b", &key, 0), Err(TokenError::InvalidFormat));
    assert_eq!(verify_at(&format!("{}.{}.x", segment(&token, 0), "!!"), &key, 0), Err(TokenError::InvalidFormat));

    let other = sign(&Payload::issued_at("Jerry".into(), 1000, 3600), &secret).unwrap();
    let forged = format!("{}.{}.{}", segment(&token, 0), segment(&other, 1), segment(&token, 2));
    assert_eq!(verify_at(&forged, &key, 0), Err(TokenError::InvalidSignature));
    assert_eq!(verify_at(&token, b"not a key", 0), Err(TokenError::InvalidSignature));

    let unsigned = format!("{}.{}.", segment(&token, 0), segment(&token, 1));
    assert_eq!(verify(&unsigned, &key), Err(TokenError::InvalidSignature));
    let fresh = sign(&Payload::new("Tom".into()).unwrap(), &secret).unwrap();
    assert_eq!(verify(&fresh, &key), Ok(()));
}
