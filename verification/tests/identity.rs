use pickle::identity::{Fingerprint, Identity, IdentityError, PublicIdentity};

#[test]
fn auth_signature_roundtrips() {
    let id = Identity::generate();
    let nonce = [7u8; 32];
    let cert = [9u8; 32];
    let sig = id.sign_auth(&nonce, &cert);
    assert!(id.public().verify_auth(&nonce, &cert, &sig).is_ok());
}

#[test]
fn auth_signature_is_bound_to_the_server_certificate() {
    // The property that stops a malicious server relaying a login elsewhere.
    let id = Identity::generate();
    let nonce = [7u8; 32];
    let sig = id.sign_auth(&nonce, &[9u8; 32]);
    assert!(id.public().verify_auth(&nonce, &[10u8; 32], &sig).is_err());
}

#[test]
fn auth_signature_is_bound_to_the_nonce() {
    let id = Identity::generate();
    let cert = [9u8; 32];
    let sig = id.sign_auth(&[7u8; 32], &cert);
    assert!(id.public().verify_auth(&[8u8; 32], &cert, &sig).is_err());
}

#[test]
fn another_identity_cannot_forge_a_login() {
    let alice = Identity::generate();
    let mallory = Identity::generate();
    let (nonce, cert) = ([1u8; 32], [2u8; 32]);
    let sig = mallory.sign_auth(&nonce, &cert);
    assert!(alice.public().verify_auth(&nonce, &cert, &sig).is_err());
}

#[test]
fn server_hello_covers_the_server_name() {
    let id = Identity::generate();
    let (nonce, cert) = ([1u8; 32], [2u8; 32]);
    let sig = id.sign_server_hello(&nonce, &cert, "Andy's Server");
    let pubid = id.public();
    assert!(pubid
        .verify_server_hello(&nonce, &cert, "Andy's Server", &sig)
        .is_ok());
    assert!(pubid
        .verify_server_hello(&nonce, &cert, "Evil Server", &sig)
        .is_err());
}

#[test]
fn server_name_length_prefix_prevents_field_confusion() {
    let id = Identity::generate();
    let (nonce, cert) = ([1u8; 32], [2u8; 32]);
    let sig = id.sign_server_hello(&nonce, &cert, "ab");
    assert!(id
        .public()
        .verify_server_hello(&nonce, &cert, "a", &sig)
        .is_err());
}

#[test]
fn fingerprint_display_roundtrips_through_parse() {
    let id = Identity::generate();
    let fp = id.fingerprint();
    assert_eq!(Fingerprint::parse(&fp.to_string()).unwrap(), fp);
    // Users will paste these with stray spacing.
    assert_eq!(Fingerprint::parse(&format!("  {}  ", fp.to_string())).unwrap(), fp);
}

#[test]
fn fingerprint_is_derived_from_the_key_not_the_counter() {
    // Mining must not change identity, or upgrading would forfeit
    // every permission a server had granted.
    let mut id = Identity::generate();
    let before = id.fingerprint();
    id.mine(6, &mut |_: pickle::identity::pow::MineProgress| true);
    assert_eq!(id.fingerprint(), before);
    assert!(id.counter() > 0);
}


#[test]
fn a_fingerprint_reads_back_from_any_spacing_and_case() {
    let fp = Identity::from_secret_bytes(&[5u8; 32], 0).fingerprint();
    let text = fp.to_string();
    assert_eq!(text.len(), 64, "52 symbols and 12 hyphens");
    assert_eq!(Fingerprint::parse(&text.to_uppercase()).unwrap(), fp);
    assert_eq!(Fingerprint::parse(&text.replace('-', "")).unwrap(), fp);
    assert_eq!(Fingerprint::parse(&text.replace('-', " - ")).unwrap(), fp);
    assert!(text.starts_with(&fp.short()));
    assert_eq!(fp.short().len(), 14);
}

#[test]
fn what_is_no_fingerprint_is_refused() {
    for wrong in ["", "abc", "1111-1111", "not a fingerprint"] {
        assert!(matches!(
            Fingerprint::parse(wrong),
            Err(IdentityError::BadFingerprint)
        ));
    }
}

#[test]
fn a_key_has_one_fingerprint() {
    // The RFC 8032 key pair of secret 9d61..., whose public half is known.
    let secret: [u8; 32] = [
        0x9d, 0x61, 0xb1, 0x9d, 0xef, 0xfd, 0x5a, 0x60, 0xba, 0x84, 0x4a, 0xf4, 0x92, 0xec, 0x2c,
        0xc4, 0x44, 0x49, 0xc5, 0x69, 0x7b, 0x32, 0x69, 0x19, 0x70, 0x3b, 0xac, 0x03, 0x1c, 0xae,
        0x7f, 0x60,
    ];
    let public: [u8; 32] = [
        0xd7, 0x5a, 0x98, 0x01, 0x82, 0xb1, 0x0a, 0xb7, 0xd5, 0x4b, 0xfe, 0xd3, 0xc9, 0x64, 0x07,
        0x3a, 0x0e, 0xe1, 0x72, 0xf3, 0xda, 0xa6, 0x23, 0x25, 0xaf, 0x02, 0x1a, 0x68, 0xf7, 0x07,
        0x51, 0x1a,
    ];
    let id = Identity::from_secret_bytes(&secret, 0);
    assert_eq!(id.public().key, public);
    assert_eq!(id.secret_bytes(), secret);
    assert_eq!(Fingerprint::of(&public), id.fingerprint());
    assert_eq!(
        PublicIdentity::from_key_bytes(&public, 3).unwrap().fingerprint(),
        id.fingerprint()
    );
}

#[test]
fn a_key_that_is_no_point_is_refused() {
    // 2 is not the y coordinate of a point of the curve.
    let mut key = [0u8; 32];
    key[0] = 2;
    assert!(matches!(
        PublicIdentity::from_key_bytes(&key, 0),
        Err(IdentityError::MalformedKey)
    ));
}

#[test]
fn a_login_does_not_pass_as_a_greeting() {
    let id = Identity::generate();
    let (nonce, cert) = ([1u8; 32], [2u8; 32]);
    let sig = id.sign_auth(&nonce, &cert);
    assert!(matches!(
        id.public().verify_server_hello(&nonce, &cert, "", &sig),
        Err(IdentityError::BadSignature)
    ));
}

#[test]
fn identity_errors_have_words() {
    assert_eq!(IdentityError::MalformedKey.message(), "malformed public key");
    assert_eq!(IdentityError::MalformedSignature.message(), "malformed signature");
    assert_eq!(IdentityError::BadSignature.message(), "signature verification failed");
    assert_eq!(IdentityError::BadFingerprint.message(), "fingerprint is not valid base32");
}

#[test]
fn case_and_filler_never_change_a_fingerprint() {
    let fp = Identity::generate().fingerprint();
    let text = fp.to_string();
    let mixed: String = text
        .chars()
        .enumerate()
        .map(|(i, c)| if i % 2 == 0 { c.to_ascii_uppercase() } else { c })
        .collect();
    assert_eq!(Fingerprint::parse(&mixed).unwrap(), fp);
    let spread: String = text.chars().flat_map(|c| [c, ' ', '-', '\t']).collect();
    assert_eq!(Fingerprint::parse(&spread).unwrap(), fp);
    // The long s has the capital of s.
    assert_eq!(Fingerprint::parse(&text.replace('s', "\u{17f}")).unwrap(), fp);
}
