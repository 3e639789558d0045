use pickle::identity::sealed::{SealError, VaultKey};

#[test]
fn a_sealed_document_comes_back_under_the_same_passphrase() {
    let key = VaultKey::fresh("correct horse battery staple").unwrap();
    let sealed = key.seal(b"{\"secret\":true}").unwrap();

    // Re-derived from the file's own header, exactly as a fresh process
    // would, rather than reusing the cached key.
    let reopened = VaultKey::derive("correct horse battery staple", &sealed.kdf).unwrap();
    assert_eq!(&reopened.open(&sealed).unwrap()[..], b"{\"secret\":true}");
}

#[test]
fn a_wrong_passphrase_fails_rather_than_returning_rubbish() {
    // The property that matters: a near miss must not decrypt to bytes the
    // caller might mistake for a key.
    let key = VaultKey::fresh("hunter2").unwrap();
    let sealed = key.seal(b"the vault").unwrap();

    let wrong = VaultKey::derive("hunter3", &sealed.kdf).unwrap();
    assert!(matches!(wrong.open(&sealed), Err(SealError::Unauthentic)));
}

#[test]
fn every_save_draws_a_new_nonce() {
    // Reusing a nonce under one key would leak the XOR of two vaults.
    let key = VaultKey::fresh("hunter2").unwrap();
    let first = key.seal(b"the vault").unwrap();
    let second = key.seal(b"the vault").unwrap();

    assert_ne!(first.nonce, second.nonce);
    assert_ne!(first.ciphertext, second.ciphertext);
}

#[test]
fn two_vaults_with_the_same_passphrase_get_different_salts() {
    let first = VaultKey::fresh("hunter2").unwrap();
    let second = VaultKey::fresh("hunter2").unwrap();
    assert_ne!(first.header().salt, second.header().salt);
}

#[test]
fn a_tampered_header_is_detected() {
    let key = VaultKey::fresh("hunter2").unwrap();
    let mut sealed = key.seal(b"the vault").unwrap();

    // Downgrading the recorded cost would be an attacker's way to make a
    // future re-derivation cheap to attack.
    sealed.kdf.iterations = 1;
    let rederived = VaultKey::derive("hunter2", &sealed.kdf).unwrap();
    assert!(matches!(
        rederived.open(&sealed),
        Err(SealError::Unauthentic)
    ));
}

#[test]
fn a_truncated_ciphertext_is_reported() {
    let key = VaultKey::fresh("hunter2").unwrap();
    let mut sealed = key.seal(b"the vault").unwrap();
    sealed.ciphertext.truncate(4);

    assert!(key.open(&sealed).is_err());
}

#[test]
fn an_unknown_algorithm_is_refused_rather_than_guessed() {
    let key = VaultKey::fresh("hunter2").unwrap();
    let mut header = key.header().clone();
    header.algorithm = "rot13".into();

    assert!(matches!(
        VaultKey::derive("hunter2", &header),
        Err(SealError::UnsupportedKdf(_))
    ));
}

#[test]
fn an_absurd_memory_cost_is_refused_rather_than_allocated() {
    let key = VaultKey::fresh("hunter2").unwrap();
    let mut header = key.header().clone();
    header.memory_kib = u32::MAX;

    assert!(matches!(
        VaultKey::derive("hunter2", &header),
        Err(SealError::BadParams(_))
    ));
}

#[test]
fn an_unknown_cipher_is_refused_rather_than_guessed() {
    let key = VaultKey::fresh("hunter2").unwrap();
    let mut sealed = key.seal(b"the vault").unwrap();
    sealed.cipher = "rot13".into();

    assert!(matches!(
        key.open(&sealed),
        Err(SealError::UnsupportedCipher(_))
    ));
}

#[test]
fn what_is_no_salt_or_nonce_is_refused() {
    let key = VaultKey::fresh("hunter2").unwrap();
    let mut header = key.header().clone();
    header.salt = "not base64!".into();
    assert!(matches!(
        VaultKey::derive("hunter2", &header),
        Err(SealError::BadEncoding)
    ));

    let mut sealed = key.seal(b"the vault").unwrap();
    sealed.nonce = "AAAA".into();
    assert!(matches!(key.open(&sealed), Err(SealError::BadEncoding)));
}

#[test]
fn a_salt_and_a_nonce_fix_the_file() {
    let key = VaultKey::with_salt("hunter2", &[1u8; 16]).unwrap();
    let again = VaultKey::with_salt("hunter2", &[1u8; 16]).unwrap();
    let one = key.seal_with_nonce(b"the vault", &[2u8; 24]).unwrap();
    let two = again.seal_with_nonce(b"the vault", &[2u8; 24]).unwrap();
    assert_eq!(one.ciphertext, two.ciphertext);
    assert_ne!(one.ciphertext, "dGhlIHZhdWx0", "the plaintext is not legible");
    assert_eq!(&again.open(&one).unwrap()[..], b"the vault");
}

#[test]
fn seal_errors_have_words() {
    assert!(SealError::Unauthentic.message().contains("passphrase is wrong"));
    assert!(SealError::UnsupportedKdf("rot13".into()).message().contains("rot13"));
    assert!(SealError::UnsupportedCipher("rot13".into()).message().contains("rot13"));
}

#[test]
fn refused_costs_are_named() {
    let key = VaultKey::with_salt("hunter2", &[1u8; 16]).unwrap();
    let complaint = |memory_kib: u32, iterations: u32, parallelism: u32| {
        let mut header = key.header().clone();
        header.memory_kib = memory_kib;
        header.iterations = iterations;
        header.parallelism = parallelism;
        match VaultKey::derive("hunter2", &header) {
            Err(SealError::BadParams(what)) => what,
            _ => panic!("these parameters are out of range"),
        }
    };
    assert_eq!(complaint(7, 1, 1), "memory cost is too small");
    assert_eq!(complaint(16, 1, 3), "memory cost is too small");
    assert_eq!(complaint(16, 0, 1), "time cost is too small");
    assert_eq!(complaint(16, 1, 0), "not enough threads");
    for parallelism in [0x100_0000, 0x1fff_ffff, 0x2000_0000, u32::MAX] {
        assert_eq!(complaint(1024 * 1024, 1, parallelism), "memory cost is too small");
    }
}

#[test]
fn a_salt_is_sixteen_octets() {
    let key = VaultKey::fresh("hunter2").unwrap();
    assert_eq!(key.header().salt.len(), 24);
    assert!(key.header().salt.ends_with("=="));
}
