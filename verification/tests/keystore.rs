use pickle::identity::keystore::{
    check_permissions, FileRead, Keystore, KeystoreError, LoadedIdentity, StoredIdentity,
};
use pickle::identity::pow::MineProgress;
use pickle::identity::Identity;

const PATH: &str = "identity.json";

fn private(document: StoredIdentity) -> FileRead<StoredIdentity> {
    FileRead::Read {
        mode: Some(0o100600),
        document: Some(document),
    }
}

#[test]
fn save_then_load_preserves_the_key_and_counter() {
    let mut original = Identity::generate();
    original.mine(8, &mut |_: MineProgress| true);

    let saved = Keystore::stored(&original, "andy");
    let loaded = Keystore::load(PATH, private(saved)).unwrap();

    assert_eq!(loaded.identity.fingerprint(), original.fingerprint());
    assert_eq!(loaded.identity.counter(), original.counter());
    assert_eq!(loaded.identity.security_level(), original.security_level());
    assert_eq!(loaded.nickname, "andy");
}

#[test]
fn load_or_create_generates_once_then_reuses() {
    let (first, fresh): (LoadedIdentity, bool) =
        Keystore::load_or_create(Keystore::load(PATH, FileRead::Missing("gone".into())), "andy")
            .unwrap();
    assert!(fresh, "there is something to save");
    let saved = Keystore::stored(&first.identity, &first.nickname);
    let (second, fresh) =
        Keystore::load_or_create(Keystore::load(PATH, private(saved)), "someone-else").unwrap();
    assert!(!fresh);

    assert_eq!(first.identity.fingerprint(), second.identity.fingerprint());
    assert_eq!(second.nickname, "andy", "existing profile must win");
}

#[test]
fn loading_a_world_readable_keystore_is_refused() {
    let saved = Keystore::stored(&Identity::generate(), "andy");
    let file = FileRead::Read {
        mode: Some(0o100644),
        document: Some(saved),
    };
    assert!(matches!(
        Keystore::load(PATH, file),
        Err(KeystoreError::PermissionsTooOpen { mode: 0o644, .. })
    ));
}

#[test]
fn a_corrupt_keystore_reports_rather_than_silently_regenerating() {
    // Silently making a new identity here would strand the user's
    // permissions on every server they use.
    let file = FileRead::Read {
        mode: Some(0o600),
        document: None,
    };
    assert!(matches!(
        Keystore::load_or_create(Keystore::load(PATH, file), "andy"),
        Err(KeystoreError::Malformed(_))
    ));
}

#[test]
fn keystore_a_future_version_is_refused() {
    let mut saved = Keystore::stored(&Identity::generate(), "andy");
    saved.version = 99;
    assert!(matches!(
        Keystore::load(PATH, private(saved)),
        Err(KeystoreError::UnsupportedVersion { found: 99, .. })
    ));
}

#[test]
fn a_key_of_the_wrong_length_is_refused() {
    let mut saved = Keystore::stored(&Identity::generate(), "andy");
    saved.secret_key = "AAAA".into();
    assert!(matches!(
        Keystore::load(PATH, private(saved)),
        Err(KeystoreError::BadKey(_))
    ));
}

#[test]
fn a_failed_read_is_not_a_missing_file() {
    assert!(matches!(
        Keystore::load_or_create(Keystore::load(PATH, FileRead::Failed("disk on fire".into())), "andy"),
        Err(KeystoreError::Io { not_found: false, .. })
    ));
    assert!(matches!(
        Keystore::load(PATH, FileRead::Missing("gone".into())),
        Err(KeystoreError::Io { not_found: true, .. })
    ));
}

#[test]
fn only_the_owner_may_touch_a_key() {
    assert!(check_permissions(PATH, 0o600).is_ok());
    assert!(check_permissions(PATH, 0o700).is_ok());
    for mode in [0o640, 0o604, 0o610, 0o601, 0o666, 0o777] {
        assert!(check_permissions(PATH, mode).is_err(), "{mode:o}");
    }
}

#[test]
fn keystore_errors_name_the_file() {
    let e = KeystoreError::PermissionsTooOpen {
        path: PATH.into(),
        mode: 0o644,
    };
    assert_eq!(
        e.message(),
        "keystore identity.json is readable by other users (mode 644); \
         run `chmod 600 identity.json` before using it"
    );
    let e = KeystoreError::UnsupportedVersion {
        path: PATH.into(),
        found: 99,
        expected: 1,
    };
    assert_eq!(
        e.message(),
        "keystore identity.json has version 99, but this build understands 1"
    );
    assert_eq!(
        KeystoreError::Malformed(PATH.into()).message(),
        "keystore identity.json is not valid JSON"
    );
    assert!(KeystoreError::BadKey(PATH.into()).message().contains("Ed25519"));
}
