use pickle::client::trust::{unix_ms_of, TrustDecision, TrustError, TrustStore, TrustedServer};
use pickle::identity::keystore::FileRead;
use pickle::identity::{Fingerprint, Identity};

fn fingerprint() -> Fingerprint {
    Identity::generate().fingerprint()
}

#[test]
fn an_unknown_address_is_first_contact() {
    let store = TrustStore::ephemeral();
    let fp = fingerprint();
    assert_eq!(
        store.check("1.2.3.4:42071", fp),
        TrustDecision::FirstContact { fingerprint: fp }
    );
}

#[test]
fn a_pinned_identity_is_recognised() {
    let mut store = TrustStore::ephemeral();
    let fp = fingerprint();
    store.trust("1.2.3.4:42071", fp, "Andy's Server");
    assert_eq!(store.check("1.2.3.4:42071", fp), TrustDecision::Recognised);
}

#[test]
fn a_different_identity_on_a_known_address_is_flagged() {
    let mut store = TrustStore::ephemeral();
    let original = fingerprint();
    let impostor = fingerprint();
    store.trust("1.2.3.4:42071", original, "Andy's Server");

    assert_eq!(
        store.check("1.2.3.4:42071", impostor),
        TrustDecision::Changed {
            expected: original,
            actual: impostor,
        }
    );
}

#[test]
fn checking_does_not_pin() {
    // The user must get a chance to refuse before anything is recorded.
    let store = TrustStore::ephemeral();
    let fp = fingerprint();
    store.check("1.2.3.4:42071", fp);
    assert!(store.get("1.2.3.4:42071").is_none());
}

#[test]
fn a_server_rename_is_not_treated_as_a_change() {
    let mut store = TrustStore::ephemeral();
    let fp = fingerprint();
    store.trust("1.2.3.4:42071", fp, "Old Name");
    store.trust("1.2.3.4:42071", fp, "New Name");

    assert_eq!(store.check("1.2.3.4:42071", fp), TrustDecision::Recognised);
    assert_eq!(store.get("1.2.3.4:42071").unwrap().name, "New Name");
}

#[test]
fn re_pinning_keeps_the_original_first_seen() {
    let mut store = TrustStore::ephemeral();
    let fp = fingerprint();
    store.trust("1.2.3.4:42071", fp, "Server");
    let first_seen = store.get("1.2.3.4:42071").unwrap().first_seen_unix_ms;

    store.trust("1.2.3.4:42071", fingerprint(), "Server");
    assert_eq!(
        store.get("1.2.3.4:42071").unwrap().first_seen_unix_ms,
        first_seen,
        "how long a server was trusted is context the user needs"
    );
}

#[test]
fn addresses_are_pinned_independently() {
    let mut store = TrustStore::ephemeral();
    let a = fingerprint();
    let b = fingerprint();
    store.trust("1.2.3.4:42071", a, "A");
    store.trust("5.6.7.8:42071", b, "B");

    assert_eq!(store.check("1.2.3.4:42071", a), TrustDecision::Recognised);
    assert_eq!(store.check("5.6.7.8:42071", b), TrustDecision::Recognised);
    assert!(matches!(
        store.check("5.6.7.8:42071", a),
        TrustDecision::Changed { .. }
    ));
}

#[test]
fn forgetting_an_address_returns_it_to_first_contact() {
    let mut store = TrustStore::ephemeral();
    let fp = fingerprint();
    store.trust("1.2.3.4:42071", fp, "Server");

    assert!(store.forget("1.2.3.4:42071"));
    assert!(!store.forget("1.2.3.4:42071"));
    assert!(matches!(
        store.check("1.2.3.4:42071", fp),
        TrustDecision::FirstContact { .. }
    ));
}

/// The pins of a store, as its file holds them.
fn written(store: &TrustStore) -> FileRead<Vec<(String, TrustedServer)>> {
    FileRead::Read {
        mode: None,
        document: Some(store.iter().to_vec()),
    }
}

#[test]
fn the_store_survives_a_save_and_reload() {
    let path = "known_servers.json";
    let fp = fingerprint();

    let mut store = TrustStore::open(path, FileRead::Missing("no such file".into())).unwrap();
    store.trust("1.2.3.4:42071", fp, "Andy's Server");

    let reloaded = TrustStore::open(path, written(&store)).unwrap();
    assert_eq!(
        reloaded.check("1.2.3.4:42071", fp),
        TrustDecision::Recognised
    );
    assert_eq!(reloaded.get("1.2.3.4:42071").unwrap().name, "Andy's Server");
}

#[test]
fn a_missing_store_file_starts_empty() {
    let file = FileRead::Missing("no such file".into());
    let store = TrustStore::open("does-not-exist.json", file).unwrap();
    assert_eq!(store.iter().iter().count(), 0);
}

#[test]
fn a_corrupt_store_is_reported_rather_than_discarded() {
    // Quietly starting fresh would silently drop every pin the user has.
    let file = FileRead::Read {
        mode: None,
        document: None,
    };
    assert!(matches!(
        TrustStore::open("known_servers.json", file),
        Err(TrustError::Malformed(_))
    ));
}

#[test]
fn a_store_that_cannot_be_read_says_why() {
    let file = FileRead::Failed("permission denied".into());
    match TrustStore::open("known_servers.json", file) {
        Err(e) => assert_eq!(
            e.message(),
            "reading known_servers.json: permission denied"
        ),
        Ok(_) => panic!("nothing was read"),
    }
    assert_eq!(
        TrustError::Malformed("known_servers.json".into()).message(),
        "known_servers.json is not valid JSON"
    );
}

#[test]
fn pins_are_listed_by_address_whatever_order_they_came_in() {
    let mut store = TrustStore::ephemeral();
    for address in ["c:1", "a:1", "b:1", "a:1"] {
        store.trust_at(address, fingerprint(), address, 7);
    }
    let listed: Vec<&str> = store.iter().iter().map(|(a, _)| a.as_str()).collect();
    assert_eq!(listed, vec!["a:1", "b:1", "c:1"]);
}

#[test]
fn the_time_of_a_pin_is_the_time_given() {
    let mut store = TrustStore::ephemeral();
    store.trust_at("a:1", fingerprint(), "A", 7);
    store.trust_at("a:1", fingerprint(), "A", 9);
    let pin = store.get("a:1").unwrap();
    assert_eq!(pin.first_seen_unix_ms, 7);
    assert_eq!(pin.last_seen_unix_ms, 9);
}

#[test]
fn the_clock_is_read_in_milliseconds() {
    let now = pickle::client::trust::now_unix_ms();
    assert!(now > 1_600_000_000_000, "later than 2020");
    assert!(now < 10_000_000_000_000, "and not in microseconds");
    assert_eq!(unix_ms_of(None), 0);
    assert_eq!(unix_ms_of(Some(5)), 5);
    assert_eq!(unix_ms_of(Some(1 << 64)), 0);
}
