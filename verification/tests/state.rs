use pickle::desktop::state::{identity_for, AppState, VoiceRoute};
use pickle::identity::keystore::KeystoreError;
use pickle::identity::vault::Vault;
use pickle::identity::Identity;

#[test]
fn a_fresh_route_points_nowhere() {
    let route = VoiceRoute::default();
    assert_eq!(route.session(), None);
}

#[test]
fn clearing_only_applies_to_the_session_that_holds_voice() {
    // Disconnecting a server that does *not* hold voice must not silence
    // the one that does.
    let mut route = VoiceRoute::default();
    assert!(!route.clear_if(1), "nothing to clear");
    assert_eq!(route.session(), None);

    route.set(2);
    assert!(!route.clear_if(1));
    assert_eq!(route.session(), Some(2));
    assert!(route.clear_if(2));
    assert_eq!(route.session(), None);
}

#[test]
fn session_ids_are_never_reused() {
    // A stale id from a closed tab must fail to resolve rather than
    // addressing whichever server took its place.
    let mut state = AppState::new();
    let ids: Vec<u64> = (0..5).map(|_| state.next_session_id()).collect();

    assert_eq!(ids, vec![1, 2, 3, 4, 5]);
    assert!(!ids.contains(&0), "zero stays invalid");
}

#[test]
fn voice_moves_only_when_asked() {
    let mut state = AppState::new();
    let first = state.open_session("a".into(), "me".into());
    let second = state.open_session("b".into(), "me".into());
    assert_eq!(state.voice_session(), Some(first), "the first one takes it");
    assert_eq!(state.route_voice(second), Ok(true));
    assert_eq!(state.route_voice(second), Ok(false));
    assert!(state.route_voice(99).is_err());

    state.end_session(second);
    assert_eq!(state.voice_session(), None, "never handed to another");
    assert!(state.with_session(first).is_ok());
    assert!(state.with_session(second).is_err());
    assert!(state.identity_in_use("me"));
    assert!(!state.identity_in_use("you"));
    assert_eq!(state.open_connections().len(), 1);
    assert_eq!(state.open_connections()[0].address, "a");
}

#[test]
fn the_last_session_takes_the_engine_with_it() {
    let mut state = AppState::new();
    assert!(state.is_idle());
    let first = state.open_session("a".into(), "me".into());
    let second = state.open_session("b".into(), "me".into());
    state.engine_started();

    let closing = state.end_session(second);
    assert!(closing.was_open && !closing.clear_speakers && !closing.stop_audio);
    let closing = state.end_session(first);
    assert!(closing.was_open && closing.clear_speakers && closing.stop_audio);
    let closing = state.end_session(first);
    assert!(!closing.was_open && !closing.stop_audio);
    assert!(state.is_idle());

    state.open_session("a".into(), "me".into());
    state.end_all_sessions();
    assert!(state.is_idle());
    assert_eq!(state.voice_session(), None);
}

#[test]
fn deafening_mutes_and_undeafening_does_not_open_the_microphone() {
    let mut state = AppState::new();
    assert!(state.set_muted(true).is_err(), "no engine to mute");
    state.engine_started();
    let v = state.set_deafened(true).unwrap();
    assert!(v.muted && v.deafened);
    let v = state.toggle_deafened().unwrap();
    assert!(v.muted && !v.deafened, "still muted");
    let v = state.toggle_muted().unwrap();
    assert!(!v.muted);

    state.set_muted(true).unwrap();
    let carried = state.engine_started();
    assert!(carried.muted, "a restart keeps the microphone closed");
    assert!(state.stop_audio());
    assert!(!state.stop_audio());
    assert!(!state.voice_state().muted);
}

#[test]
fn a_connection_signs_in_as_asked_or_as_the_active_identity() {
    let missing = KeystoreError::Io {
        path: "identity.json".into(),
        source: "not found".into(),
        not_found: true,
    };
    let (mut vault, _) =
        Vault::create("identities.json", "identity.json", Err(missing), "andy", None).unwrap();
    let second = vault.add(Identity::generate(), "alter-ego", "");
    let (identity, _, _) = identity_for(&vault, None).unwrap();
    assert_eq!(identity.fingerprint().to_string(), vault.active_fingerprint());
    let (identity, _, _) = identity_for(&vault, Some(&second)).unwrap();
    assert_eq!(identity.fingerprint().to_string(), second);
    assert!(identity_for(&vault, Some("nobody")).is_err());
}
