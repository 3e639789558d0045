use pickle::client::trust::{TrustDecision, TrustStore};
use pickle::desktop::commands::{
    add_identity, ban, canonical_address, connected_but, create_channel, delete_channel_overwrite,
    given_password, has_port, keep_mined, kick, known_servers, looked_up, may_mine, may_remove_identity, overwrite_target, parse_kind,
    readable_fingerprint, remove_identity, resolve, role_color, send_message, set_audio_settings,
    set_channel_overwrite, set_member_roles, set_nickname, speaking, trust_changed_identity_at, unban,
    update_channel, update_role, visible_nickname, EngineChange, Nonces,
    OverwriteTargetDto, DEFAULT_PORT,
};
use pickle::desktop::settings::{AudioSettings, StoredGateMode};
use pickle::desktop::state::AppState;
use pickle::identity::keystore::KeystoreError;
use pickle::identity::vault::Vault;
use pickle::identity::Identity;
use pickle::audio::vad::GateMode;
use pickle::proto::perms::{OverwriteTarget, Permissions};
use pickle::proto::{ChannelKind, ClientControl};

/// The port at the end of a host and port.
fn port(address: &str) -> u16 {
    address.rsplit(':').next().unwrap().parse().unwrap()
}

fn vault() -> Vault {
    let missing = KeystoreError::Io {
        path: "identity.json".into(),
        source: "not found".into(),
        not_found: true,
    };
    Vault::create("identities.json", "identity.json", Err(missing), "andy", None)
        .unwrap()
        .0
}

#[test]
fn a_bare_ipv4_address_gets_the_default_port() {
    assert_eq!(port(&resolve("127.0.0.1").unwrap()), DEFAULT_PORT);
}

#[test]
fn an_explicit_port_is_respected() {
    assert_eq!(port(&resolve("127.0.0.1:9000").unwrap()), 9000);
}

#[test]
fn a_bracketed_ipv6_address_is_understood() {
    // The case a naive "does it contain a colon" check gets wrong.
    assert_eq!(port(&resolve("[::1]").unwrap()), DEFAULT_PORT);
    assert_eq!(port(&resolve("[::1]:9000").unwrap()), 9000);
}

#[test]
fn surrounding_whitespace_is_tolerated() {
    // Addresses arrive pasted from chat more often than typed.
    assert_eq!(port(&resolve("  127.0.0.1:9000  ").unwrap()), 9000);
}

#[test]
fn an_empty_address_is_refused_with_a_readable_message() {
    assert!(resolve("   ")
        .unwrap_err()
        .contains("Enter a server address"));
}

#[test]
fn port_detection_handles_both_address_families() {
    assert!(has_port("127.0.0.1:1"));
    assert!(!has_port("127.0.0.1"));
    assert!(has_port("[::1]:1"));
    assert!(!has_port("[::1]"));
    assert!(!has_port("::1"), "a bare IPv6 address carries no port");
    assert!(has_port("example.com:1"));
    assert!(!has_port("example.com"));
}

#[test]
fn one_address_is_filed_one_way() {
    assert_eq!(canonical_address(" example.com "), "example.com:42071");
    assert_eq!(canonical_address("example.com:42071"), "example.com:42071");
    assert_eq!(canonical_address("[::1]"), "[::1]:42071");
}

#[test]
fn a_failed_lookup_names_the_address() {
    assert_eq!(
        looked_up(" nowhere ", Err("no such host".into())).unwrap_err(),
        "Could not look up nowhere: no such host"
    );
    assert_eq!(
        looked_up("nowhere", Ok(None)).unwrap_err(),
        "nowhere did not resolve to any address."
    );
    assert_eq!(
        looked_up("localhost", Ok(Some("127.0.0.1:42071".into()))).unwrap(),
        "127.0.0.1:42071"
    );
}

#[test]
fn a_nickname_is_trimmed_and_never_blank() {
    assert_eq!(visible_nickname("  andy ").unwrap(), "andy");
    assert!(visible_nickname(" \t ").is_err());

    let mut vault = vault();
    assert!(set_nickname(&mut vault, "  ").is_err());
    assert_eq!(vault.active().nickname, "andy");
    set_nickname(&mut vault, " randy ").unwrap();
    assert_eq!(vault.active().nickname, "randy");
}

#[test]
fn an_identity_in_use_is_not_deleted() {
    let mut vault = vault();
    let second = add_identity(&mut vault, Identity::generate(), " alter-ego ", " work ").unwrap();
    assert_eq!(vault.get(&second).unwrap().nickname, "alter-ego");
    assert_eq!(vault.get(&second).unwrap().label, "work");
    assert!(add_identity(&mut vault, Identity::generate(), " ", "").is_err());

    let mut state = AppState::new();
    let session = state.open_session("example.com".into(), second.clone());
    assert!(may_remove_identity(&state, &second).is_err());
    assert!(remove_identity(&state, &mut vault, &second)
        .unwrap_err()
        .contains("signed in"));
    state.end_session(session);
    remove_identity(&state, &mut vault, &second).unwrap();
    assert!(remove_identity(&state, &mut vault, &second)
        .unwrap_err()
        .contains("no identity with fingerprint"));
    let last = vault.active_fingerprint().to_string();
    assert!(remove_identity(&state, &mut vault, &last)
        .unwrap_err()
        .contains("only identity"));
}

#[test]
fn mining_is_bounded_and_its_result_kept() {
    assert!(may_mine(40).is_ok());
    assert!(may_mine(41).unwrap_err().contains("Try 24 to 32"));

    let mut vault = vault();
    let name = vault.active_fingerprint().to_string();
    assert!(keep_mined(&mut vault, &name, 77));
    assert_eq!(vault.active().identity.counter(), 77);
    assert!(!keep_mined(&mut vault, "deleted meanwhile", 78));
}

#[test]
fn a_blank_password_is_none() {
    assert_eq!(given_password(Some(String::new())), None);
    assert_eq!(given_password(None), None);
    assert_eq!(given_password(Some(" ".into())), Some(" ".into()));
}

#[test]
fn a_problem_after_connecting_is_worded_as_one() {
    assert_eq!(
        connected_but("The microphone is gone."),
        "Connected, but microphone is gone."
    );
    assert_eq!(connected_but("audio failed"), "Connected, but audio failed");
}

#[test]
fn channel_kinds_are_parsed_by_name() {
    assert_eq!(parse_kind("voice").unwrap(), ChannelKind::Voice);
    assert_eq!(parse_kind("text").unwrap(), ChannelKind::Text);
    assert_eq!(
        parse_kind("vo\"ice").unwrap_err(),
        "unknown channel kind \"vo\\\"ice\"",
        "quoted, so that it cannot be misread"
    );
}

#[test]
fn an_overwrite_names_a_role_or_a_member() {
    assert!(matches!(
        overwrite_target(&OverwriteTargetDto::Role { id: 5 }),
        Ok(OverwriteTarget::Role(5))
    ));
    let fp = Identity::generate().fingerprint();
    let member = OverwriteTargetDto::Member {
        fingerprint: fp.to_string(),
    };
    assert!(matches!(
        overwrite_target(&member),
        Ok(OverwriteTarget::Member(m)) if m == fp
    ));
    let unreadable = OverwriteTargetDto::Member {
        fingerprint: "?".into(),
    };
    assert!(overwrite_target(&unreadable).is_err());
    assert_eq!(readable_fingerprint(&fp.to_string()).unwrap(), fp);
}

#[test]
fn a_role_color_is_set_cleared_or_left() {
    assert_eq!(role_color(None, None), None);
    assert_eq!(role_color(Some(0xff0000), None), Some(Some(0xff0000)));
    assert_eq!(role_color(Some(0xff0000), Some(true)), Some(None));
    assert_eq!(role_color(None, Some(false)), None);
}

#[test]
fn nonces_count_up() {
    let mut nonces = Nonces::new();
    assert_eq!(nonces.admin_nonce(), 1);
    assert_eq!(nonces.admin_nonce(), 2);
}

#[test]
fn admin_commands_say_what_was_asked() {
    let fp = Identity::generate().fingerprint();
    assert!(matches!(
        ban(3, &fp.to_string(), "spam".into(), Some(9)),
        Ok(ClientControl::Ban { nonce: 3, fingerprint, until_unix_ms: Some(9), .. })
            if fingerprint == fp
    ));
    assert!(ban(3, "?", String::new(), None).is_err());
    assert!(matches!(
        kick(4, 8, None),
        ClientControl::Kick { nonce: 4, client: 8, reason } if reason.is_empty()
    ));
    assert!(matches!(
        create_channel(5, "lobby".into(), "text", None, None, None, None),
        Ok(ClientControl::CreateChannel { nonce: 5, kind: ChannelKind::Text, order: 0, .. })
    ));
    assert!(create_channel(5, "lobby".into(), "?", None, None, None, None).is_err());
}

#[test]
fn a_blank_message_is_not_sent() {
    assert!(send_message(1, " \n ".into(), 1).is_none());
    assert!(matches!(
        send_message(1, " hi ".into(), 2),
        Some(ClientControl::SendMessage { channel: 1, content, nonce: 2, .. }) if content == " hi "
    ));
}

#[test]
fn the_speakers_are_those_of_the_voice_session_and_oneself() {
    assert_eq!(speaking(None, Some(vec![1]), true, Some(9)).clients, vec![]);
    assert_eq!(speaking(Some(1), None, true, Some(9)).clients, vec![]);
    let both = speaking(Some(1), Some(vec![3, 4]), true, Some(9));
    assert_eq!(both.session, Some(1));
    assert_eq!(both.clients, vec![3, 4, 9]);
    assert_eq!(
        speaking(Some(1), Some(vec![3]), false, Some(9)).clients,
        vec![3]
    );
}

#[test]
fn a_running_engine_is_rebuilt_only_where_it_must_be() {
    let from = AudioSettings::default();
    let mut to = AudioSettings::default();
    to.gate_mode = StoredGateMode::PushToTalk;
    assert!(matches!(
        set_audio_settings(true, &from, &to),
        EngineChange::Gate(GateMode::PushToTalk)
    ));
    to.bitrate = 16_000;
    assert!(matches!(
        set_audio_settings(true, &from, &to),
        EngineChange::Restart
    ));
    assert!(matches!(
        set_audio_settings(false, &from, &to),
        EngineChange::Nothing
    ));
}

#[test]
fn an_agreed_change_is_recognised_afterwards() {
    let mut store = TrustStore::ephemeral();
    let original = Identity::generate().fingerprint();
    let replacement = Identity::generate().fingerprint();
    store.trust_at("example.com:42071", original, "Friends", 1);
    trust_changed_identity_at(
        &mut store,
        "example.com:42071",
        &replacement.to_string(),
        2,
    )
    .unwrap();
    assert_eq!(
        store.check("example.com:42071", replacement),
        TrustDecision::Recognised
    );
    assert_eq!(store.get("example.com:42071").unwrap().name, "Friends");
    assert!(trust_changed_identity_at(&mut store, "example.com:42071", "?", 3).is_err());
}

#[test]
fn commands_on_members_name_them() {
    let fp = Identity::generate().fingerprint();
    assert!(matches!(
        unban(6, &fp.to_string()),
        Ok(ClientControl::Unban { nonce: 6, fingerprint }) if fingerprint == fp
    ));
    assert_eq!(
        unban(6, "?").unwrap_err(),
        "that fingerprint is not readable: fingerprint is not valid base32"
    );
    assert!(matches!(
        set_member_roles(7, &fp.to_string(), vec![2, 5]),
        Ok(ClientControl::SetMemberRoles { nonce: 7, fingerprint, roles })
            if fingerprint == fp && roles == [2, 5]
    ));
    assert!(set_member_roles(7, "?", vec![]).is_err());
}

#[test]
fn a_role_is_changed_only_where_asked() {
    assert!(matches!(
        update_role(8, 3, Some("mods".into()), Some(0xff), Some(true), None),
        ClientControl::UpdateRole {
            nonce: 8,
            id: 3,
            name: Some(_),
            color: Some(None),
            permissions: None,
        }
    ));
    assert!(matches!(
        update_role(8, 3, None, Some(0xff), None, Some(Permissions(5))),
        ClientControl::UpdateRole {
            name: None,
            color: Some(Some(0xff)),
            permissions: Some(Permissions(5)),
            ..
        }
    ));
}

#[test]
fn an_overwrite_is_set_and_taken_away() {
    let role = OverwriteTargetDto::Role { id: 5 };
    assert!(matches!(
        set_channel_overwrite(9, 2, &role, Permissions(1), Permissions(2)),
        Ok(ClientControl::SetChannelOverwrite {
            nonce: 9,
            channel: 2,
            target: OverwriteTarget::Role(5),
            allow: Permissions(1),
            deny: Permissions(2),
        })
    ));
    assert!(matches!(
        delete_channel_overwrite(10, 2, &role),
        Ok(ClientControl::DeleteChannelOverwrite {
            nonce: 10,
            channel: 2,
            target: OverwriteTarget::Role(5),
        })
    ));
    let unreadable = OverwriteTargetDto::Member {
        fingerprint: "?".into(),
    };
    assert!(set_channel_overwrite(9, 2, &unreadable, Permissions(1), Permissions(2)).is_err());
    assert!(delete_channel_overwrite(9, 2, &unreadable).is_err());
}

#[test]
fn a_channel_is_changed_as_a_whole() {
    assert!(matches!(
        update_channel(11, 4, "den".into(), "voice", Some(1), "quiet".into(), Some(8), -2),
        Ok(ClientControl::UpdateChannel {
            nonce: 11,
            id: 4,
            parent: Some(1),
            kind: ChannelKind::Voice,
            max_users: Some(8),
            order: -2,
            name,
            topic,
        }) if name == "den" && topic == "quiet"
    ));
    assert!(update_channel(11, 4, "den".into(), "?", None, String::new(), None, 0).is_err());
}

#[test]
fn known_servers_are_listed_by_address() {
    let mut store = TrustStore::ephemeral();
    let a = Identity::generate().fingerprint();
    let b = Identity::generate().fingerprint();
    store.trust_at("b.example:42071", b, "B", 1);
    store.trust_at("a.example:42071", a, "A", 2);
    let known = known_servers(&store);
    assert_eq!(known.len(), 2);
    assert_eq!(known[0].address, "a.example:42071");
    assert_eq!(known[0].name, "A");
    assert_eq!(known[0].fingerprint, a.short());
    assert_eq!(known[1].address, "b.example:42071");
    assert_eq!(known[1].name, "B");
    assert_eq!(known[1].fingerprint, b.short());
}

#[test]
fn no_command_touches_how_the_vault_is_protected() {
    let missing = KeystoreError::Io {
        path: "identity.json".into(),
        source: "not found".into(),
        not_found: true,
    };
    let mut vault = Vault::create(
        "identities.json",
        "identity.json",
        Err(missing),
        "andy",
        Some("correct horse"),
    )
    .unwrap()
    .0;
    let first = vault.active_fingerprint().to_string();
    assert!(vault.is_encrypted());
    set_nickname(&mut vault, "mandy").unwrap();
    add_identity(&mut vault, Identity::generate(), "andy", "work").unwrap();
    assert!(keep_mined(&mut vault, &first, 7));
    remove_identity(&AppState::new(), &mut vault, &first).unwrap();
    assert!(vault.is_encrypted());
}
