use pickle::identity::Identity;
use pickle::proto::{
    Capability, ChannelKind, Permissions, ServerHello, ServerLimits, SignatureBytes, VoiceState,
    ALPN, PROTOCOL_VERSION,
};

fn role_at(rank: u32, capabilities: Vec<Capability>) -> Permissions {
    Permissions {
        role: Some("test".into()),
        rank,
        capabilities,
        owner: false,
    }
}

#[test]
fn channel_kind_capabilities() {
    assert!(ChannelKind::Voice.has_voice() && !ChannelKind::Voice.has_text());
    assert!(ChannelKind::Text.has_text() && !ChannelKind::Text.has_voice());
    assert!(ChannelKind::VoiceAndText.has_voice() && ChannelKind::VoiceAndText.has_text());
}

#[test]
fn capabilities_are_explicit_not_implied_by_rank() {
    // The reason capabilities exist separately from rank: "may mute but not
    // kick" has to be expressible.
    let muter = role_at(50, vec![Capability::MuteUsers]);
    assert!(muter.allows(Capability::MuteUsers));
    assert!(!muter.allows(Capability::KickUsers));
}

#[test]
fn an_equal_rank_cannot_be_acted_on() {
    // Two moderators must not be able to kick each other.
    let one = role_at(50, Capability::all().to_vec());
    let two = role_at(50, Capability::all().to_vec());
    assert!(!one.outranks(&two));
    assert!(!two.outranks(&one));
}

#[test]
fn a_higher_rank_may_act_on_a_lower_one_but_not_the_reverse() {
    let admin = role_at(100, Capability::all().to_vec());
    let moderator = role_at(50, Capability::all().to_vec());
    assert!(admin.outranks(&moderator));
    assert!(!moderator.outranks(&admin));
}

#[test]
fn the_owner_outranks_everyone_and_is_never_outranked() {
    // Promoting someone must not be a way to lose your own server.
    let owner = Permissions {
        role: None,
        rank: 0,
        capabilities: Vec::new(),
        owner: true,
    };
    let admin = role_at(u32::MAX, Capability::all().to_vec());

    assert!(owner.outranks(&admin), "despite holding rank 0");
    assert!(!admin.outranks(&owner), "despite holding the highest rank");
    for capability in Capability::all() {
        assert!(owner.allows(capability), "{capability:?}");
    }
}

#[test]
fn a_user_without_a_role_may_do_nothing() {
    let nobody = Permissions::none();
    for capability in Capability::all() {
        assert!(!nobody.allows(capability), "{capability:?}");
    }
    assert!(!nobody.outranks(&Permissions::none()));
}

#[test]
fn the_alpn_matches_the_protocol_crate() {
    // A mismatch would fail the TLS handshake with an opaque error, so it
    // is worth catching here rather than at runtime.
    assert_eq!(ALPN.as_bytes(), b"pickle/1");
}

#[test]
fn every_capability_is_listed_once() {
    let all = Capability::all();
    assert_eq!(all.len(), 7);
    for i in 0..all.len() {
        for j in 0..i {
            assert_ne!(all[i], all[j]);
        }
    }
}

#[test]
fn a_signature_has_sixty_four_octets() {
    assert_eq!(SignatureBytes::from_slice(&[7u8; 64]), Ok(SignatureBytes([7u8; 64])));
    assert_eq!(SignatureBytes::from_slice(&[7u8; 63]), Err(63));
    assert_eq!(SignatureBytes::from([1u8; 64]).0, [1u8; 64]);
}

#[test]
fn a_greeting_carries_a_signature_that_verifies() {
    let identity = Identity::generate();
    let nonce = [3u8; 32];
    let cert = [4u8; 32];
    let signature = identity.sign_server_hello(&nonce, &cert, "Andy's Server");
    let hello = ServerHello {
        protocol_version: PROTOCOL_VERSION,
        server_name: "Andy's Server".into(),
        server_identity: identity.public(),
        nonce,
        min_security_level: 8,
        requires_password: false,
        signature: signature.into(),
    };
    assert!(hello
        .server_identity
        .verify_server_hello(&hello.nonce, &cert, &hello.server_name, &hello.signature.0)
        .is_ok());
}

#[test]
fn defaults_are_those_of_a_fresh_server() {
    let limits = ServerLimits::default();
    assert_eq!(limits.max_message_len, 4000);
    assert_eq!(limits.max_nickname_len, 32);
    assert_eq!(limits.max_users, 64);
    assert!(limits.history_enabled);
    assert_eq!(VoiceState::default(), VoiceState {
        self_muted: false,
        self_deafened: false,
        server_muted: false,
        speaking: false,
    });
}
