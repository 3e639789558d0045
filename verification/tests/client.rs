use bytes::Bytes;
use pickle::client::trust::{TrustDecision, TrustStore};
use pickle::client::{
    advance, apply_trust_policy, apply_trust_policy_at, describe, max_voice_payload,
    normalise_server_key, peer_certificate_hash, receive_control, receive_datagram, translate,
    ClientEvent, ConnectError, ConnectOptions, HandshakeAction, HandshakeEvent, HandshakeState,
    Inbound, RejectionReason, TrustPolicy,
};
use pickle::identity::{Identity, PublicIdentity};
use pickle::proto::codec::CodecError;
use pickle::proto::voice::VoiceDownstream;
use pickle::proto::{
    AuthFailure, AuthOk, ClientAuth, ServerControl, ServerHello, ServerLimits, SignatureBytes,
    PROTOCOL_VERSION,
};

#[test]
fn strict_policy_refuses_an_unknown_server() {
    let mut store = TrustStore::ephemeral();
    let fingerprint = Identity::generate().fingerprint();
    let result = apply_trust_policy(
        &mut store,
        TrustPolicy::Strict,
        "1.2.3.4:42071",
        "1.2.3.4:42071",
        fingerprint,
        "Server",
    );
    assert!(matches!(result, Err(ConnectError::NotTrusted { .. })));
}

#[test]
fn first_use_policy_pins_an_unknown_server() {
    let mut store = TrustStore::ephemeral();
    let fingerprint = Identity::generate().fingerprint();
    apply_trust_policy(
        &mut store,
        TrustPolicy::OnFirstUse,
        "1.2.3.4:42071",
        "1.2.3.4:42071",
        fingerprint,
        "Server",
    )
    .unwrap();
    assert_eq!(
        store.check("1.2.3.4:42071", fingerprint),
        TrustDecision::Recognised
    );
}

#[test]
fn a_changed_identity_is_refused_under_every_safe_policy() {
    for policy in [TrustPolicy::OnFirstUse, TrustPolicy::Strict] {
        let mut store = TrustStore::ephemeral();
        let original = Identity::generate().fingerprint();
        let impostor = Identity::generate().fingerprint();
        store.trust("1.2.3.4:42071", original, "Server");

        let result = apply_trust_policy(
            &mut store,
            policy,
            "1.2.3.4:42071",
            "1.2.3.4:42071",
            impostor,
            "Server",
        );
        assert!(
            matches!(result, Err(ConnectError::IdentityChanged { .. })),
            "{policy:?} must not silently accept a new identity"
        );
    }
}

#[test]
fn a_deliberate_repin_resolves_a_changed_identity() {
    // The resolution path the client UI drives: the user is shown the new
    // fingerprint, agrees to it, the pin is replaced with exactly that
    // value — and only then does the same connection succeed. Trusting is
    // an act on the store, never a policy loosening.
    let mut store = TrustStore::ephemeral();
    let original = Identity::generate().fingerprint();
    let replacement = Identity::generate().fingerprint();
    store.trust("1.2.3.4:42071", original, "Server");

    let check = |store: &mut TrustStore| {
        apply_trust_policy(
            store,
            TrustPolicy::OnFirstUse,
            "1.2.3.4:42071",
            "1.2.3.4:42071",
            replacement,
            "Server",
        )
    };

    assert!(matches!(
        check(&mut store),
        Err(ConnectError::IdentityChanged { .. })
    ));

    store.trust("1.2.3.4:42071", replacement, "Server");
    check(&mut store).expect("the replaced pin must be honoured");

    // And a server that changes identity *again* after the user agreed is
    // refused again — nothing was pinned sight-unseen.
    let third = Identity::generate().fingerprint();
    let result = apply_trust_policy(
        &mut store,
        TrustPolicy::OnFirstUse,
        "1.2.3.4:42071",
        "1.2.3.4:42071",
        third,
        "Server",
    );
    assert!(matches!(result, Err(ConnectError::IdentityChanged { .. })));
}

#[test]
fn insecure_policy_pins_nothing() {
    let mut store = TrustStore::ephemeral();
    let fingerprint = Identity::generate().fingerprint();
    apply_trust_policy(
        &mut store,
        TrustPolicy::Insecure,
        "1.2.3.4:42071",
        "1.2.3.4:42071",
        fingerprint,
        "Server",
    )
    .unwrap();
    assert!(store.get("1.2.3.4:42071").is_none());
}

#[test]
fn handshake_frames_do_not_leak_into_the_event_stream() {
    assert!(translate(ServerControl::AuthFailed(AuthFailure::ServerFull)).is_none());
    assert!(translate(ServerControl::Pong { nonce: 1 }).is_some());
}

#[test]
fn auth_failures_map_to_actionable_messages() {
    let reason: RejectionReason = AuthFailure::SecurityLevelTooLow {
        required: 20,
        provided: 8,
    }
    .into();
    let text = reason.message();
    assert!(text.contains("20") && text.contains('8'), "{text}");
}

const ADDRESS: &str = "1.2.3.4:42071";
const CERTIFICATE: &[u8] = b"a certificate";
const NONCE: [u8; 32] = [9; 32];

fn options() -> ConnectOptions {
    ConnectOptions::new(ADDRESS.to_string(), "alice".to_string())
        .with_password("hunter2".to_string())
        .with_server_key("  Example.ORG:42071 ")
}

fn cert_hash() -> [u8; 32] {
    peer_certificate_hash(&Some(vec![CERTIFICATE.to_vec()])).unwrap()
}

fn greeting(server: &Identity) -> ServerHello {
    ServerHello {
        protocol_version: PROTOCOL_VERSION,
        server_name: "Test Server".to_string(),
        server_identity: server.public(),
        nonce: NONCE,
        min_security_level: 0,
        requires_password: false,
        signature: SignatureBytes(server.sign_server_hello(&NONCE, &cert_hash(), "Test Server")),
    }
}

/// Takes a login from the first packet to the greeting.
fn greet(
    hello: ServerHello,
    who: &Identity,
    store: &mut TrustStore,
) -> (HandshakeState, HandshakeAction) {
    let options = options();
    let certificates = Some(vec![CERTIFICATE.to_vec()]);
    let (state, action) = advance(
        HandshakeState::Dialing,
        HandshakeEvent::Connected { certificates },
        &options,
        who,
        "test",
        store,
        5,
    );
    assert!(matches!(action, HandshakeAction::AwaitStream));
    let (state, action) = advance(
        state,
        HandshakeEvent::StreamOpened,
        &options,
        who,
        "test",
        store,
        5,
    );
    assert!(matches!(action, HandshakeAction::AwaitFrame));
    advance(
        state,
        HandshakeEvent::Frame(Ok(ServerControl::Hello(Box::new(hello)))),
        &options,
        who,
        "test",
        store,
        5,
    )
}

/// The login that answers a greeting.
fn login(step: (HandshakeState, HandshakeAction)) -> (HandshakeState, ClientAuth, bool) {
    match step {
        (state, HandshakeAction::SendAuth { auth, pins_changed }) => (state, auth, pins_changed),
        _ => panic!("a login belongs here"),
    }
}

/// The error that a step ended in.
fn failure(step: (HandshakeState, HandshakeAction)) -> ConnectError {
    match step {
        (HandshakeState::Done, HandshakeAction::Fail(e)) => e,
        _ => panic!("an error belongs here"),
    }
}

#[test]
fn a_login_runs_from_the_first_packet_to_the_session() {
    let server = Identity::generate();
    let who = Identity::generate();
    let mut store = TrustStore::ephemeral();
    let (state, auth, pins_changed) = login(greet(greeting(&server), &who, &mut store));

    assert!(pins_changed, "first contact pins");
    assert_eq!(
        store.check("example.org:42071", server.fingerprint()),
        TrustDecision::Recognised,
        "under the typed address, in lower case"
    );
    assert_eq!(auth.nickname, "alice");
    assert_eq!(auth.password, Some("hunter2".to_string()));
    assert_eq!(auth.client_version, "test");
    assert_eq!(auth.identity.fingerprint(), who.fingerprint());
    assert!(auth
        .identity
        .verify_auth(&NONCE, &cert_hash(), &auth.signature.0)
        .is_ok());

    let verdict = AuthOk {
        client_id: 4,
        channels: Vec::new(),
        users: Vec::new(),
        roles: Vec::new(),
        default_channel: Some(1),
        limits: ServerLimits::default(),
    };
    let step = advance(
        state,
        HandshakeEvent::Frame(Ok(ServerControl::AuthOk(Box::new(verdict)))),
        &options(),
        &who,
        "test",
        &mut store,
        6,
    );
    match step {
        (HandshakeState::Done, HandshakeAction::Finish(session)) => {
            assert_eq!(session.client_id, 4);
            assert_eq!(session.server_name, "Test Server");
            assert_eq!(session.server_identity.fingerprint(), server.fingerprint());
            assert_eq!(session.default_channel, Some(1));
        }
        _ => panic!("the session is up"),
    }
}

#[test]
fn a_greeting_for_another_connection_is_forged() {
    let server = Identity::generate();
    let mut hello = greeting(&server);
    hello.signature =
        SignatureBytes(server.sign_server_hello(&NONCE, &[0; 32], "Test Server"));
    let mut store = TrustStore::ephemeral();
    let e = failure(greet(hello, &Identity::generate(), &mut store));
    assert!(matches!(e, ConnectError::ForgedGreeting { fingerprint } if fingerprint == server.fingerprint()));
    assert!(store.iter().is_empty(), "and nothing is pinned");
}

#[test]
fn a_greeting_of_another_version_is_refused_first() {
    let server = Identity::generate();
    let mut hello = greeting(&server);
    hello.protocol_version = PROTOCOL_VERSION + 1;
    hello.signature = SignatureBytes([0; 64]);
    let mut store = TrustStore::ephemeral();
    let e = failure(greet(hello, &Identity::generate(), &mut store));
    assert!(matches!(
        e,
        ConnectError::ProtocolMismatch { ours: PROTOCOL_VERSION, .. }
    ));
}

#[test]
fn a_server_that_changed_is_answered_with_nothing() {
    let mut store = TrustStore::ephemeral();
    let original = Identity::generate();
    store.trust_at("example.org:42071", original.fingerprint(), "Test Server", 1);
    let e = failure(greet(
        greeting(&Identity::generate()),
        &Identity::generate(),
        &mut store,
    ));
    assert!(matches!(
        e,
        ConnectError::IdentityChanged { expected, .. } if expected == original.fingerprint()
    ));
    assert_eq!(
        store.get("example.org:42071").unwrap().last_seen_unix_ms,
        1,
        "the pin is left alone"
    );
}

#[test]
fn every_way_a_login_ends_early_has_its_error() {
    let who = Identity::generate();
    let mut store = TrustStore::ephemeral();
    let mut end = |state: HandshakeState, event: HandshakeEvent| {
        failure(advance(
            state,
            event,
            &options(),
            &who,
            "test",
            &mut store,
            0,
        ))
    };
    let cert_hash = [1; 32];
    assert!(matches!(
        end(
            HandshakeState::Dialing,
            HandshakeEvent::Connected { certificates: None }
        ),
        ConnectError::NoPeerCertificate
    ));
    assert!(matches!(
        end(
            HandshakeState::Dialing,
            HandshakeEvent::Connected {
                certificates: Some(Vec::new())
            }
        ),
        ConnectError::NoPeerCertificate
    ));
    assert!(matches!(
        end(HandshakeState::Dialing, HandshakeEvent::DialTimedOut),
        ConnectError::Unreachable { .. }
    ));
    assert!(matches!(
        end(
            HandshakeState::Dialing,
            HandshakeEvent::DialFailed("refused".into())
        ),
        ConnectError::Transport { .. }
    ));
    assert!(matches!(
        end(
            HandshakeState::AwaitingStream { cert_hash },
            HandshakeEvent::StreamTimedOut
        ),
        ConnectError::TimedOut
    ));
    assert!(matches!(
        end(
            HandshakeState::AwaitingStream { cert_hash },
            HandshakeEvent::StreamFailed
        ),
        ConnectError::ClosedDuringHandshake
    ));
    assert!(matches!(
        end(
            HandshakeState::AwaitingGreeting { cert_hash },
            HandshakeEvent::FrameTimedOut
        ),
        ConnectError::TimedOut
    ));
    assert!(matches!(
        end(
            HandshakeState::AwaitingGreeting { cert_hash },
            HandshakeEvent::Frame(Err(CodecError::Closed))
        ),
        ConnectError::Codec(CodecError::Closed)
    ));
    assert!(matches!(
        end(
            HandshakeState::AwaitingGreeting { cert_hash },
            HandshakeEvent::Frame(Ok(ServerControl::Pong { nonce: 1 }))
        ),
        ConnectError::UnexpectedGreeting("an unexpected message")
    ));
    let waiting = |server: PublicIdentity| HandshakeState::AwaitingVerdict {
        server_name: "Test Server".to_string(),
        server_identity: server,
    };
    let server = Identity::generate().public();
    assert!(matches!(
        end(
            waiting(server),
            HandshakeEvent::Frame(Ok(ServerControl::AuthFailed(AuthFailure::ServerFull)))
        ),
        ConnectError::Rejected(RejectionReason::ServerFull)
    ));
    assert!(matches!(
        end(waiting(server), HandshakeEvent::SendFailed(CodecError::Closed)),
        ConnectError::Codec(CodecError::Closed)
    ));
}

#[test]
fn a_pin_under_the_resolved_address_is_carried_over() {
    let mut store = TrustStore::ephemeral();
    let fingerprint = Identity::generate().fingerprint();
    store.trust_at(ADDRESS, fingerprint, "Server", 1);
    let written = apply_trust_policy_at(
        &mut store,
        TrustPolicy::Strict,
        "example.org:42071",
        ADDRESS,
        fingerprint,
        "Server",
        2,
    );
    assert!(written.unwrap());
    assert_eq!(
        store.check("example.org:42071", fingerprint),
        TrustDecision::Recognised
    );
}

#[test]
fn a_pin_under_the_resolved_address_for_another_identity_is_not_carried_over() {
    let mut store = TrustStore::ephemeral();
    let other = Identity::generate().fingerprint();
    let fingerprint = Identity::generate().fingerprint();
    store.trust_at(ADDRESS, other, "Server", 1);
    let refused = apply_trust_policy_at(
        &mut store,
        TrustPolicy::Strict,
        "example.org:42071",
        ADDRESS,
        fingerprint,
        "Server",
        2,
    );
    assert!(refused.is_err());
    assert_eq!(
        store.check("example.org:42071", fingerprint),
        TrustDecision::FirstContact { fingerprint }
    );
    assert_eq!(store.check(ADDRESS, other), TrustDecision::Recognised);
}

#[test]
fn the_certificate_hash_is_sha256_of_the_first_certificate() {
    // SHA-256 of "abc".
    let expected: [u8; 32] = [
        0xba, 0x78, 0x16, 0xbf, 0x8f, 0x01, 0xcf, 0xea, 0x41, 0x41, 0x40, 0xde, 0x5d, 0xae, 0x22,
        0x23, 0xb0, 0x03, 0x61, 0xa3, 0x96, 0x17, 0x7a, 0x9c, 0xb4, 0x10, 0xff, 0x61, 0xf2, 0x00,
        0x15, 0xad,
    ];
    let chain = Some(vec![b"abc".to_vec(), b"an issuer".to_vec()]);
    assert_eq!(peer_certificate_hash(&chain).unwrap(), expected);
}

#[test]
fn a_server_key_is_filed_in_lower_case_without_space() {
    assert_eq!(normalise_server_key("  Example.ORG:42071\t"), "example.org:42071");
}

#[test]
fn the_end_of_the_stream_is_the_last_event() {
    assert!(matches!(
        receive_control(Err(CodecError::Closed)),
        Inbound::Last(ClientEvent::Disconnected { .. })
    ));
    assert!(matches!(
        receive_control(Ok(ServerControl::Pong { nonce: 3 })),
        Inbound::Event(ClientEvent::Pong { nonce: 3 })
    ));
    assert!(matches!(
        receive_control(Ok(ServerControl::AuthFailed(AuthFailure::ServerFull))),
        Inbound::Nothing
    ));
}

#[test]
fn a_datagram_becomes_a_voice_event_or_nothing() {
    let packet = VoiceDownstream {
        sender: 7,
        seq: 1,
        flags: 0,
        payload: Bytes::from_static(b"opus"),
    };
    match receive_datagram(packet.encode()) {
        Some(ClientEvent::Voice(got)) => assert_eq!(&got.payload[..], b"opus"),
        _ => panic!("a voice packet belongs here"),
    }
    assert!(receive_datagram(Bytes::from_static(b"?")).is_none());
}

#[test]
fn a_voice_payload_fits_what_the_header_leaves() {
    assert_eq!(max_voice_payload(None), None);
    assert_eq!(max_voice_payload(Some(3)), Some(0));
    let header = pickle::proto::voice::UPSTREAM_HEADER_LEN;
    assert_eq!(max_voice_payload(Some(1200)), Some(1200 - header));
}

#[test]
fn a_frame_is_named_when_it_comes_out_of_place() {
    assert_eq!(
        describe(&ServerControl::Pong { nonce: 1 }),
        "an unexpected message"
    );
    assert_eq!(
        describe(&ServerControl::AuthFailed(AuthFailure::ServerFull)),
        "AuthFailed"
    );
}

#[test]
fn connection_errors_have_words() {
    let fingerprint = Identity::generate().fingerprint();
    let changed = ConnectError::IdentityChanged {
        address: "example.org:42071".into(),
        expected: fingerprint,
        actual: fingerprint,
    };
    assert!(changed.message().contains("example.org:42071"));
    assert!(changed.message().contains(&fingerprint.to_string()));
    assert!(ConnectError::Unreachable { address: ADDRESS.into() }
        .message()
        .contains(ADDRESS));
    assert!(RejectionReason::Banned { reason: "spam".into() }
        .message()
        .contains("spam"));
}
