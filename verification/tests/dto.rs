use pickle::audio::devices::{DeviceInfo, DeviceKind};
use pickle::client::{ClientEvent, ConnectError};
use pickle::desktop::dto::{
    error_code_str, route_event, AudioDeviceDto, BanDto, ChannelDto, ConnectFailureDto, EventDto,
    IdentityDto, IdentityListDto, Routed, UserDto,
};
use pickle::identity::keystore::KeystoreError;
use pickle::identity::vault::Vault;
use pickle::identity::Identity;
use pickle::proto::voice::VoiceDownstream;
use pickle::proto::{
    BanEntry, Channel, ChannelKind, DisconnectReason, ErrorCode, UserInfo,
};

#[test]
fn a_user_dto_carries_both_fingerprint_forms() {
    let identity = Identity::generate();
    let user = UserInfo {
        client_id: 1,
        identity: identity.public(),
        nickname: "randy".into(),
        channel: None,
        voice: Default::default(),
        connected_at_unix_ms: 0,
        roles: Vec::new(),
        owner: false,
    };
    let dto = UserDto::new(&user);
    assert_eq!(dto.fingerprint, identity.fingerprint().to_string());
    assert_eq!(dto.short, identity.fingerprint().short());
    assert_ne!(dto.fingerprint, dto.short, "short must actually abbreviate");
}

#[test]
fn an_error_code_is_a_word_the_window_knows() {
    assert_eq!(error_code_str(ErrorCode::NotPermitted), "notPermitted");
    assert_eq!(error_code_str(ErrorCode::RateLimited), "rateLimited");
}

#[test]
fn a_channel_shows_what_it_carries() {
    let channel = Channel {
        id: 3,
        parent: Some(1),
        name: "lobby".into(),
        topic: "hello".into(),
        kind: ChannelKind::Text,
        max_users: Some(8),
        order: -2,
        overwrites: Vec::new(),
    };
    let dto = ChannelDto::new(&channel);
    assert!(dto.has_text && !dto.has_voice);
    assert_eq!(dto.parent, Some(1));
    assert_eq!(dto.order, -2);
    assert_eq!(dto.topic, "hello");
}

#[test]
fn events_go_to_the_window_the_mixer_or_nowhere() {
    let (routed, last) = route_event(&ClientEvent::UserLeft {
        client: 4,
        reason: DisconnectReason::Kicked,
    });
    assert!(!last);
    assert!(matches!(
        routed,
        Routed::ToWindow(EventDto::UserLeft { client_id: 4, reason: "kicked" })
    ));
    let voice = VoiceDownstream {
        sender: 1,
        seq: 0,
        flags: 0,
        payload: bytes::Bytes::new(),
    };
    assert!(matches!(
        route_event(&ClientEvent::Voice(voice)).0,
        Routed::ToMixer
    ));
    assert!(matches!(
        route_event(&ClientEvent::Pong { nonce: 1 }),
        (Routed::Dropped, false)
    ));
    assert!(matches!(
        route_event(&ClientEvent::Disconnected { reason: "bye".into() }),
        (Routed::ToWindow(EventDto::Disconnected { .. }), true)
    ));
    assert!(matches!(
        EventDto::from_event(&ClientEvent::ChannelRemoved(7)),
        Some(EventDto::ChannelRemoved { channel_id: 7 })
    ));
}

#[test]
fn a_changed_identity_is_carried_apart_from_the_sentence() {
    let expected = Identity::generate().fingerprint();
    let actual = Identity::generate().fingerprint();
    let dto = ConnectFailureDto::new(&ConnectError::IdentityChanged {
        address: "example.com:42071".into(),
        expected,
        actual,
    });
    let change = dto.identity_changed.unwrap();
    assert_eq!(change.address_key, "example.com:42071");
    assert_eq!(change.previous, expected.to_string());
    assert_eq!(change.current, actual.to_string());
    let dto = ConnectFailureDto::new(&ConnectError::TimedOut);
    assert!(dto.identity_changed.is_none());
    assert_eq!(dto.message, ConnectError::TimedOut.message());
    assert_eq!(ConnectFailureDto::sentence("no".into()).message, "no");
}

#[test]
fn the_list_of_identities_marks_the_active_one() {
    let missing = KeystoreError::Io {
        path: "identity.json".into(),
        source: "not found".into(),
        not_found: true,
    };
    let (mut vault, _) =
        Vault::create("identities.json", "identity.json", Err(missing), "andy", None).unwrap();
    vault.add(Identity::generate(), "alter-ego", "work");
    let dto = IdentityListDto::new(&vault);
    assert_eq!(dto.active, vault.active_fingerprint());
    assert_eq!(dto.identities.len(), 2);
    assert_eq!(dto.identities[1].label, "work");
    let shown = IdentityDto::new(&vault.active().identity, "andy");
    assert_eq!(shown.fingerprint, dto.active);
    assert!(shown.fingerprint.starts_with(&shown.short));
}

#[test]
fn a_ban_names_both_parties() {
    let banned = Identity::generate().fingerprint();
    let moderator = Identity::generate().fingerprint();
    let dto = BanDto::new(&BanEntry {
        fingerprint: banned,
        reason: "spam".into(),
        until_unix_ms: None,
        issued_by: moderator,
        issued_at_unix_ms: 3,
    });
    assert_eq!(dto.fingerprint, banned.to_string());
    assert_eq!(dto.issued_by_short, moderator.short());
}

#[test]
fn a_device_shows_whether_it_can_be_used() {
    let dto = AudioDeviceDto::new(&DeviceInfo {
        name: "Yeti".into(),
        kind: DeviceKind::Input,
        is_default: true,
        usable: true,
        sample_rate: Some(48_000),
    });
    assert!(dto.usable && dto.is_default);
    assert_eq!(dto.sample_rate, Some(48_000));
}
