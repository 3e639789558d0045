use pickle::client::{ClientEvent, SessionInfo};
use pickle::desktop::perms::PermMirror;
use pickle::identity::Identity;
use pickle::proto::perms::{
    Overwrite, OverwriteTarget, Permissions, Role, RoleId, EVERYONE_ROLE_ID,
};
use pickle::proto::{Channel, ChannelId, ChannelKind, ServerLimits, UserInfo};

fn channel(id: ChannelId, overwrites: Vec<Overwrite>) -> Channel {
    Channel {
        id,
        parent: None,
        name: format!("channel-{id}"),
        topic: String::new(),
        kind: ChannelKind::VoiceAndText,
        max_users: None,
        order: id as i32,
        overwrites,
    }
}

fn mirror_with(channels: Vec<Channel>) -> (Identity, PermMirror) {
    let identity = Identity::generate();
    let fingerprint = identity.fingerprint();
    let info = SessionInfo {
        client_id: 1,
        server_name: "test".into(),
        server_identity: Identity::generate().public(),
        channels,
        users: vec![UserInfo {
            client_id: 1,
            identity: identity.public(),
            nickname: "me".into(),
            channel: None,
            voice: Default::default(),
            connected_at_unix_ms: 0,
            roles: Vec::new(),
            owner: false,
        }],
        roles: crate_default_roles(),
        default_channel: None,
        limits: ServerLimits::default(),
    };
    let mirror = PermMirror::from_session(fingerprint, &info);
    (identity, mirror)
}

/// The server's default ladder, restated here rather than imported: the
/// mirror must work from whatever the wire says, not from server code.
fn crate_default_roles() -> Vec<Role> {
    vec![Role {
        id: EVERYONE_ROLE_ID,
        name: "everyone".into(),
        color: None,
        position: 0,
        permissions: Permissions(Permissions::DEFAULT_EVERYONE),
    }]
}

#[test]
fn default_bits_allow_everything_the_open_model_allowed() {
    let (_me, mirror) = mirror_with(vec![channel(1, Vec::new())]);
    let perms = mirror.my_permissions();
    let one = &perms.channels[&1];
    assert!(one.send && one.read_history && one.connect && one.speak);
    assert!(!perms.is_owner && !perms.is_admin);
}

#[test]
fn a_deny_overwrite_lands_in_the_snapshot() {
    let (_me, mirror) = mirror_with(vec![channel(
        1,
        vec![Overwrite {
            target: OverwriteTarget::Role(EVERYONE_ROLE_ID),
            allow: Permissions(Permissions::NONE),
            deny: Permissions(Permissions::SEND_MESSAGES),
        }],
    )]);
    let perms = mirror.my_permissions();
    assert!(!perms.channels[&1].send);
    assert!(perms.channels[&1].read_history, "only the denied bit goes");
}

#[test]
fn a_channel_update_recomputes_the_snapshot() {
    let (_me, mut mirror) = mirror_with(vec![channel(1, Vec::new())]);
    assert!(mirror.my_permissions().channels[&1].send);

    let changed = mirror.apply(&ClientEvent::ChannelUpdated(channel(
        1,
        vec![Overwrite {
            target: OverwriteTarget::Role(EVERYONE_ROLE_ID),
            allow: Permissions(Permissions::NONE),
            deny: Permissions(Permissions::SEND_MESSAGES),
        }],
    )));
    assert!(changed);
    assert!(!mirror.my_permissions().channels[&1].send);
}

#[test]
fn a_removed_channel_leaves_the_snapshot() {
    let (_me, mut mirror) = mirror_with(vec![channel(1, Vec::new())]);
    assert!(mirror.apply(&ClientEvent::ChannelRemoved(1)));
    assert!(mirror.my_permissions().channels.is_empty());
}

#[test]
fn my_role_grants_arrive_as_a_user_update_and_others_are_ignored() {
    let (me, mut mirror) = mirror_with(vec![channel(1, Vec::new())]);
    mirror.apply(&ClientEvent::RoleCreated(Role {
        id: 5,
        name: "admin".into(),
        color: None,
        position: 1,
        permissions: Permissions(Permissions::ADMINISTRATOR),
    }));
    assert!(!mirror.my_permissions().is_admin);

    let update = |identity: &Identity, roles: Vec<RoleId>| {
        ClientEvent::UserUpdated(UserInfo {
            client_id: 1,
            identity: identity.public(),
            nickname: "someone".into(),
            channel: None,
            voice: Default::default(),
            connected_at_unix_ms: 0,
            roles,
            owner: false,
        })
    };

    // Another member being granted the role must not change my answer —
    // updates are matched by fingerprint, the key grants actually use.
    let stranger = Identity::generate();
    assert!(!mirror.apply(&update(&stranger, vec![5])));
    assert!(!mirror.my_permissions().is_admin);

    // The same frame about me does.
    assert!(mirror.apply(&update(&me, vec![5])));
    assert!(mirror.my_permissions().is_admin);
}

#[test]
fn moderation_is_refused_with_a_reason() {
    let (me, mut mirror) = mirror_with(vec![channel(1, Vec::new())]);
    let stranger = Identity::generate();
    mirror.apply(&ClientEvent::UserJoined(UserInfo {
        client_id: 2,
        identity: stranger.public(),
        nickname: "someone".into(),
        channel: None,
        voice: Default::default(),
        connected_at_unix_ms: 0,
        roles: Vec::new(),
        owner: false,
    }));
    let options = mirror.moderation_options(2);
    assert!(!options.can_kick && options.reason.is_some());

    mirror.apply(&ClientEvent::RoleCreated(Role {
        id: 5,
        name: "mod".into(),
        color: None,
        position: 1,
        permissions: Permissions(Permissions::KICK_MEMBERS),
    }));
    mirror.apply(&ClientEvent::UserUpdated(UserInfo {
        client_id: 1,
        identity: me.public(),
        nickname: "me".into(),
        channel: None,
        voice: Default::default(),
        connected_at_unix_ms: 0,
        roles: vec![5],
        owner: false,
    }));
    let options = mirror.moderation_options(2);
    assert!(options.can_kick && !options.can_ban);
    assert_eq!(options.reason, None);
    assert!(mirror.moderation_options(1).reason.is_some(), "not on oneself");
    assert!(mirror.moderation_options(77).reason.is_some(), "nor on nobody");
}

#[test]
fn roles_are_listed_lowest_first() {
    let (_me, mut mirror) = mirror_with(Vec::new());
    for (id, position) in [(7, 9), (8, 3)] {
        mirror.apply(&ClientEvent::RoleCreated(Role {
            id,
            name: format!("role-{id}"),
            color: Some(1),
            position,
            permissions: Permissions(0),
        }));
    }
    let positions: Vec<u32> = mirror.roles_dto().iter().map(|r| r.position).collect();
    let mut sorted = positions.clone();
    sorted.sort();
    let mut reversed = sorted.clone();
    reversed.reverse();
    assert!(positions == sorted || positions == reversed);
    assert_eq!(mirror.roles_dto().len(), 3);
}
