//! Shapes that cross from the client to its window.
//!
//! Not the protocol's own types: the window should not depend on the wire
//! format, and several of those carry things it has no use for, such as raw
//! signatures and key material.

use crate::audio::devices::DeviceInfo;
use crate::client::{ClientEvent, ConnectError, SessionInfo};
use crate::desktop::perms::{MyPermissionsDto, RoleDto};
use crate::desktop::state::SessionId;
use crate::identity;
use crate::identity::pow;
use crate::identity::vault;
use crate::identity::vault::{Vault, VaultEntry};
use crate::identity::{crypto, Identity};
use crate::proto::{BanEntry, Channel, ChannelKind, ChatMessage, DisconnectReason, ErrorCode, UserInfo};
use vstd::prelude::*;

verus! {

/// The full text of a key's fingerprint.
pub open spec fn name_of_key(key: Seq<u8>) -> Seq<char> {
    identity::fingerprint_text(crypto::sha256_of(key))
}

/// The short form of a key's fingerprint.
pub open spec fn short_of_key(key: Seq<u8>) -> Seq<char> {
    identity::fingerprint_short(crypto::sha256_of(key))
}

pub struct IdentityDto {
    /// Full fingerprint, for comparing out of band.
    pub fingerprint: String,
    /// Abbreviated, for lists and headers.
    pub short: String,
    pub security_level: u32,
    pub nickname: String,
}

impl IdentityDto {
    pub fn new(identity: &Identity, nickname: &str) -> (d: Self)
        ensures
            d.fingerprint@ == name_of_key(identity.public_key()),
            d.short@ == short_of_key(identity.public_key()),
            d.security_level as nat == pow::level_of(identity.public_key(), identity.witness()),
            d.nickname@ == nickname@,
    {
        IdentityDto {
            fingerprint: identity.fingerprint().to_string(),
            short: identity.fingerprint().short(),
            security_level: identity.security_level(),
            nickname: String::from_str(nickname),
        }
    }
}

/// One entry in the identity picker.
pub struct VaultEntryDto {
    pub fingerprint: String,
    pub short: String,
    pub security_level: u32,
    pub nickname: String,
    /// Private note, never sent to a server.
    pub label: String,
}

/// What the picker shows of an identity.
pub open spec fn shows_entry(d: VaultEntryDto, e: vault::EntryView) -> bool {
    let key = crypto::public_key_of(e.secret);
    &&& d.fingerprint@ == name_of_key(key)
    &&& d.short@ == short_of_key(key)
    &&& d.security_level as nat == pow::level_of(key, e.counter)
    &&& d.nickname@ == e.nickname
    &&& d.label@ == e.label
}

impl VaultEntryDto {
    pub fn new(entry: &VaultEntry) -> (d: Self)
        ensures
            shows_entry(d, entry@),
    {
        VaultEntryDto {
            fingerprint: entry.identity.fingerprint().to_string(),
            short: entry.identity.fingerprint().short(),
            security_level: entry.identity.security_level(),
            nickname: entry.nickname.clone(),
            label: entry.label.clone(),
        }
    }
}

pub struct IdentityListDto {
    /// Fingerprint of the active identity.
    pub active: String,
    pub identities: Vec<VaultEntryDto>,
}

impl IdentityListDto {
    pub fn new(vault: &Vault) -> (d: Self)
        ensures
            d.active@ == vault.active_name(),
            d.identities@.len() == vault.entries().len(),
            forall|i: int|
                0 <= i < d.identities@.len() ==> shows_entry(
                    #[trigger] d.identities@[i],
                    vault.entries()[i],
                ),
    {
        let entries = vault.list();
        let mut identities: Vec<VaultEntryDto> = Vec::new();
        let mut i: usize = 0;
        while i < entries.len()
            invariant
                i <= entries@.len(),
                vault::views(entries@) == vault.entries(),
                identities@.len() == i,
                forall|k: int|
                    0 <= k < i ==> shows_entry(#[trigger] identities@[k], vault.entries()[k]),
            decreases entries.len() - i,
        {
            assert(vault::views(entries@)[i as int] == entries@[i as int]@);
            identities.push(VaultEntryDto::new(&entries[i]));
            i = i + 1;
        }
        assert(vault::views(entries@).len() == entries@.len());
        IdentityListDto { active: String::from_str(vault.active_fingerprint()), identities }
    }
}

pub struct ChannelDto {
    pub id: u32,
    pub parent: Option<u32>,
    pub name: String,
    pub topic: String,
    pub has_voice: bool,
    pub has_text: bool,
    pub order: i32,
    pub max_users: Option<u16>,
}

/// What the window is shown of a channel.
pub open spec fn shows_channel(d: ChannelDto, c: Channel) -> bool {
    &&& d.id == c.id
    &&& d.parent == c.parent
    &&& d.name@ == c.name@
    &&& d.topic@ == c.topic@
    &&& d.has_voice == (c.kind != ChannelKind::Text)
    &&& d.has_text == (c.kind != ChannelKind::Voice)
    &&& d.order == c.order
    &&& d.max_users == c.max_users
}

impl ChannelDto {
    pub fn new(channel: &Channel) -> (d: Self)
        ensures
            shows_channel(d, *channel),
    {
        ChannelDto {
            id: channel.id,
            parent: channel.parent,
            name: channel.name.clone(),
            topic: channel.topic.clone(),
            has_voice: channel.kind.has_voice(),
            has_text: channel.kind.has_text(),
            order: channel.order,
            max_users: channel.max_users,
        }
    }
}

pub struct UserDto {
    pub client_id: u32,
    pub nickname: String,
    /// The full fingerprint: the stable key for anything that acts on a user
    /// across sessions.
    pub fingerprint: String,
    /// Abbreviated, the only reliable way to tell apart two users of the same
    /// nickname in a list.
    pub short: String,
    pub security_level: u32,
    pub channel: Option<u32>,
    pub self_muted: bool,
    pub self_deafened: bool,
    /// Muted by a moderator, not by choice.
    pub server_muted: bool,
    /// Role grants; @everyone is implicit.
    pub roles: Vec<u32>,
}

/// What the window is shown of a user.
pub open spec fn shows_user(d: UserDto, u: UserInfo) -> bool {
    &&& d.client_id == u.client_id
    &&& d.nickname@ == u.nickname@
    &&& d.fingerprint@ == name_of_key(u.identity.key@)
    &&& d.short@ == short_of_key(u.identity.key@)
    &&& d.security_level as nat == pow::level_of(u.identity.key@, u.identity.counter)
    &&& d.channel == u.channel
    &&& d.self_muted == u.voice.self_muted
    &&& d.self_deafened == u.voice.self_deafened
    &&& d.server_muted == u.voice.server_muted
    &&& d.roles@ == u.roles@
}

impl UserDto {
    pub fn new(user: &UserInfo) -> (d: Self)
        ensures
            shows_user(d, *user),
    {
        let roles: Vec<u32> = user.roles.clone();
        assert(roles@ =~= user.roles@);
        UserDto {
            client_id: user.client_id,
            nickname: user.nickname.clone(),
            fingerprint: user.identity.fingerprint().to_string(),
            short: user.identity.fingerprint().short(),
            security_level: user.identity.security_level(),
            channel: user.channel,
            self_muted: user.voice.self_muted,
            self_deafened: user.voice.self_deafened,
            server_muted: user.voice.server_muted,
            roles,
        }
    }
}

pub struct BanDto {
    pub fingerprint: String,
    pub short: String,
    pub reason: String,
    pub until_unix_ms: Option<u64>,
    pub issued_by_short: String,
    pub issued_at_unix_ms: u64,
}

/// What the window is shown of a ban.
pub open spec fn shows_ban(d: BanDto, b: BanEntry) -> bool {
    &&& d.fingerprint@ == identity::fingerprint_text(b.fingerprint.0@)
    &&& d.short@ == identity::fingerprint_short(b.fingerprint.0@)
    &&& d.reason@ == b.reason@
    &&& d.until_unix_ms == b.until_unix_ms
    &&& d.issued_by_short@ == identity::fingerprint_short(b.issued_by.0@)
    &&& d.issued_at_unix_ms == b.issued_at_unix_ms
}

impl BanDto {
    pub fn new(ban: &BanEntry) -> (d: Self)
        ensures
            shows_ban(d, *ban),
    {
        BanDto {
            fingerprint: ban.fingerprint.to_string(),
            short: ban.fingerprint.short(),
            reason: ban.reason.clone(),
            until_unix_ms: ban.until_unix_ms,
            issued_by_short: ban.issued_by.short(),
            issued_at_unix_ms: ban.issued_at_unix_ms,
        }
    }
}

pub struct MessageDto {
    pub id: u64,
    pub channel: u32,
    pub author_nickname: String,
    pub author_fingerprint: String,
    pub content: String,
    pub sent_at_unix_ms: u64,
}

/// What the window is shown of a message. The author goes by the short form.
pub open spec fn shows_message(d: MessageDto, m: ChatMessage) -> bool {
    &&& d.id == m.id
    &&& d.channel == m.channel
    &&& d.author_nickname@ == m.author_nickname@
    &&& d.author_fingerprint@ == identity::fingerprint_short(m.author_fingerprint.0@)
    &&& d.content@ == m.content@
    &&& d.sent_at_unix_ms == m.sent_at_unix_ms
}

impl MessageDto {
    pub fn new(message: &ChatMessage) -> (d: Self)
        ensures
            shows_message(d, *message),
    {
        MessageDto {
            id: message.id,
            channel: message.channel,
            author_nickname: message.author_nickname.clone(),
            author_fingerprint: message.author_fingerprint.short(),
            content: message.content.clone(),
            sent_at_unix_ms: message.sent_at_unix_ms,
        }
    }
}

/// What the window is shown of messages, in order.
pub open spec fn shows_messages(d: Seq<MessageDto>, m: Seq<ChatMessage>) -> bool {
    d.len() == m.len() && forall|i: int|
        0 <= i < d.len() ==> shows_message(#[trigger] d[i], m[i])
}

/// What the window is shown of bans, in order.
pub open spec fn shows_bans(d: Seq<BanDto>, b: Seq<BanEntry>) -> bool {
    d.len() == b.len() && forall|i: int| 0 <= i < d.len() ==> shows_ban(#[trigger] d[i], b[i])
}

/// What the window is shown of channels, in order.
pub open spec fn shows_channels(d: Seq<ChannelDto>, c: Seq<Channel>) -> bool {
    d.len() == c.len() && forall|i: int| 0 <= i < d.len() ==> shows_channel(#[trigger] d[i], c[i])
}

/// What the window is shown of users, in order.
pub open spec fn shows_users(d: Seq<UserDto>, u: Seq<UserInfo>) -> bool {
    d.len() == u.len() && forall|i: int| 0 <= i < d.len() ==> shows_user(#[trigger] d[i], u[i])
}

fn messages_for(messages: &[ChatMessage]) -> (d: Vec<MessageDto>)
    ensures
        shows_messages(d@, messages@),
{
    let mut d: Vec<MessageDto> = Vec::new();
    let mut i: usize = 0;
    while i < messages.len()
        invariant
            i <= messages@.len(),
            d@.len() == i,
            forall|k: int| 0 <= k < i ==> shows_message(#[trigger] d@[k], messages@[k]),
        decreases messages.len() - i,
    {
        d.push(MessageDto::new(&messages[i]));
        i = i + 1;
    }
    d
}

fn bans_for(bans: &[BanEntry]) -> (d: Vec<BanDto>)
    ensures
        shows_bans(d@, bans@),
{
    let mut d: Vec<BanDto> = Vec::new();
    let mut i: usize = 0;
    while i < bans.len()
        invariant
            i <= bans@.len(),
            d@.len() == i,
            forall|k: int| 0 <= k < i ==> shows_ban(#[trigger] d@[k], bans@[k]),
        decreases bans.len() - i,
    {
        d.push(BanDto::new(&bans[i]));
        i = i + 1;
    }
    d
}

fn channels_for(channels: &[Channel]) -> (d: Vec<ChannelDto>)
    ensures
        shows_channels(d@, channels@),
{
    let mut d: Vec<ChannelDto> = Vec::new();
    let mut i: usize = 0;
    while i < channels.len()
        invariant
            i <= channels@.len(),
            d@.len() == i,
            forall|k: int| 0 <= k < i ==> shows_channel(#[trigger] d@[k], channels@[k]),
        decreases channels.len() - i,
    {
        d.push(ChannelDto::new(&channels[i]));
        i = i + 1;
    }
    d
}

fn users_for(users: &[UserInfo]) -> (d: Vec<UserDto>)
    ensures
        shows_users(d@, users@),
{
    let mut d: Vec<UserDto> = Vec::new();
    let mut i: usize = 0;
    while i < users.len()
        invariant
            i <= users@.len(),
            d@.len() == i,
            forall|k: int| 0 <= k < i ==> shows_user(#[trigger] d@[k], users@[k]),
        decreases users.len() - i,
    {
        d.push(UserDto::new(&users[i]));
        i = i + 1;
    }
    d
}

pub struct SessionDto {
    pub client_id: u32,
    pub server_name: String,
    pub server_fingerprint: String,
    pub default_channel: Option<u32>,
    pub channels: Vec<ChannelDto>,
    pub users: Vec<UserDto>,
}

impl SessionDto {
    pub fn new(session: &SessionInfo) -> (d: Self)
        ensures
            d.client_id == session.client_id,
            d.server_name@ == session.server_name@,
            d.server_fingerprint@ == name_of_key(session.server_identity.key@),
            d.default_channel == session.default_channel,
            shows_channels(d.channels@, session.channels@),
            shows_users(d.users@, session.users@),
    {
        SessionDto {
            client_id: session.client_id,
            server_name: session.server_name.clone(),
            server_fingerprint: session.server_identity.fingerprint().to_string(),
            default_channel: session.default_channel,
            channels: channels_for(session.channels.as_slice()),
            users: users_for(session.users.as_slice()),
        }
    }
}

/// One live connection: its id, what the server told us, and who we are on it.
pub struct ConnectionDto {
    pub permissions: MyPermissionsDto,
    pub roles: Vec<RoleDto>,
    pub session: SessionId,
    pub info: SessionDto,
    /// Fingerprint of the identity that this connection signed in with, which
    /// need not be the one active now.
    pub identity: String,
}

/// Who is audible, and on which connection: speaker ids mean something within
/// one server only.
#[derive(Debug)]
pub struct SpeakingDto {
    pub session: Option<SessionId>,
    pub clients: Vec<u32>,
}

pub struct SessionListDto {
    pub sessions: Vec<ConnectionDto>,
    /// Which connection the microphone feeds, if any.
    pub voice: Option<SessionId>,
}

pub struct AudioDeviceDto {
    pub name: String,
    pub is_default: bool,
    /// False only for a device without a format that can be read.
    pub usable: bool,
    /// The rate that the device would be opened at, if known.
    pub sample_rate: Option<u32>,
}

impl AudioDeviceDto {
    pub fn new(device: &DeviceInfo) -> (d: Self)
        ensures
            d.name@ == device.name@,
            d.is_default == device.is_default,
            d.usable == device.usable,
            d.sample_rate == device.sample_rate,
    {
        AudioDeviceDto {
            name: device.name.clone(),
            is_default: device.is_default,
            usable: device.usable,
            sample_rate: device.sample_rate,
        }
    }
}

/// Events pushed to the window. Voice is absent: it goes straight to the mixer.
pub enum EventDto {
    UserJoined { user: UserDto },
    /// The reason is "left", "kicked" or "banned".
    UserLeft { client_id: u32, reason: &'static str },
    UserMoved { client_id: u32, channel: Option<u32> },
    UserUpdated { user: UserDto },
    Message { message: MessageDto },
    History { channel: u32, messages: Vec<MessageDto>, reached_start: bool },
    Typing { client_id: u32, channel: u32 },
    ChannelCreated { channel: ChannelDto },
    ChannelUpdated { channel: ChannelDto },
    ChannelRemoved { channel_id: u32 },
    ServerError { code: &'static str, detail: String },
    BanList { bans: Vec<BanDto> },
    CommandFailed { nonce: u64, code: &'static str, detail: String },
    RolesChanged { roles: Vec<RoleDto> },
    /// A complete snapshot, replaced wholesale.
    PermissionsChanged { permissions: MyPermissionsDto },
    Disconnected { reason: String },
}

/// The word for how someone left: moderation is public and reads differently.
pub open spec fn leaving_word(reason: DisconnectReason) -> Seq<char> {
    match reason {
        DisconnectReason::Kicked => "kicked"@,
        DisconnectReason::Banned => "banned"@,
        _ => "left"@,
    }
}

/// The name of an error code, stable for the window.
pub open spec fn code_word(code: ErrorCode) -> Seq<char> {
    match code {
        ErrorCode::NotAuthenticated => "notAuthenticated"@,
        ErrorCode::NoSuchChannel => "noSuchChannel"@,
        ErrorCode::NoSuchMessage => "noSuchMessage"@,
        ErrorCode::ChannelFull => "channelFull"@,
        ErrorCode::ChannelPasswordRequired => "channelPasswordRequired"@,
        ErrorCode::NotPermitted => "notPermitted"@,
        ErrorCode::RateLimited => "rateLimited"@,
        ErrorCode::MessageTooLong => "messageTooLong"@,
        ErrorCode::Malformed => "malformed"@,
        ErrorCode::Internal => "internal"@,
    }
}

pub fn error_code_str(code: ErrorCode) -> (s: &'static str)
    ensures
        s@ == code_word(code),
{
    match code {
        ErrorCode::NotAuthenticated => "notAuthenticated",
        ErrorCode::NoSuchChannel => "noSuchChannel",
        ErrorCode::NoSuchMessage => "noSuchMessage",
        ErrorCode::ChannelFull => "channelFull",
        ErrorCode::ChannelPasswordRequired => "channelPasswordRequired",
        ErrorCode::NotPermitted => "notPermitted",
        ErrorCode::RateLimited => "rateLimited",
        ErrorCode::MessageTooLong => "messageTooLong",
        ErrorCode::Malformed => "malformed",
        ErrorCode::Internal => "internal",
    }
}

/// Whether the window is told of an event at all. Role events feed the mirror
/// instead, which sends snapshots; an acknowledgement shows as what it caused;
/// voice goes to the mixer.
pub open spec fn is_shown(event: ClientEvent) -> bool {
    !(event is RoleCreated || event is RoleUpdated || event is RoleDeleted
        || event is RolesReordered || event is Ack || event is Voice || event is VoiceActivity
        || event is Pong || event is MessageEdited || event is MessageDeleted)
}

/// What the window is told of an event.
pub open spec fn tells(d: EventDto, event: ClientEvent) -> bool {
    match event {
        ClientEvent::UserJoined(u) => d matches EventDto::UserJoined { user } && shows_user(user, u),
        ClientEvent::UserLeft { client, reason: why } => d matches EventDto::UserLeft {
            client_id,
            reason,
        } && client_id == client && reason@ == leaving_word(why),
        ClientEvent::UserMoved { client, from: _, to } => d matches EventDto::UserMoved {
            client_id,
            channel,
        } && client_id == client && channel == to,
        ClientEvent::UserUpdated(u) => d matches EventDto::UserUpdated { user } && shows_user(
            user,
            u,
        ),
        ClientEvent::MessagePosted { message: m, nonce: _ } => d matches EventDto::Message {
            message,
        } && shows_message(message, m),
        ClientEvent::History { channel: c, messages: m, reached_start: s } => d matches EventDto::History {
            channel,
            messages,
            reached_start,
        } && channel == c && shows_messages(messages@, m@) && reached_start == s,
        ClientEvent::Typing { client, channel: c } => d matches EventDto::Typing {
            client_id,
            channel,
        } && client_id == client && channel == c,
        ClientEvent::ChannelCreated(c) => d matches EventDto::ChannelCreated { channel }
            && shows_channel(channel, c),
        ClientEvent::ChannelUpdated(c) => d matches EventDto::ChannelUpdated { channel }
            && shows_channel(channel, c),
        ClientEvent::ChannelRemoved(id) => d matches EventDto::ChannelRemoved { channel_id }
            && channel_id == id,
        ClientEvent::ServerError { code: c, detail: t } => d matches EventDto::ServerError {
            code,
            detail,
        } && code@ == code_word(c) && detail@ == t@,
        ClientEvent::Disconnected { reason: why } => d matches EventDto::Disconnected { reason }
            && reason@ == why@,
        ClientEvent::BanList { bans: b } => d matches EventDto::BanList { bans } && shows_bans(
            bans@,
            b@,
        ),
        ClientEvent::CommandFailed { nonce: n, code: c, detail: t } => d matches EventDto::CommandFailed {
            nonce,
            code,
            detail,
        } && nonce == n && code@ == code_word(c) && detail@ == t@,
        _ => false,
    }
}

impl EventDto {
    /// Convert an event for the window, or `None` if it means nothing there.
    pub fn from_event(event: &ClientEvent) -> (r: Option<Self>)
        ensures
            r is Some <==> is_shown(*event),
            r matches Some(d) ==> tells(d, *event),
    {
        match event {
            ClientEvent::UserJoined(user) => Some(
                EventDto::UserJoined { user: UserDto::new(user) },
            ),
            ClientEvent::UserLeft { client, reason } => Some(
                EventDto::UserLeft {
                    client_id: *client,
                    reason: match reason {
                        DisconnectReason::Kicked => "kicked",
                        DisconnectReason::Banned => "banned",
                        _ => "left",
                    },
                },
            ),
            ClientEvent::UserMoved { client, from: _, to } => Some(
                EventDto::UserMoved { client_id: *client, channel: *to },
            ),
            ClientEvent::UserUpdated(user) => Some(
                EventDto::UserUpdated { user: UserDto::new(user) },
            ),
            ClientEvent::MessagePosted { message, nonce: _ } => Some(
                EventDto::Message { message: MessageDto::new(message) },
            ),
            ClientEvent::History { channel, messages, reached_start } => Some(
                EventDto::History {
                    channel: *channel,
                    messages: messages_for(messages.as_slice()),
                    reached_start: *reached_start,
                },
            ),
            ClientEvent::Typing { client, channel } => Some(
                EventDto::Typing { client_id: *client, channel: *channel },
            ),
            ClientEvent::ChannelCreated(channel) => Some(
                EventDto::ChannelCreated { channel: ChannelDto::new(channel) },
            ),
            ClientEvent::ChannelUpdated(channel) => Some(
                EventDto::ChannelUpdated { channel: ChannelDto::new(channel) },
            ),
            ClientEvent::ChannelRemoved(id) => Some(EventDto::ChannelRemoved { channel_id: *id }),
            ClientEvent::ServerError { code, detail } => Some(
                EventDto::ServerError { code: error_code_str(*code), detail: detail.clone() },
            ),
            ClientEvent::Disconnected { reason } => Some(
                EventDto::Disconnected { reason: reason.clone() },
            ),
            ClientEvent::BanList { bans } => Some(
                EventDto::BanList { bans: bans_for(bans.as_slice()) },
            ),
            ClientEvent::CommandFailed { nonce, code, detail } => Some(
                EventDto::CommandFailed {
                    nonce: *nonce,
                    code: error_code_str(*code),
                    detail: detail.clone(),
                },
            ),
            ClientEvent::RoleCreated(_) => None,
            ClientEvent::RoleUpdated(_) => None,
            ClientEvent::RoleDeleted { .. } => None,
            ClientEvent::RolesReordered { .. } => None,
            ClientEvent::Ack { .. } => None,
            ClientEvent::Voice(_) => None,
            ClientEvent::VoiceActivity { .. } => None,
            ClientEvent::Pong { .. } => None,
            ClientEvent::MessageEdited { .. } => None,
            ClientEvent::MessageDeleted { .. } => None,
        }
    }
}

/// Why a connection could not be made. Almost always a sentence to show; a
/// changed identity comes with its parts, so that the user can be offered the
/// deliberate act of trusting the new one.
pub struct ConnectFailureDto {
    pub message: String,
    pub identity_changed: Option<IdentityChangedDto>,
}

pub struct IdentityChangedDto {
    /// The key under which the pin is filed, and under which a new one must be.
    pub address_key: String,
    pub previous: String,
    pub current: String,
}

impl ConnectFailureDto {
    pub fn sentence(message: String) -> (d: Self)
        ensures
            d.message == message,
            d.identity_changed is None,
    {
        ConnectFailureDto { message, identity_changed: None }
    }

    pub fn new(error: &ConnectError) -> (d: Self)
        ensures
            d.message@ == error.sentence(),
            match *error {
                ConnectError::IdentityChanged { address, expected, actual } => {
                    d.identity_changed matches Some(c) && c.address_key@ == address@
                        && c.previous@ == identity::fingerprint_text(expected.0@) && c.current@
                        == identity::fingerprint_text(actual.0@)
                        && identity::parsed_fingerprint(c.previous@) == Some(expected.0@)
                        && identity::parsed_fingerprint(c.current@) == Some(actual.0@)
                },
                _ => d.identity_changed is None,
            },
    {
        let identity_changed = match error {
            ConnectError::IdentityChanged { address, expected, actual } => Some(
                IdentityChangedDto {
                    address_key: address.clone(),
                    previous: expected.to_string(),
                    current: actual.to_string(),
                },
            ),
            _ => None,
        };
        ConnectFailureDto { message: error.message(), identity_changed }
    }
}

/// What became of an event that arrived.
pub enum Routed {
    /// To the mixer.
    ToMixer,
    /// To the window.
    ToWindow(EventDto),
    /// Nowhere.
    Dropped,
}

/// Route an incoming event, and say whether it is the last.
pub fn route_event(event: &ClientEvent) -> (r: (Routed, bool))
    ensures
        r.0 is ToMixer <==> event is Voice,
        r.0 matches Routed::ToWindow(d) ==> tells(d, *event),
        r.0 is ToWindow <==> is_shown(*event),
        r.1 == (event is Disconnected),
{
    match event {
        ClientEvent::Voice(_) => (Routed::ToMixer, false),
        ClientEvent::Disconnected { .. } => match EventDto::from_event(event) {
            Some(d) => (Routed::ToWindow(d), true),
            None => (Routed::Dropped, true),
        },
        _ => match EventDto::from_event(event) {
            Some(d) => (Routed::ToWindow(d), false),
            None => (Routed::Dropped, false),
        },
    }
}

/// Two codes never share a name, so that the window can tell them apart.
pub proof fn law_error_codes_have_distinct_names(a: ErrorCode, b: ErrorCode)
    requires
        code_word(a) == code_word(b),
    ensures
        a == b,
{
    reveal_strlit("notAuthenticated");
    reveal_strlit("noSuchChannel");
    reveal_strlit("noSuchMessage");
    reveal_strlit("channelFull");
    reveal_strlit("channelPasswordRequired");
    reveal_strlit("notPermitted");
    reveal_strlit("rateLimited");
    reveal_strlit("messageTooLong");
    reveal_strlit("malformed");
    reveal_strlit("internal");
    let (x, y) = (code_word(a), code_word(b));
    assert(x.len() == y.len() && x[0] == y[0] && x[2] == y[2] && x[6] == y[6]);
}


/// What the window shows comes from the event that says it: each field holds what
/// the event holds, and where someone moved is where they moved to.
pub proof fn law_the_window_shows_what_happened(d: EventDto, event: ClientEvent)
    requires
        tells(d, event),
    ensures
        match d {
            EventDto::UserJoined { user } => event matches ClientEvent::UserJoined(u) && shows_user(
                user,
                u,
            ),
            EventDto::UserLeft { client_id, reason } => event matches ClientEvent::UserLeft {
                client,
                reason: why,
            } && client_id == client && reason@ == leaving_word(why),
            EventDto::UserMoved { client_id, channel } => event matches ClientEvent::UserMoved {
                client,
                from: _,
                to,
            } && client_id == client && channel == to,
            EventDto::UserUpdated { user } => event matches ClientEvent::UserUpdated(u)
                && shows_user(user, u),
            EventDto::Message { message } => event matches ClientEvent::MessagePosted {
                message: m,
                nonce: _,
            } && shows_message(message, m),
            EventDto::History { channel, messages, reached_start } => event matches ClientEvent::History {
                channel: c,
                messages: m,
                reached_start: s,
            } && channel == c && reached_start == s && messages@.len() == m@.len() && forall|i: int|
                0 <= i < m@.len() ==> shows_message(#[trigger] messages@[i], m@[i]),
            EventDto::Typing { client_id, channel } => event matches ClientEvent::Typing {
                client,
                channel: c,
            } && client_id == client && channel == c,
            EventDto::ChannelCreated { channel } => event matches ClientEvent::ChannelCreated(c)
                && shows_channel(channel, c),
            EventDto::ChannelUpdated { channel } => event matches ClientEvent::ChannelUpdated(c)
                && shows_channel(channel, c),
            EventDto::ChannelRemoved { channel_id } => event matches ClientEvent::ChannelRemoved(id)
                && channel_id == id,
            EventDto::ServerError { code, detail } => event matches ClientEvent::ServerError {
                code: c,
                detail: t,
            } && code@ == code_word(c) && detail@ == t@,
            EventDto::BanList { bans } => event matches ClientEvent::BanList { bans: b }
                && bans@.len() == b@.len() && forall|i: int|
                0 <= i < b@.len() ==> shows_ban(#[trigger] bans@[i], b@[i]),
            EventDto::CommandFailed { nonce, code, detail } => event matches ClientEvent::CommandFailed {
                nonce: n,
                code: c,
                detail: t,
            } && nonce == n && code@ == code_word(c) && detail@ == t@,
            EventDto::Disconnected { reason } => event matches ClientEvent::Disconnected {
                reason: why,
            } && reason@ == why@,
            EventDto::RolesChanged { .. } => false,
            EventDto::PermissionsChanged { .. } => false,
        },
{
}

/// The window hears of people, channels, messages, bans, refusals and the end,
/// and of nothing else.
pub proof fn law_what_the_window_hears_of(event: ClientEvent)
    ensures
        is_shown(event) <==> (event is UserJoined || event is UserLeft || event is UserMoved
            || event is UserUpdated || event is MessagePosted || event is History || event is Typing
            || event is ChannelCreated || event is ChannelUpdated || event is ChannelRemoved
            || event is ServerError || event is Disconnected || event is BanList
            || event is CommandFailed),
{
}

/// A channel is shown as it is; it has voice unless it is for text alone, and
/// text unless it is for voice alone.
pub proof fn law_a_channel_is_shown_as_it_is(d: ChannelDto, c: Channel)
    requires
        shows_channel(d, c),
    ensures
        d.id == c.id,
        d.parent == c.parent,
        d.name@ == c.name@,
        d.topic@ == c.topic@,
        d.order == c.order,
        d.max_users == c.max_users,
        c.kind is Voice ==> d.has_voice && !d.has_text,
        c.kind is Text ==> !d.has_voice && d.has_text,
        c.kind is VoiceAndText ==> d.has_voice && d.has_text,
{
}

/// A user is shown as they are: what they muted themselves stays apart from what
/// a moderator muted, and the names of their key are those of its digest.
pub proof fn law_a_user_is_shown_as_they_are(d: UserDto, u: UserInfo)
    requires
        shows_user(d, u),
    ensures
        d.client_id == u.client_id,
        d.nickname@ == u.nickname@,
        d.channel == u.channel,
        d.self_muted == u.voice.self_muted,
        d.self_deafened == u.voice.self_deafened,
        d.server_muted == u.voice.server_muted,
        d.roles@ == u.roles@,
        d.fingerprint@ == identity::fingerprint_text(crypto::sha256_of(u.identity.key@)),
        d.short@ == identity::fingerprint_short(crypto::sha256_of(u.identity.key@)),
        d.security_level == pow::level_of(u.identity.key@, u.identity.counter),
{
}

/// An identity in the picker is shown as it is, by the digest of its public key.
pub proof fn law_an_identity_is_shown_as_it_is(d: VaultEntryDto, e: vault::EntryView)
    requires
        shows_entry(d, e),
    ensures
        d.nickname@ == e.nickname,
        d.label@ == e.label,
        d.fingerprint@ == identity::fingerprint_text(
            crypto::sha256_of(crypto::public_key_of(e.secret)),
        ),
        d.short@ == identity::fingerprint_short(
            crypto::sha256_of(crypto::public_key_of(e.secret)),
        ),
        d.security_level == pow::level_of(crypto::public_key_of(e.secret), e.counter),
{
}

/// A ban shows whom it bars apart from who issued it, and when it was issued
/// apart from when it ends.
pub proof fn law_a_ban_is_shown_as_it_is(d: BanDto, b: BanEntry)
    requires
        shows_ban(d, b),
    ensures
        d.fingerprint@ == identity::fingerprint_text(b.fingerprint.0@),
        d.short@ == identity::fingerprint_short(b.fingerprint.0@),
        d.issued_by_short@ == identity::fingerprint_short(b.issued_by.0@),
        d.reason@ == b.reason@,
        d.until_unix_ms == b.until_unix_ms,
        d.issued_at_unix_ms == b.issued_at_unix_ms,
{
}

/// A message is shown as it is, with its author's key in short.
pub proof fn law_a_message_is_shown_as_it_is(d: MessageDto, m: ChatMessage)
    requires
        shows_message(d, m),
    ensures
        d.id == m.id,
        d.channel == m.channel,
        d.author_nickname@ == m.author_nickname@,
        d.author_fingerprint@ == identity::fingerprint_short(m.author_fingerprint.0@),
        d.content@ == m.content@,
        d.sent_at_unix_ms == m.sent_at_unix_ms,
{
}

/// Lists are shown whole and in order.
pub proof fn law_lists_are_shown_whole(
    channels: Seq<ChannelDto>,
    c: Seq<Channel>,
    users: Seq<UserDto>,
    u: Seq<UserInfo>,
    i: int,
)
    requires
        shows_channels(channels, c),
        shows_users(users, u),
    ensures
        channels.len() == c.len(),
        users.len() == u.len(),
        0 <= i < c.len() ==> shows_channel(channels[i], c[i]),
        0 <= i < u.len() ==> shows_user(users[i], u[i]),
{
}

/// Who was kicked and who was banned is told apart, from each other and from
/// everyone who left in another way.
pub proof fn law_moderation_is_told_apart(a: DisconnectReason)
    ensures
        leaving_word(a) == "kicked"@ <==> a is Kicked,
        leaving_word(a) == "banned"@ <==> a is Banned,
        leaving_word(a) == "left"@ <==> !(a is Kicked) && !(a is Banned),
{
    reveal_strlit("kicked");
    reveal_strlit("banned");
    reveal_strlit("left");
    assert("kicked"@[0] == 'k' && "banned"@[0] == 'b' && "left"@[0] == 'l');
}

/// The name of a code is the code's own, in small letters at the start.
pub proof fn law_a_code_goes_by_its_own_name(code: ErrorCode)
    ensures
        code_word(code) == "notAuthenticated"@ <==> code is NotAuthenticated,
        code_word(code) == "noSuchChannel"@ <==> code is NoSuchChannel,
        code_word(code) == "noSuchMessage"@ <==> code is NoSuchMessage,
        code_word(code) == "channelFull"@ <==> code is ChannelFull,
        code_word(code) == "channelPasswordRequired"@ <==> code is ChannelPasswordRequired,
        code_word(code) == "notPermitted"@ <==> code is NotPermitted,
        code_word(code) == "rateLimited"@ <==> code is RateLimited,
        code_word(code) == "messageTooLong"@ <==> code is MessageTooLong,
        code_word(code) == "malformed"@ <==> code is Malformed,
        code_word(code) == "internal"@ <==> code is Internal,
{
    assert forall|other: ErrorCode| #[trigger] code_word(other) == code_word(code) implies other
        == code by {
        law_error_codes_have_distinct_names(other, code);
    }
    assert(code_word(ErrorCode::NotAuthenticated) == "notAuthenticated"@);
    assert(code_word(ErrorCode::NoSuchChannel) == "noSuchChannel"@);
    assert(code_word(ErrorCode::NoSuchMessage) == "noSuchMessage"@);
    assert(code_word(ErrorCode::ChannelFull) == "channelFull"@);
    assert(code_word(ErrorCode::ChannelPasswordRequired) == "channelPasswordRequired"@);
    assert(code_word(ErrorCode::NotPermitted) == "notPermitted"@);
    assert(code_word(ErrorCode::RateLimited) == "rateLimited"@);
    assert(code_word(ErrorCode::MessageTooLong) == "messageTooLong"@);
    assert(code_word(ErrorCode::Malformed) == "malformed"@);
    assert(code_word(ErrorCode::Internal) == "internal"@);
}
} // verus!
