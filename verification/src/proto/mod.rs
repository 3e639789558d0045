//! The wire protocol.
//!
//! Every connection carries two kinds of traffic: control, a reliable ordered
//! stream of length-prefixed frames (see [`codec`]), and voice, unreliable
//! unordered datagrams (see [`voice`]).

pub mod codec;
pub mod perms;
pub mod voice;

use crate::identity;
use crate::identity::crypto;
use crate::identity::{Fingerprint, PublicIdentity};
use crate::proto::perms::{Overwrite, OverwriteTarget, RoleId};
use vstd::prelude::*;

verus! {

/// Bumped on any breaking change. Checked for exact equality: a mismatch is
/// refused outright rather than negotiated down.
pub const PROTOCOL_VERSION: u16 = 1;

/// Server-assigned, unique for the lifetime of a connection and reused
/// afterwards. Not an identity; see [`Fingerprint`].
pub type ClientId = u32;

pub type ChannelId = u32;

/// Monotonic per server, so history can be paged.
pub type MessageId = u64;

/// TLS application protocol identifier. It carries the version, so an
/// incompatible client is refused during the TLS handshake.
pub const ALPN: &'static str = "pickle/1";

/// First frame on the control stream, sent by the server. The signature covers
/// the nonce, the server's certificate hash and its name.
#[derive(Debug, Clone)]
pub struct ServerHello {
    pub protocol_version: u16,
    pub server_name: String,
    pub server_identity: PublicIdentity,
    /// Fresh per connection; the client signs it.
    pub nonce: [u8; 32],
    pub min_security_level: u32,
    pub requires_password: bool,
    pub signature: SignatureBytes,
}

/// The client's reply, proving control of its private key.
#[derive(Debug, Clone)]
pub struct ClientAuth {
    pub protocol_version: u16,
    pub identity: PublicIdentity,
    /// Cosmetic and unverified.
    pub nickname: String,
    /// Optional shared secret for private servers.
    pub password: Option<String>,
    pub client_version: String,
    /// Over the server's nonce and certificate hash.
    pub signature: SignatureBytes,
}

/// A login that was accepted.
#[derive(Debug, Clone)]
pub struct AuthOk {
    pub client_id: ClientId,
    pub channels: Vec<Channel>,
    pub users: Vec<UserInfo>,
    /// Every role on the server.
    pub roles: Vec<perms::Role>,
    /// The channel to read first, if any. Never one that carries voice.
    pub default_channel: Option<ChannelId>,
    pub limits: ServerLimits,
}

/// Why a login was refused.
#[derive(Debug, Clone)]
pub enum AuthFailure {
    ProtocolMismatch { server_version: u16 },
    SecurityLevelTooLow { required: u32, provided: u32 },
    BadSignature,
    PasswordRequired,
    BadPassword,
    Banned { reason: String, until_unix_ms: Option<u64> },
    ServerFull,
    NicknameRejected { reason: String },
}

/// What a server allows.
#[derive(Debug, Clone, Copy, PartialEq, Eq, Structural)]
pub struct ServerLimits {
    pub max_message_len: u32,
    pub max_nickname_len: u32,
    pub max_users: u32,
    pub history_enabled: bool,
}

impl Default for ServerLimits {
    fn default() -> (r: Self)
        ensures
            r == (ServerLimits {
                max_message_len: 4000,
                max_nickname_len: 32,
                max_users: 64,
                history_enabled: true,
            }),
    {
        ServerLimits {
            max_message_len: 4000,
            max_nickname_len: 32,
            max_users: 64,
            history_enabled: true,
        }
    }
}

/// What a channel carries.
#[derive(Debug, Clone, Copy, PartialEq, Eq, Structural)]
pub enum ChannelKind {
    Voice,
    Text,
    /// A voice channel with an attached text log.
    VoiceAndText,
}

impl ChannelKind {
    /// Whether the channel carries voice.
    pub fn has_voice(self) -> (r: bool)
        ensures
            r == (self != ChannelKind::Text),
    {
        match self {
            ChannelKind::Voice | ChannelKind::VoiceAndText => true,
            ChannelKind::Text => false,
        }
    }

    /// Whether the channel carries text.
    pub fn has_text(self) -> (r: bool)
        ensures
            r == (self != ChannelKind::Voice),
    {
        match self {
            ChannelKind::Text | ChannelKind::VoiceAndText => true,
            ChannelKind::Voice => false,
        }
    }
}

/// A room, with its exceptions to the members' permissions.
#[derive(Debug)]
pub struct Channel {
    pub id: ChannelId,
    /// `None` for a top-level channel.
    pub parent: Option<ChannelId>,
    pub name: String,
    pub topic: String,
    pub kind: ChannelKind,
    pub max_users: Option<u16>,
    /// Sort key within the parent; ties broken by name.
    pub order: i32,
    pub overwrites: Vec<Overwrite>,
}

/// What a [`Channel`] says.
#[verifier::ext_equal]
pub struct ChannelView {
    pub id: ChannelId,
    pub parent: Option<ChannelId>,
    pub name: Seq<char>,
    pub topic: Seq<char>,
    pub kind: ChannelKind,
    pub max_users: Option<u16>,
    pub order: i32,
    pub overwrites: Seq<Overwrite>,
}

impl View for Channel {
    type V = ChannelView;

    open spec fn view(&self) -> ChannelView {
        ChannelView {
            id: self.id,
            parent: self.parent,
            name: self.name@,
            topic: self.topic@,
            kind: self.kind,
            max_users: self.max_users,
            order: self.order,
            overwrites: self.overwrites@,
        }
    }
}

impl Clone for Channel {
    fn clone(&self) -> (r: Self)
        ensures
            r@ == self@,
    {
        let r: Channel = Channel {
            id: self.id,
            parent: self.parent,
            name: self.name.clone(),
            topic: self.topic.clone(),
            kind: self.kind,
            max_users: self.max_users,
            order: self.order,
            overwrites: self.overwrites.clone(),
        };
        assert(r.overwrites@ =~= self.overwrites@);
        r
    }
}

/// A user's microphone and speakers, as others see them.
#[derive(Debug, Clone, Copy, PartialEq, Eq, Structural)]
pub struct VoiceState {
    pub self_muted: bool,
    pub self_deafened: bool,
    pub server_muted: bool,
    /// Transient; driven by the sender's voice activity detection.
    pub speaking: bool,
}

impl Default for VoiceState {
    fn default() -> (r: Self)
        ensures
            r == (VoiceState {
                self_muted: false,
                self_deafened: false,
                server_muted: false,
                speaking: false,
            }),
    {
        VoiceState {
            self_muted: false,
            self_deafened: false,
            server_muted: false,
            speaking: false,
        }
    }
}

/// One thing a user may be allowed to do. Explicit rather than implied by
/// rank, so "may mute but not kick" is expressible.
#[derive(Debug, Clone, Copy, PartialEq, Eq, Hash, PartialOrd, Ord, Structural)]
pub enum Capability {
    KickUsers,
    BanUsers,
    /// Silence someone without disconnecting them.
    MuteUsers,
    MoveUsers,
    ManageChannels,
    /// Grant and revoke roles.
    ManageRoles,
    /// Change server-wide settings.
    ManageServer,
}

impl Capability {
    /// Every capability, for granting a role everything short of ownership.
    pub fn all() -> (r: [Capability; 7])
        ensures
            r@ == seq![
                Capability::KickUsers,
                Capability::BanUsers,
                Capability::MuteUsers,
                Capability::MoveUsers,
                Capability::ManageChannels,
                Capability::ManageRoles,
                Capability::ManageServer,
            ],
            forall|c: Capability| r@.contains(c),
    {
        let r: [Capability; 7] = [
            Capability::KickUsers,
            Capability::BanUsers,
            Capability::MuteUsers,
            Capability::MoveUsers,
            Capability::ManageChannels,
            Capability::ManageRoles,
            Capability::ManageServer,
        ];
        proof {
            assert forall|c: Capability| r@.contains(c) by {
                match c {
                    Capability::KickUsers => assert(r@[0] == c),
                    Capability::BanUsers => assert(r@[1] == c),
                    Capability::MuteUsers => assert(r@[2] == c),
                    Capability::MoveUsers => assert(r@[3] == c),
                    Capability::ManageChannels => assert(r@[4] == c),
                    Capability::ManageRoles => assert(r@[5] == c),
                    Capability::ManageServer => assert(r@[6] == c),
                }
            }
        }
        r
    }
}

fn holds(capabilities: &Vec<Capability>, capability: Capability) -> (r: bool)
    ensures
        r == capabilities@.contains(capability),
{
    let mut i: usize = 0;
    while i < capabilities.len()
        invariant
            i <= capabilities@.len(),
            forall|k: int| 0 <= k < i ==> capabilities@[k] != capability,
        decreases capabilities@.len() - i,
    {
        if capabilities[i] == capability {
            return true;
        }
        i += 1;
    }
    false
}

/// A named bundle of capabilities.
#[derive(Debug, Clone, PartialEq, Eq)]
pub struct Role {
    pub name: String,
    /// Governs who may act on whom, and nothing else. Acting on an equal or
    /// higher rank is refused however many capabilities one holds.
    pub rank: u32,
    pub capabilities: Vec<Capability>,
}

impl Role {
    /// Whether the role bundles a capability.
    pub fn allows(&self, capability: Capability) -> (r: bool)
        ensures
            r == self.capabilities@.contains(capability),
    {
        holds(&self.capabilities, capability)
    }
}

/// What a user may do, as resolved by the server. A courtesy for rendering:
/// the server checks every action regardless.
#[derive(Debug, Clone, PartialEq, Eq)]
pub struct Permissions {
    /// `None` for a user with no role assigned.
    pub role: Option<String>,
    pub rank: u32,
    pub capabilities: Vec<Capability>,
    /// The server operator, who passes every check regardless of role.
    pub owner: bool,
}

impl Default for Permissions {
    fn default() -> (r: Self)
        ensures
            r.role is None,
            r.rank == 0,
            r.capabilities@.len() == 0,
            !r.owner,
    {
        Permissions { role: None, rank: 0, capabilities: Vec::new(), owner: false }
    }
}

impl Permissions {
    /// Whether a capability is held.
    pub open spec fn may(&self, capability: Capability) -> bool {
        self.owner || self.capabilities@.contains(capability)
    }

    /// Whether a target is below this user.
    pub open spec fn above(&self, target: &Permissions) -> bool {
        !target.owner && (self.owner || self.rank > target.rank)
    }

    /// A user with no role: may do nothing administrative.
    pub fn none() -> (r: Self)
        ensures
            r.role is None,
            r.rank == 0,
            r.capabilities@.len() == 0,
            !r.owner,
            forall|c: Capability| !r.may(c),
    {
        Permissions { role: None, rank: 0, capabilities: Vec::new(), owner: false }
    }

    /// Whether this user holds a capability.
    pub fn allows(&self, capability: Capability) -> (r: bool)
        ensures
            r == self.may(capability),
    {
        self.owner || holds(&self.capabilities, capability)
    }

    /// Whether this user may act on `target`, by rank alone. The owner outranks
    /// everyone and is never outranked.
    pub fn outranks(&self, target: &Permissions) -> (r: bool)
        ensures
            r == self.above(target),
    {
        if target.owner {
            return false;
        }
        self.owner || self.rank > target.rank
    }
}

/// Rank is a strict order: nobody is above themselves or an equal, two users
/// are never above each other, and the owner is above everyone but never
/// outranked.
pub proof fn law_rank_is_strict(a: Permissions, b: Permissions, c: Permissions)
    ensures
        !a.above(&a),
        a.rank == b.rank && !a.owner && !b.owner ==> !a.above(&b) && !b.above(&a),
        !(a.above(&b) && b.above(&a)),
        a.above(&b) && b.above(&c) ==> a.above(&c),
        b.owner ==> !a.above(&b),
        a.owner && !b.owner ==> a.above(&b),
{
}

/// Someone connected to the server.
#[derive(Debug)]
pub struct UserInfo {
    pub client_id: ClientId,
    pub identity: PublicIdentity,
    pub nickname: String,
    pub channel: Option<ChannelId>,
    pub voice: VoiceState,
    pub connected_at_unix_ms: u64,
    /// Explicit role grants; @everyone is implicit.
    pub roles: Vec<RoleId>,
    pub owner: bool,
}

impl UserInfo {
    /// The digest of the user's key.
    pub open spec fn digest(&self) -> Seq<u8> {
        crypto::sha256_of(self.identity.key@)
    }

    /// The fingerprint of the user's key.
    pub fn fingerprint(&self) -> (r: Fingerprint)
        ensures
            r.0@ == self.digest(),
            r == identity::fingerprint_with(self.digest()),
    {
        self.identity.fingerprint()
    }
}

impl Clone for UserInfo {
    fn clone(&self) -> (r: Self)
        ensures
            r.client_id == self.client_id,
            r.identity == self.identity,
            r.nickname == self.nickname,
            r.channel == self.channel,
            r.voice == self.voice,
            r.connected_at_unix_ms == self.connected_at_unix_ms,
            r.roles@ == self.roles@,
            r.owner == self.owner,
    {
        let r: UserInfo = UserInfo {
            client_id: self.client_id,
            identity: self.identity,
            nickname: self.nickname.clone(),
            channel: self.channel,
            voice: self.voice,
            connected_at_unix_ms: self.connected_at_unix_ms,
            roles: self.roles.clone(),
            owner: self.owner,
        };
        assert(r.roles@ =~= self.roles@);
        r
    }
}

/// Why someone left.
#[derive(Debug, Clone, Copy, PartialEq, Eq, Structural)]
pub enum DisconnectReason {
    Quit,
    TimedOut,
    Kicked,
    Banned,
    ServerShutdown,
}

/// A posted message.
#[derive(Debug, Clone)]
pub struct ChatMessage {
    pub id: MessageId,
    pub channel: ChannelId,
    /// `None` once the author has disconnected; the fingerprint outlives it.
    pub author: Option<ClientId>,
    pub author_fingerprint: Fingerprint,
    /// As of sending, so history renders correctly after a rename.
    pub author_nickname: String,
    pub sent_at_unix_ms: u64,
    pub edited_at_unix_ms: Option<u64>,
    /// Markdown source. The server never interprets it.
    pub content: String,
    pub reply_to: Option<MessageId>,
    pub attachments: Vec<Attachment>,
    pub reactions: Vec<Reaction>,
}

/// A file that goes with a message.
#[derive(Debug, Clone)]
pub struct Attachment {
    pub id: u64,
    pub filename: String,
    pub byte_len: u64,
    pub mime: String,
    /// Content hash, for dedupe and integrity on download.
    pub content_hash: [u8; 32],
}

/// Who reacted to a message with one emoji.
#[derive(Debug, Clone)]
pub struct Reaction {
    pub emoji: String,
    /// Fingerprints, so reactions survive reconnects.
    pub reactors: Vec<Fingerprint>,
}

/// A standing ban.
#[derive(Debug, Clone)]
pub struct BanEntry {
    pub fingerprint: Fingerprint,
    pub reason: String,
    pub until_unix_ms: Option<u64>,
    pub issued_by: Fingerprint,
    pub issued_at_unix_ms: u64,
}

/// Client to server. The first frame must be [`ClientControl::Auth`].
#[derive(Debug, Clone)]
pub enum ClientControl {
    Auth(Box<ClientAuth>),
    JoinChannel { channel: ChannelId, password: Option<String> },
    LeaveChannel,
    SetVoiceState { self_muted: bool, self_deafened: bool },
    SetNickname(String),
    SendMessage {
        channel: ChannelId,
        content: String,
        reply_to: Option<MessageId>,
        /// Client-chosen; echoed back so an optimistic local render can be
        /// matched to the server's copy.
        nonce: u64,
    },
    EditMessage { id: MessageId, content: String },
    DeleteMessage { id: MessageId },
    React { message: MessageId, emoji: String, add: bool },
    FetchHistory { channel: ChannelId, before: Option<MessageId>, limit: u16 },
    Typing { channel: ChannelId },
    Ping { nonce: u64 },
    Kick { nonce: u64, client: ClientId, reason: String },
    Ban { nonce: u64, fingerprint: Fingerprint, reason: String, until_unix_ms: Option<u64> },
    Unban { nonce: u64, fingerprint: Fingerprint },
    ListBans { nonce: u64 },
    SetServerMute { nonce: u64, client: ClientId, muted: bool },
    MoveMember { nonce: u64, client: ClientId, channel: Option<ChannelId> },
    CreateRole { nonce: u64, name: String, permissions: perms::Permissions },
    UpdateRole {
        nonce: u64,
        id: RoleId,
        name: Option<String>,
        /// `Some(None)` clears the colour.
        color: Option<Option<u32>>,
        permissions: Option<perms::Permissions>,
    },
    DeleteRole { nonce: u64, id: RoleId },
    ReorderRoles { nonce: u64, positions: Vec<(RoleId, u32)> },
    SetMemberRoles { nonce: u64, fingerprint: Fingerprint, roles: Vec<RoleId> },
    SetChannelOverwrite {
        nonce: u64,
        channel: ChannelId,
        target: OverwriteTarget,
        allow: perms::Permissions,
        deny: perms::Permissions,
    },
    DeleteChannelOverwrite { nonce: u64, channel: ChannelId, target: OverwriteTarget },
    CreateChannel {
        nonce: u64,
        name: String,
        parent: Option<ChannelId>,
        topic: String,
        kind: ChannelKind,
        max_users: Option<u16>,
        order: i32,
    },
    UpdateChannel {
        nonce: u64,
        id: ChannelId,
        parent: Option<ChannelId>,
        name: String,
        topic: String,
        kind: ChannelKind,
        max_users: Option<u16>,
        order: i32,
    },
    DeleteChannel { nonce: u64, id: ChannelId },
}

/// Server to client. The first frame is always [`ServerControl::Hello`].
#[derive(Debug, Clone)]
pub enum ServerControl {
    Hello(Box<ServerHello>),
    AuthOk(Box<AuthOk>),
    AuthFailed(AuthFailure),
    UserJoined(Box<UserInfo>),
    UserLeft { client: ClientId, reason: DisconnectReason },
    UserMoved { client: ClientId, from: Option<ChannelId>, to: Option<ChannelId> },
    UserUpdated(Box<UserInfo>),
    VoiceActivity { client: ClientId, speaking: bool },
    ChannelCreated(Channel),
    ChannelUpdated(Channel),
    ChannelRemoved(ChannelId),
    MessagePosted { message: Box<ChatMessage>, nonce: Option<u64> },
    MessageEdited { id: MessageId, content: String, edited_at_unix_ms: u64 },
    MessageDeleted { id: MessageId },
    ReactionUpdated { message: MessageId, reaction: Reaction },
    History { channel: ChannelId, messages: Vec<ChatMessage>, reached_start: bool },
    Typing { client: ClientId, channel: ChannelId },
    Pong { nonce: u64 },
    Error { code: ErrorCode, detail: String },
    RoleCreated(perms::Role),
    RoleUpdated(perms::Role),
    RoleDeleted { id: RoleId },
    RolesReordered { positions: Vec<(RoleId, u32)> },
    BanList { bans: Vec<BanEntry> },
    /// An admin command succeeded, by nonce.
    Ack { nonce: u64 },
    /// An admin command was refused or failed, by nonce.
    CommandFailed { nonce: u64, code: ErrorCode, detail: String },
}

/// Why the server refused something.
#[derive(Debug, Clone, Copy, PartialEq, Eq, Structural)]
pub enum ErrorCode {
    NotAuthenticated,
    NoSuchChannel,
    NoSuchMessage,
    ChannelFull,
    ChannelPasswordRequired,
    NotPermitted,
    RateLimited,
    MessageTooLong,
    Malformed,
    Internal,
}

/// A raw Ed25519 signature.
#[derive(Debug, Clone, Copy, PartialEq, Eq)]
pub struct SignatureBytes(pub [u8; 64]);

impl SignatureBytes {
    /// The signature in a run of octets, or how many octets there were when
    /// there are not 64.
    pub fn from_slice(octets: &[u8]) -> (r: Result<Self, usize>)
        ensures
            match r {
                Ok(s) => s.0@ == octets@,
                Err(n) => n == octets@.len() && n != 64,
            },
    {
        if octets.len() != 64 {
            return Err(octets.len());
        }
        let mut a: [u8; 64] = [0u8; 64];
        let mut i: usize = 0;
        while i < 64
            invariant
                i <= 64,
                octets@.len() == 64,
                a@.take(i as int) == octets@.take(i as int),
            decreases 64 - i,
        {
            a[i] = octets[i];
            assert(a@.take(i + 1) =~= octets@.take(i + 1));
            i += 1;
        }
        assert(a@.take(64) =~= a@ && octets@.take(64) =~= octets@);
        Ok(SignatureBytes(a))
    }
}

impl From<[u8; 64]> for SignatureBytes {
    fn from(bytes: [u8; 64]) -> (r: Self) {
        SignatureBytes(bytes)
    }
}

impl vstd::std_specs::convert::FromSpecImpl<[u8; 64]> for SignatureBytes {
    open spec fn obeys_from_spec() -> bool {
        true
    }

    open spec fn from_spec(bytes: [u8; 64]) -> Self {
        SignatureBytes(bytes)
    }
}

/// The owner may do everything, anyone else what they were given; one user is
/// above another who is not the owner by being the owner or by a higher rank,
/// and in no other way.
pub proof fn law_who_may_and_who_is_above(a: Permissions, b: Permissions, capability: Capability)
    ensures
        a.may(capability) <==> a.owner || exists|i: int|
            0 <= i < a.capabilities@.len() && #[trigger] a.capabilities@[i] == capability,
        b.owner ==> !a.above(&b),
        !b.owner && a.owner ==> a.above(&b),
        !b.owner && !a.owner ==> (a.above(&b) <==> a.rank > b.rank),
{
}

} // verus!
