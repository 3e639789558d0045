//! The client's side of a connection: whom to trust, how a login proceeds and
//! what the server's frames mean. No audio and no user interface.

pub mod trust;

use crate::client::trust::{TrustDecision, TrustStore};
use crate::identity;
use crate::identity::{crypto, Fingerprint, Identity, PublicIdentity};
use crate::octets;
use crate::proto::codec::CodecError;
use crate::proto::perms::{Role, RoleId};
use crate::proto::voice::{VoiceDownstream, UPSTREAM_HEADER_LEN};
use crate::proto::{
    AuthFailure, BanEntry, Channel, ChannelId, ChatMessage, ClientAuth, ClientId, DisconnectReason,
    ErrorCode, MessageId, ServerControl, ServerHello, ServerLimits, SignatureBytes, UserInfo,
    PROTOCOL_VERSION,
};
use crate::text;
use bytes::Bytes;
use vstd::prelude::*;

verus! {

/// Seconds to wait for the server's greeting and its verdict on a login.
pub const HANDSHAKE_TIMEOUT_SECS: u64 = 10;

/// Seconds to wait for the transport itself. Plenty for any reachable host.
pub const CONNECT_TIMEOUT_SECS: u64 = 10;

/// Why a connection could not be made.
#[derive(Debug, Clone)]
pub enum ConnectError {
    /// TLS could not be set up.
    Tls(String),
    /// The transport failed.
    Transport { address: String, source: String },
    /// The control stream failed.
    Codec(CodecError),
    /// The server hung up before the login was through.
    ClosedDuringHandshake,
    /// The server went quiet.
    TimedOut,
    /// Nothing answered.
    Unreachable { address: String },
    /// The server sent something else where a greeting or verdict belongs.
    UnexpectedGreeting(&'static str),
    /// The two ends speak different versions.
    ProtocolMismatch { ours: u16, theirs: u16 },
    /// The server presented no certificate.
    NoPeerCertificate,
    /// The greeting was not signed by the identity it claims.
    ForgedGreeting { fingerprint: Fingerprint },
    /// The server is not who it was.
    IdentityChanged { address: String, expected: Fingerprint, actual: Fingerprint },
    /// The server is unknown, and unknown servers are refused.
    NotTrusted { address: String, fingerprint: Fingerprint },
    /// The server refused the login.
    Rejected(RejectionReason),
}

/// A server's stated reason for refusing a login.
#[derive(Debug, Clone)]
pub enum RejectionReason {
    ProtocolMismatch(u16),
    SecurityLevelTooLow { required: u32, provided: u32 },
    BadSignature,
    PasswordRequired,
    BadPassword,
    Banned { reason: String },
    ServerFull,
    NicknameRejected { reason: String },
}

impl RejectionReason {
    /// The sentence for this reason.
    pub open spec fn sentence(&self) -> Seq<char> {
        match self {
            RejectionReason::ProtocolMismatch(version) =>
                "this client is too old or too new for the server (server speaks version "@
                + text::digits(*version as nat) + ")"@,
            RejectionReason::SecurityLevelTooLow { required, provided } =>
                "your identity is at security level "@ + text::digits(*provided as nat)
                + ", but this server requires "@ + text::digits(*required as nat)
                + ". Mine your identity to a higher level and try again."@,
            RejectionReason::BadSignature => "the server rejected the identity signature"@,
            RejectionReason::PasswordRequired => "this server requires a password"@,
            RejectionReason::BadPassword => "incorrect server password"@,
            RejectionReason::Banned { reason } => "you are banned from this server: "@ + reason@,
            RejectionReason::ServerFull => "the server is full"@,
            RejectionReason::NicknameRejected { reason } =>
                "the server rejected your nickname: "@ + reason@,
        }
    }

    /// The reason as a sentence for a user.
    pub fn message(&self) -> (s: String)
        ensures
            s@ == self.sentence(),
    {
        match self {
            RejectionReason::ProtocolMismatch(version) => {
                let mut s: String = String::from_str(
                    "this client is too old or too new for the server (server speaks version ",
                );
                s.append(text::decimal(*version as u64).as_str());
                s.append(")");
                s
            },
            RejectionReason::SecurityLevelTooLow { required, provided } => {
                let mut s: String = String::from_str("your identity is at security level ");
                s.append(text::decimal(*provided as u64).as_str());
                s.append(", but this server requires ");
                s.append(text::decimal(*required as u64).as_str());
                s.append(". Mine your identity to a higher level and try again.");
                s
            },
            RejectionReason::BadSignature => String::from_str(
                "the server rejected the identity signature",
            ),
            RejectionReason::PasswordRequired => String::from_str("this server requires a password"),
            RejectionReason::BadPassword => String::from_str("incorrect server password"),
            RejectionReason::Banned { reason } => text::join(
                "you are banned from this server: ",
                reason.as_str(),
            ),
            RejectionReason::ServerFull => String::from_str("the server is full"),
            RejectionReason::NicknameRejected { reason } => text::join(
                "the server rejected your nickname: ",
                reason.as_str(),
            ),
        }
    }
}

/// The reason that a refusal states.
pub open spec fn rejection_of(failure: AuthFailure) -> RejectionReason {
    match failure {
        AuthFailure::ProtocolMismatch { server_version } => RejectionReason::ProtocolMismatch(
            server_version,
        ),
        AuthFailure::SecurityLevelTooLow { required, provided } =>
            RejectionReason::SecurityLevelTooLow { required, provided },
        AuthFailure::BadSignature => RejectionReason::BadSignature,
        AuthFailure::PasswordRequired => RejectionReason::PasswordRequired,
        AuthFailure::BadPassword => RejectionReason::BadPassword,
        AuthFailure::Banned { reason, until_unix_ms } => RejectionReason::Banned { reason },
        AuthFailure::ServerFull => RejectionReason::ServerFull,
        AuthFailure::NicknameRejected { reason } => RejectionReason::NicknameRejected { reason },
    }
}

impl From<AuthFailure> for RejectionReason {
    fn from(failure: AuthFailure) -> (r: Self) {
        match failure {
            AuthFailure::ProtocolMismatch { server_version } => RejectionReason::ProtocolMismatch(
                server_version,
            ),
            AuthFailure::SecurityLevelTooLow { required, provided } =>
                RejectionReason::SecurityLevelTooLow { required, provided },
            AuthFailure::BadSignature => RejectionReason::BadSignature,
            AuthFailure::PasswordRequired => RejectionReason::PasswordRequired,
            AuthFailure::BadPassword => RejectionReason::BadPassword,
            AuthFailure::Banned { reason, until_unix_ms: _ } => RejectionReason::Banned { reason },
            AuthFailure::ServerFull => RejectionReason::ServerFull,
            AuthFailure::NicknameRejected { reason } => RejectionReason::NicknameRejected {
                reason,
            },
        }
    }
}

impl vstd::std_specs::convert::FromSpecImpl<AuthFailure> for RejectionReason {
    open spec fn obeys_from_spec() -> bool {
        true
    }

    open spec fn from_spec(failure: AuthFailure) -> Self {
        rejection_of(failure)
    }
}

impl ConnectError {
    /// The sentence for this error.
    pub open spec fn sentence(&self) -> Seq<char> {
        match self {
            ConnectError::Tls(e) => "could not set up TLS: "@ + e@,
            ConnectError::Transport { address, source } => "could not reach "@ + address@ + ": "@
                + source@,
            ConnectError::Codec(e) => "control stream: "@ + e.sentence(),
            ConnectError::ClosedDuringHandshake =>
                "the server closed the connection during the handshake"@,
            ConnectError::TimedOut => "the server did not respond within "@ + text::digits(
                HANDSHAKE_TIMEOUT_SECS as nat,
            ) + "s"@,
            ConnectError::Unreachable { address } => "no server answered at "@ + address@
                + " within "@ + text::digits(CONNECT_TIMEOUT_SECS as nat)
                + "s \u{2014} check the address, the port, and that the host's firewall allows UDP"@,
            ConnectError::UnexpectedGreeting(what) => "the server sent "@ + what@
                + " instead of a greeting"@,
            ConnectError::ProtocolMismatch { ours, theirs } =>
                "the server speaks protocol version "@ + text::digits(*theirs as nat)
                + ", this client speaks "@ + text::digits(*ours as nat),
            ConnectError::NoPeerCertificate => "the server presented no certificate"@,
            ConnectError::ForgedGreeting { fingerprint } =>
                "the server's greeting was not signed by the identity it claims ("@
                + identity::fingerprint_text(fingerprint.0@)
                + ") \u{2014} something is intercepting this connection"@,
            ConnectError::IdentityChanged { address, expected, actual } => "the server at "@
                + address@ + " now identifies as "@ + identity::fingerprint_text(actual.0@)
                + ", but was previously "@ + identity::fingerprint_text(expected.0@)
                + ". Verify the new fingerprint with the operator before trusting it."@,
            ConnectError::NotTrusted { address, fingerprint } => "the server at "@ + address@
                + " is not yet trusted (identity "@ + identity::fingerprint_text(fingerprint.0@)
                + ")"@,
            ConnectError::Rejected(reason) => "the server refused the connection: "@
                + reason.sentence(),
        }
    }

    /// The error as a sentence.
    pub fn message(&self) -> (s: String)
        ensures
            s@ == self.sentence(),
    {
        match self {
            ConnectError::Tls(e) => text::join("could not set up TLS: ", e.as_str()),
            ConnectError::Transport { address, source } => {
                let mut s: String = text::join("could not reach ", address.as_str());
                s.append(": ");
                s.append(source.as_str());
                s
            },
            ConnectError::Codec(e) => text::join("control stream: ", e.message().as_str()),
            ConnectError::ClosedDuringHandshake => String::from_str(
                "the server closed the connection during the handshake",
            ),
            ConnectError::TimedOut => {
                let mut s: String = String::from_str("the server did not respond within ");
                s.append(text::decimal(HANDSHAKE_TIMEOUT_SECS).as_str());
                s.append("s");
                s
            },
            ConnectError::Unreachable { address } => {
                let mut s: String = text::join("no server answered at ", address.as_str());
                s.append(" within ");
                s.append(text::decimal(CONNECT_TIMEOUT_SECS).as_str());
                s.append(
                    "s \u{2014} check the address, the port, and that the host's firewall allows UDP",
                );
                s
            },
            ConnectError::UnexpectedGreeting(what) => {
                let mut s: String = text::join("the server sent ", what);
                s.append(" instead of a greeting");
                s
            },
            ConnectError::ProtocolMismatch { ours, theirs } => {
                let mut s: String = String::from_str("the server speaks protocol version ");
                s.append(text::decimal(*theirs as u64).as_str());
                s.append(", this client speaks ");
                s.append(text::decimal(*ours as u64).as_str());
                s
            },
            ConnectError::NoPeerCertificate => String::from_str(
                "the server presented no certificate",
            ),
            ConnectError::ForgedGreeting { fingerprint } => {
                let mut s: String = String::from_str(
                    "the server's greeting was not signed by the identity it claims (",
                );
                s.append(fingerprint.to_string().as_str());
                s.append(") \u{2014} something is intercepting this connection");
                s
            },
            ConnectError::IdentityChanged { address, expected, actual } => {
                let mut s: String = text::join("the server at ", address.as_str());
                s.append(" now identifies as ");
                s.append(actual.to_string().as_str());
                s.append(", but was previously ");
                s.append(expected.to_string().as_str());
                s.append(". Verify the new fingerprint with the operator before trusting it.");
                s
            },
            ConnectError::NotTrusted { address, fingerprint } => {
                let mut s: String = text::join("the server at ", address.as_str());
                s.append(" is not yet trusted (identity ");
                s.append(fingerprint.to_string().as_str());
                s.append(")");
                s
            },
            ConnectError::Rejected(reason) => text::join(
                "the server refused the connection: ",
                reason.message().as_str(),
            ),
        }
    }
}

/// How much to insist on a known server identity.
#[derive(Debug, Clone, Copy, PartialEq, Eq, Structural)]
pub enum TrustPolicy {
    /// Pin an unknown server; refuse one whose identity changed.
    OnFirstUse,
    /// Refuse anything not already pinned.
    Strict,
    /// Accept anything, pin nothing. This gives up detection of an interceptor.
    Insecure,
}

impl Default for TrustPolicy {
    fn default() -> (r: Self)
        ensures
            r == TrustPolicy::OnFirstUse,
    {
        TrustPolicy::OnFirstUse
    }
}

/// Whom to connect to, and as whom.
#[derive(Debug, Clone)]
pub struct ConnectOptions {
    /// The socket address that the name resolved to, as text.
    pub address: String,
    pub nickname: String,
    pub password: Option<String>,
    pub trust: TrustPolicy,
    /// What to file the server's identity under, normally the address the user
    /// typed. Filing it under the resolved address would file it under a value
    /// that others can influence. Defaults to the address.
    pub server_key: Option<String>,
}

impl ConnectOptions {
    /// No password, trust on first use, filed under the address.
    pub fn new(address: String, nickname: String) -> (r: Self)
        ensures
            r == (ConnectOptions {
                address,
                nickname,
                password: None,
                trust: TrustPolicy::OnFirstUse,
                server_key: None,
            }),
    {
        ConnectOptions {
            address,
            nickname,
            password: None,
            trust: TrustPolicy::default(),
            server_key: None,
        }
    }

    /// Files the server's identity under the address the user typed.
    pub fn with_server_key(self, key: &str) -> (r: Self)
        ensures
            r.server_key is Some,
            r.server_key->0@ == normalised_key(key@),
            r == (ConnectOptions { server_key: r.server_key, ..self }),
    {
        ConnectOptions {
            address: self.address,
            nickname: self.nickname,
            password: self.password,
            trust: self.trust,
            server_key: Some(normalise_server_key(key)),
        }
    }

    /// Presents a server password.
    pub fn with_password(self, password: String) -> (r: Self)
        ensures
            r == (ConnectOptions { password: Some(password), ..self }),
    {
        ConnectOptions {
            address: self.address,
            nickname: self.nickname,
            password: Some(password),
            trust: self.trust,
            server_key: self.server_key,
        }
    }

    /// Sets how much to insist on a known identity.
    pub fn with_trust(self, trust: TrustPolicy) -> (r: Self)
        ensures
            r == (ConnectOptions { trust, ..self }),
    {
        ConnectOptions {
            address: self.address,
            nickname: self.nickname,
            password: self.password,
            trust,
            server_key: self.server_key,
        }
    }
}

/// A server key in one form: trimmed and in small letters.
pub open spec fn normalised_key(key: Seq<char>) -> Seq<char> {
    text::ascii_lowered(text::trimmed(key))
}

/// Lowercases and trims, so that one server has one pin.
pub fn normalise_server_key(key: &str) -> (r: String)
    ensures
        r@ == normalised_key(key@),
{
    text::to_ascii_lower(text::trim(key).as_str())
}

/// Everything the server said at login.
#[derive(Debug, Clone)]
pub struct SessionInfo {
    pub client_id: ClientId,
    pub server_name: String,
    pub server_identity: PublicIdentity,
    /// Only the channels this member may view.
    pub channels: Vec<Channel>,
    pub users: Vec<UserInfo>,
    /// Every role on the server.
    pub roles: Vec<Role>,
    /// The channel to read first, if any.
    pub default_channel: Option<ChannelId>,
    pub limits: ServerLimits,
}

/// Everything arriving from the server.
#[derive(Debug, Clone)]
pub enum ClientEvent {
    UserJoined(UserInfo),
    UserLeft { client: ClientId, reason: DisconnectReason },
    UserMoved { client: ClientId, from: Option<ChannelId>, to: Option<ChannelId> },
    UserUpdated(UserInfo),
    VoiceActivity { client: ClientId, speaking: bool },
    ChannelCreated(Channel),
    ChannelUpdated(Channel),
    ChannelRemoved(ChannelId),
    MessagePosted {
        message: ChatMessage,
        /// Set when this echoes our own send, matching the nonce we chose.
        nonce: Option<u64>,
    },
    MessageEdited { id: MessageId, content: String, edited_at_unix_ms: u64 },
    MessageDeleted { id: MessageId },
    History { channel: ChannelId, messages: Vec<ChatMessage>, reached_start: bool },
    Typing { client: ClientId, channel: ChannelId },
    RoleCreated(Role),
    RoleUpdated(Role),
    RoleDeleted { id: RoleId },
    RolesReordered { positions: Vec<(RoleId, u32)> },
    BanList { bans: Vec<BanEntry> },
    /// An admin command succeeded, by nonce.
    Ack { nonce: u64 },
    /// An admin command was refused or failed, by nonce.
    CommandFailed { nonce: u64, code: ErrorCode, detail: String },
    /// One voice packet. Jitter buffering and decoding come later.
    Voice(VoiceDownstream),
    Pong { nonce: u64 },
    ServerError { code: ErrorCode, detail: String },
    /// Terminal. Nothing further arrives.
    Disconnected { reason: String },
}

/// What a trust policy makes of an identity.
pub enum PolicyOutcome {
    /// Go on, with these pins, which may be new and worth saving.
    Accept(Map<Seq<char>, trust::Pin>, bool),
    /// The server is unknown.
    Unknown,
    /// The server used to be someone else.
    Changed(Fingerprint),
}

/// What a trust policy makes of an identity seen at an address.
///
/// A pin filed under the resolved address, for this same identity, is a pin
/// the user already made: it moves to the new key. One for another identity
/// does not, since an address can be reused by another server. A change is
/// never resolved automatically.
pub open spec fn policy_outcome(
    pins: Map<Seq<char>, trust::Pin>,
    policy: TrustPolicy,
    address: Seq<char>,
    legacy_key: Seq<char>,
    fingerprint: Fingerprint,
    server_name: Seq<char>,
    now: u64,
) -> PolicyOutcome {
    if policy == TrustPolicy::Insecure {
        PolicyOutcome::Accept(pins, false)
    } else {
        match trust::decision(pins, address, fingerprint) {
            TrustDecision::Recognised => PolicyOutcome::Accept(pins, false),
            TrustDecision::Changed { expected, actual } => PolicyOutcome::Changed(expected),
            TrustDecision::FirstContact { fingerprint: _ } => {
                let pinned = trust::trusting(pins, address, fingerprint, server_name, now);
                if legacy_key != address && trust::decision(pins, legacy_key, fingerprint)
                    == TrustDecision::Recognised {
                    PolicyOutcome::Accept(pinned.remove(legacy_key), true)
                } else if policy == TrustPolicy::Strict {
                    PolicyOutcome::Unknown
                } else {
                    PolicyOutcome::Accept(pinned, true)
                }
            },
        }
    }
}

/// Whether a result and the pins afterwards are what the policy makes of it. A
/// success says whether a pin was written and is worth saving.
pub open spec fn follows_policy(
    outcome: PolicyOutcome,
    pins: Map<Seq<char>, trust::Pin>,
    after: Map<Seq<char>, trust::Pin>,
    address: Seq<char>,
    fingerprint: Fingerprint,
    r: Result<bool, ConnectError>,
) -> bool {
    match outcome {
        PolicyOutcome::Accept(wanted, wrote) => r == Ok::<bool, ConnectError>(wrote) && after
            == wanted,
        PolicyOutcome::Unknown => after == pins && (r matches Err(
            ConnectError::NotTrusted { address: a, fingerprint: f },
        ) && a@ == address && f == fingerprint),
        PolicyOutcome::Changed(was) => after == pins && (r matches Err(
            ConnectError::IdentityChanged { address: a, expected, actual },
        ) && a@ == address && expected == was && actual == fingerprint),
    }
}

/// Applies a trust policy as of a given time.
pub fn apply_trust_policy_at(
    store: &mut TrustStore,
    policy: TrustPolicy,
    address: &str,
    legacy_key: &str,
    fingerprint: Fingerprint,
    server_name: &str,
    now: u64,
) -> (r: Result<bool, ConnectError>)
    ensures
        follows_policy(
            policy_outcome(
                old(store)@,
                policy,
                address@,
                legacy_key@,
                fingerprint,
                server_name@,
                now,
            ),
            old(store)@,
            final(store)@,
            address@,
            fingerprint,
            r,
        ),
{
    if policy == TrustPolicy::Insecure {
        return Ok(false);
    }
    match store.check(address, fingerprint) {
        TrustDecision::Recognised => Ok(false),
        TrustDecision::FirstContact { fingerprint: _ } => {
            if !text::same(legacy_key, address) {
                match store.check(legacy_key, fingerprint) {
                    TrustDecision::Recognised => {
                        store.trust_at(address, fingerprint, server_name, now);
                        let _had: bool = store.forget(legacy_key);
                        return Ok(true);
                    },
                    _ => {},
                }
            }
            if policy == TrustPolicy::Strict {
                return Err(
                    ConnectError::NotTrusted { address: String::from_str(address), fingerprint },
                );
            }
            store.trust_at(address, fingerprint, server_name, now);
            Ok(true)
        },
        TrustDecision::Changed { expected, actual } => Err(
            ConnectError::IdentityChanged { address: String::from_str(address), expected, actual },
        ),
    }
}

/// Applies a trust policy now.
pub fn apply_trust_policy(
    store: &mut TrustStore,
    policy: TrustPolicy,
    address: &str,
    legacy_key: &str,
    fingerprint: Fingerprint,
    server_name: &str,
) -> (r: Result<bool, ConnectError>)
    ensures
        exists|now: u64|
            follows_policy(
                #[trigger] policy_outcome(
                    old(store)@,
                    policy,
                    address@,
                    legacy_key@,
                    fingerprint,
                    server_name@,
                    now,
                ),
                old(store)@,
                final(store)@,
                address@,
                fingerprint,
                r,
            ),
{
    let now: u64 = trust::now_unix_ms();
    apply_trust_policy_at(store, policy, address, legacy_key, fingerprint, server_name, now)
}

/// A server whose identity changed is refused under every policy but the
/// insecure one, and its pin stays as it was; the insecure one pins nothing.
pub proof fn law_changed_identity_is_refused(
    pins: Map<Seq<char>, trust::Pin>,
    policy: TrustPolicy,
    address: Seq<char>,
    legacy_key: Seq<char>,
    fingerprint: Fingerprint,
    server_name: Seq<char>,
    now: u64,
)
    requires
        pins.contains_key(address),
        pins[address].fingerprint != fingerprint,
    ensures
        policy_outcome(pins, policy, address, legacy_key, fingerprint, server_name, now)
            == if policy == TrustPolicy::Insecure {
            PolicyOutcome::Accept(pins, false)
        } else {
            PolicyOutcome::Changed(pins[address].fingerprint)
        },
{
}

/// Once a policy other than the insecure one lets a server in, that very
/// identity is what is pinned at the address, and nobody else's pin changed
/// except a migrated one.
pub proof fn law_accepted_identity_is_pinned(
    pins: Map<Seq<char>, trust::Pin>,
    policy: TrustPolicy,
    address: Seq<char>,
    legacy_key: Seq<char>,
    fingerprint: Fingerprint,
    server_name: Seq<char>,
    now: u64,
)
    requires
        policy != TrustPolicy::Insecure,
        policy_outcome(
            pins,
            policy,
            address,
            legacy_key,
            fingerprint,
            server_name,
            now,
        ) is Accept,
    ensures
        ({
            let after = policy_outcome(
                pins,
                policy,
                address,
                legacy_key,
                fingerprint,
                server_name,
                now,
            )->Accept_0;
            &&& trust::decision(after, address, fingerprint) == TrustDecision::Recognised
            &&& forall|k: Seq<char>|
                k != address && k != legacy_key ==> (#[trigger] after.contains_key(k)
                    == pins.contains_key(k)) && (pins.contains_key(k) ==> after[k] == pins[k])
        }),
{
}

/// The strict policy never pins anything new: it only lets in an identity that
/// is already pinned, under the address or under its older key.
pub proof fn law_strict_policy_needs_a_pin(
    pins: Map<Seq<char>, trust::Pin>,
    address: Seq<char>,
    legacy_key: Seq<char>,
    fingerprint: Fingerprint,
    server_name: Seq<char>,
    now: u64,
)
    ensures
        policy_outcome(
            pins,
            TrustPolicy::Strict,
            address,
            legacy_key,
            fingerprint,
            server_name,
            now,
        ) is Accept <==> trust::decision(pins, address, fingerprint) == TrustDecision::Recognised
            || (!pins.contains_key(address) && legacy_key != address && trust::decision(
            pins,
            legacy_key,
            fingerprint,
        ) == TrustDecision::Recognised),
{
}

/// The event that a frame stands for; none for handshake frames, which mean
/// nothing after login, and for reactions, which have no event.
pub open spec fn translated(message: ServerControl) -> Option<ClientEvent> {
    match message {
        ServerControl::UserJoined(info) => Some(ClientEvent::UserJoined(*info)),
        ServerControl::UserLeft { client, reason } => Some(
            ClientEvent::UserLeft { client, reason },
        ),
        ServerControl::UserMoved { client, from, to } => Some(
            ClientEvent::UserMoved { client, from, to },
        ),
        ServerControl::UserUpdated(info) => Some(ClientEvent::UserUpdated(*info)),
        ServerControl::VoiceActivity { client, speaking } => Some(
            ClientEvent::VoiceActivity { client, speaking },
        ),
        ServerControl::ChannelCreated(channel) => Some(ClientEvent::ChannelCreated(channel)),
        ServerControl::ChannelUpdated(channel) => Some(ClientEvent::ChannelUpdated(channel)),
        ServerControl::ChannelRemoved(id) => Some(ClientEvent::ChannelRemoved(id)),
        ServerControl::MessagePosted { message, nonce } => Some(
            ClientEvent::MessagePosted { message: *message, nonce },
        ),
        ServerControl::MessageEdited { id, content, edited_at_unix_ms } => Some(
            ClientEvent::MessageEdited { id, content, edited_at_unix_ms },
        ),
        ServerControl::MessageDeleted { id } => Some(ClientEvent::MessageDeleted { id }),
        ServerControl::History { channel, messages, reached_start } => Some(
            ClientEvent::History { channel, messages, reached_start },
        ),
        ServerControl::Typing { client, channel } => Some(ClientEvent::Typing { client, channel }),
        ServerControl::Pong { nonce } => Some(ClientEvent::Pong { nonce }),
        ServerControl::Error { code, detail } => Some(ClientEvent::ServerError { code, detail }),
        ServerControl::RoleCreated(role) => Some(ClientEvent::RoleCreated(role)),
        ServerControl::RoleUpdated(role) => Some(ClientEvent::RoleUpdated(role)),
        ServerControl::RoleDeleted { id } => Some(ClientEvent::RoleDeleted { id }),
        ServerControl::RolesReordered { positions } => Some(
            ClientEvent::RolesReordered { positions },
        ),
        ServerControl::BanList { bans } => Some(ClientEvent::BanList { bans }),
        ServerControl::Ack { nonce } => Some(ClientEvent::Ack { nonce }),
        ServerControl::CommandFailed { nonce, code, detail } => Some(
            ClientEvent::CommandFailed { nonce, code, detail },
        ),
        ServerControl::ReactionUpdated { message: _, reaction: _ } => None,
        ServerControl::Hello(_) => None,
        ServerControl::AuthOk(_) => None,
        ServerControl::AuthFailed(_) => None,
    }
}

/// Maps a frame onto an event.
pub fn translate(message: ServerControl) -> (r: Option<ClientEvent>)
    ensures
        r == translated(message),
{
    match message {
        ServerControl::UserJoined(info) => Some(ClientEvent::UserJoined(*info)),
        ServerControl::UserLeft { client, reason } => Some(
            ClientEvent::UserLeft { client, reason },
        ),
        ServerControl::UserMoved { client, from, to } => Some(
            ClientEvent::UserMoved { client, from, to },
        ),
        ServerControl::UserUpdated(info) => Some(ClientEvent::UserUpdated(*info)),
        ServerControl::VoiceActivity { client, speaking } => Some(
            ClientEvent::VoiceActivity { client, speaking },
        ),
        ServerControl::ChannelCreated(channel) => Some(ClientEvent::ChannelCreated(channel)),
        ServerControl::ChannelUpdated(channel) => Some(ClientEvent::ChannelUpdated(channel)),
        ServerControl::ChannelRemoved(id) => Some(ClientEvent::ChannelRemoved(id)),
        ServerControl::MessagePosted { message, nonce } => Some(
            ClientEvent::MessagePosted { message: *message, nonce },
        ),
        ServerControl::MessageEdited { id, content, edited_at_unix_ms } => Some(
            ClientEvent::MessageEdited { id, content, edited_at_unix_ms },
        ),
        ServerControl::MessageDeleted { id } => Some(ClientEvent::MessageDeleted { id }),
        ServerControl::History { channel, messages, reached_start } => Some(
            ClientEvent::History { channel, messages, reached_start },
        ),
        ServerControl::Typing { client, channel } => Some(ClientEvent::Typing { client, channel }),
        ServerControl::Pong { nonce } => Some(ClientEvent::Pong { nonce }),
        ServerControl::Error { code, detail } => Some(ClientEvent::ServerError { code, detail }),
        ServerControl::RoleCreated(role) => Some(ClientEvent::RoleCreated(role)),
        ServerControl::RoleUpdated(role) => Some(ClientEvent::RoleUpdated(role)),
        ServerControl::RoleDeleted { id } => Some(ClientEvent::RoleDeleted { id }),
        ServerControl::RolesReordered { positions } => Some(
            ClientEvent::RolesReordered { positions },
        ),
        ServerControl::BanList { bans } => Some(ClientEvent::BanList { bans }),
        ServerControl::Ack { nonce } => Some(ClientEvent::Ack { nonce }),
        ServerControl::CommandFailed { nonce, code, detail } => Some(
            ClientEvent::CommandFailed { nonce, code, detail },
        ),
        ServerControl::ReactionUpdated { message: _, reaction: _ } => None,
        ServerControl::Hello(_) => None,
        ServerControl::AuthOk(_) => None,
        ServerControl::AuthFailed(_) => None,
    }
}

/// What to call a frame that should not have come.
pub open spec fn frame_name(message: ServerControl) -> Seq<char> {
    match message {
        ServerControl::Hello(_) => "Hello"@,
        ServerControl::AuthOk(_) => "AuthOk"@,
        ServerControl::AuthFailed(_) => "AuthFailed"@,
        ServerControl::Error { code: _, detail: _ } => "Error"@,
        _ => "an unexpected message"@,
    }
}

/// Names a frame that should not have come.
pub fn describe(message: &ServerControl) -> (r: &'static str)
    ensures
        r@ == frame_name(*message),
{
    match message {
        ServerControl::Hello(_) => "Hello",
        ServerControl::AuthOk(_) => "AuthOk",
        ServerControl::AuthFailed(_) => "AuthFailed",
        ServerControl::Error { code: _, detail: _ } => "Error",
        _ => "an unexpected message",
    }
}

/// The hash of the certificate that a peer presented, if it presented any: the
/// end-entity certificate comes first.
pub open spec fn certificate_hash(certificates: Option<Seq<Seq<u8>>>) -> Option<Seq<u8>> {
    match certificates {
        Some(chain) if chain.len() > 0 => Some(crypto::sha256_of(chain[0])),
        _ => None,
    }
}

/// The octets of each certificate.
pub open spec fn chain_view(certificates: Option<Vec<Vec<u8>>>) -> Option<Seq<Seq<u8>>> {
    match certificates {
        Some(chain) => Some(chain@.map_values(|c: Vec<u8>| c@)),
        None => None,
    }
}

/// Hashes the certificate that a peer presented.
pub fn peer_certificate_hash(certificates: &Option<Vec<Vec<u8>>>) -> (r: Result<
    [u8; 32],
    ConnectError,
>)
    ensures
        match certificate_hash(chain_view(*certificates)) {
            Some(hash) => r is Ok && r->Ok_0@ == hash,
            None => r == Err::<[u8; 32], ConnectError>(ConnectError::NoPeerCertificate),
        },
{
    match certificates {
        Some(chain) => {
            if chain.len() == 0 {
                return Err(ConnectError::NoPeerCertificate);
            }
            Ok(crypto::sha256(chain[0].as_slice()))
        },
        None => Err(ConnectError::NoPeerCertificate),
    }
}

/// Whether a greeting was signed, for this very connection, by the identity
/// that it claims.
pub open spec fn genuine(hello: ServerHello, cert_hash: Seq<u8>) -> bool {
    crypto::signature_holds(
        hello.server_identity.key@,
        identity::server_hello_message(hello.nonce@, cert_hash, hello.server_name@),
        hello.signature.0@,
    )
}

/// The key that a server's identity is filed under.
pub open spec fn filing_key(options: ConnectOptions) -> Seq<char> {
    match options.server_key {
        Some(key) => key@,
        None => options.address@,
    }
}

/// What the trust policy makes of a greeting's identity.
pub open spec fn greeting_outcome(
    pins: Map<Seq<char>, trust::Pin>,
    options: ConnectOptions,
    hello: ServerHello,
    now: u64,
) -> PolicyOutcome {
    policy_outcome(
        pins,
        options.trust,
        filing_key(options),
        options.address@,
        identity::fingerprint_with(crypto::sha256_of(hello.server_identity.key@)),
        hello.server_name@,
        now,
    )
}

/// Whether a login answers a greeting: our version and identity, the options'
/// nickname and password, and a signature over this greeting's nonce and this
/// connection's certificate.
pub open spec fn answers(
    auth: ClientAuth,
    hello: ServerHello,
    cert_hash: Seq<u8>,
    options: ConnectOptions,
    who: Identity,
    client_version: Seq<char>,
) -> bool {
    &&& auth.protocol_version == PROTOCOL_VERSION
    &&& auth.identity.key@ == who.public_key()
    &&& auth.identity.counter == who.witness()
    &&& auth.nickname == options.nickname
    &&& auth.password == options.password
    &&& auth.client_version@ == client_version
    &&& auth.signature.0@ == crypto::signature_of(
        who.secret(),
        identity::auth_message(hello.nonce@, cert_hash),
    )
    &&& crypto::signature_holds(
        auth.identity.key@,
        identity::auth_message(hello.nonce@, cert_hash),
        auth.signature.0@,
    )
}

/// A login, the greeting it answers, and whether a pin was written.
pub struct Answer {
    pub auth: ClientAuth,
    pub hello: ServerHello,
    pub pins_changed: bool,
}

/// Answers the server's first frame, or refuses to. Nothing is pinned and
/// nothing is signed for a greeting that is not genuine.
pub fn answer_greeting(
    greeting: ServerControl,
    cert_hash: &[u8; 32],
    options: &ConnectOptions,
    who: &Identity,
    client_version: &str,
    store: &mut TrustStore,
    now: u64,
) -> (r: Result<Answer, ConnectError>)
    ensures
        match greeting {
            ServerControl::Hello(hello) => {
                if hello.protocol_version != PROTOCOL_VERSION {
                    &&& r == Err::<Answer, ConnectError>(
                        ConnectError::ProtocolMismatch {
                            ours: PROTOCOL_VERSION,
                            theirs: hello.protocol_version,
                        },
                    )
                    &&& final(store)@ == old(store)@
                } else if !genuine(*hello, cert_hash@) {
                    &&& r == Err::<Answer, ConnectError>(
                        ConnectError::ForgedGreeting {
                            fingerprint: identity::fingerprint_with(
                                crypto::sha256_of(hello.server_identity.key@),
                            ),
                        },
                    )
                    &&& final(store)@ == old(store)@
                } else {
                    &&& follows_policy(
                        greeting_outcome(old(store)@, *options, *hello, now),
                        old(store)@,
                        final(store)@,
                        filing_key(*options),
                        identity::fingerprint_with(
                            crypto::sha256_of(hello.server_identity.key@),
                        ),
                        match r {
                            Ok(answer) => Ok(answer.pins_changed),
                            Err(e) => Err(e),
                        },
                    )
                    &&& r matches Ok(answer) ==> answer.hello == *hello && answers(
                        answer.auth,
                        *hello,
                        cert_hash@,
                        *options,
                        *who,
                        client_version@,
                    )
                }
            },
            other => {
                &&& r matches Err(ConnectError::UnexpectedGreeting(name)) && name@ == frame_name(
                    other,
                )
                &&& final(store)@ == old(store)@
            },
        },
{
    let hello: ServerHello = match greeting {
        ServerControl::Hello(hello) => *hello,
        other => {
            return Err(ConnectError::UnexpectedGreeting(describe(&other)));
        },
    };
    if hello.protocol_version != PROTOCOL_VERSION {
        return Err(
            ConnectError::ProtocolMismatch {
                ours: PROTOCOL_VERSION,
                theirs: hello.protocol_version,
            },
        );
    }
    let fingerprint: Fingerprint = hello.server_identity.fingerprint();
    match hello.server_identity.verify_server_hello(
        &hello.nonce,
        cert_hash,
        hello.server_name.as_str(),
        &hello.signature.0,
    ) {
        Ok(()) => {},
        Err(_) => {
            return Err(ConnectError::ForgedGreeting { fingerprint });
        },
    }
    let key: &str = match &options.server_key {
        Some(key) => key.as_str(),
        None => options.address.as_str(),
    };
    let pins_changed: bool = match apply_trust_policy_at(
        store,
        options.trust,
        key,
        options.address.as_str(),
        fingerprint,
        hello.server_name.as_str(),
        now,
    ) {
        Ok(changed) => changed,
        Err(e) => {
            return Err(e);
        },
    };
    let auth: ClientAuth = ClientAuth {
        protocol_version: PROTOCOL_VERSION,
        identity: who.public(),
        nickname: options.nickname.clone(),
        password: options.password.clone(),
        client_version: String::from_str(client_version),
        signature: SignatureBytes(who.sign_auth(&hello.nonce, cert_hash)),
    };
    Ok(Answer { auth, hello, pins_changed })
}

/// Reads the server's verdict on a login.
pub fn read_verdict(
    verdict: ServerControl,
    server_name: String,
    server_identity: PublicIdentity,
) -> (r: Result<SessionInfo, ConnectError>)
    ensures
        match verdict {
            ServerControl::AuthOk(ok) => r == Ok::<SessionInfo, ConnectError>(
                SessionInfo {
                    client_id: ok.client_id,
                    server_name,
                    server_identity,
                    channels: ok.channels,
                    users: ok.users,
                    roles: ok.roles,
                    default_channel: ok.default_channel,
                    limits: ok.limits,
                },
            ),
            ServerControl::AuthFailed(failure) => r == Err::<SessionInfo, ConnectError>(
                ConnectError::Rejected(rejection_of(failure)),
            ),
            other => r matches Err(ConnectError::UnexpectedGreeting(name)) && name@ == frame_name(
                other,
            ),
        },
{
    match verdict {
        ServerControl::AuthOk(ok) => {
            let ok: crate::proto::AuthOk = *ok;
            Ok(
                SessionInfo {
                    client_id: ok.client_id,
                    server_name,
                    server_identity,
                    channels: ok.channels,
                    users: ok.users,
                    roles: ok.roles,
                    default_channel: ok.default_channel,
                    limits: ok.limits,
                },
            )
        },
        ServerControl::AuthFailed(failure) => Err(
            ConnectError::Rejected(RejectionReason::from(failure)),
        ),
        other => Err(ConnectError::UnexpectedGreeting(describe(&other))),
    }
}

/// How far a login has come.
pub enum HandshakeState {
    /// Waiting for the transport.
    Dialing,
    /// Waiting for the server to open the control stream.
    AwaitingStream { cert_hash: [u8; 32] },
    /// Waiting for the server's first frame.
    AwaitingGreeting { cert_hash: [u8; 32] },
    /// Waiting for the server's answer to our login.
    AwaitingVerdict { server_name: String, server_identity: PublicIdentity },
    /// Nothing more to wait for.
    Done,
}

/// What a wait came to.
pub enum HandshakeEvent {
    /// The transport is up; carries the certificates the peer presented.
    Connected { certificates: Option<Vec<Vec<u8>>> },
    /// The transport did not come up in time.
    DialTimedOut,
    /// The transport failed.
    DialFailed(String),
    /// The server opened the control stream.
    StreamOpened,
    /// The server did not open it in time.
    StreamTimedOut,
    /// The connection closed first.
    StreamFailed,
    /// A frame, or what was wrong with it.
    Frame(Result<ServerControl, CodecError>),
    /// No frame in time.
    FrameTimedOut,
    /// Our login could not be sent.
    SendFailed(CodecError),
}

/// What to do next.
pub enum HandshakeAction {
    /// Wait for the control stream.
    AwaitStream,
    /// Wait for a frame.
    AwaitFrame,
    /// Send this login, save the pins if they changed, then wait for a frame.
    SendAuth { auth: ClientAuth, pins_changed: bool },
    /// The session is up.
    Finish(SessionInfo),
    /// Give up.
    Fail(ConnectError),
}

/// Whether an event can come of what is being waited for.
pub open spec fn fits(state: HandshakeState, event: HandshakeEvent) -> bool {
    match state {
        HandshakeState::Dialing => event is Connected || event is DialTimedOut
            || event is DialFailed,
        HandshakeState::AwaitingStream { cert_hash: _ } => event is StreamOpened
            || event is StreamTimedOut || event is StreamFailed,
        HandshakeState::AwaitingGreeting { cert_hash: _ } => event is Frame
            || event is FrameTimedOut,
        HandshakeState::AwaitingVerdict { server_name: _, server_identity: _ } => event is Frame
            || event is FrameTimedOut || event is SendFailed,
        HandshakeState::Done => false,
    }
}

/// Whether a step ended the login with this error.
pub open spec fn gave_up(
    step: (HandshakeState, HandshakeAction),
    error: ConnectError,
) -> bool {
    step.0 is Done && step.1 == HandshakeAction::Fail(error)
}

/// Takes a login one step further.
///
/// The server speaks first. Its greeting must be of our version, signed for
/// this connection, and from an identity that the trust policy accepts; only
/// then is a login signed and sent.
pub fn advance(
    state: HandshakeState,
    event: HandshakeEvent,
    options: &ConnectOptions,
    who: &Identity,
    client_version: &str,
    store: &mut TrustStore,
    now: u64,
) -> (step: (HandshakeState, HandshakeAction))
    requires
        fits(state, event),
    ensures
        !(state is AwaitingGreeting && event is Frame) ==> final(store)@ == old(store)@,
        match (state, event) {
            (HandshakeState::Dialing, HandshakeEvent::Connected { certificates }) => {
                match certificate_hash(chain_view(certificates)) {
                    Some(hash) => step.1 is AwaitStream && (step.0 matches
                        HandshakeState::AwaitingStream { cert_hash } && cert_hash@ == hash),
                    None => gave_up(step, ConnectError::NoPeerCertificate),
                }
            },
            (HandshakeState::Dialing, HandshakeEvent::DialFailed(source)) => gave_up(
                step,
                ConnectError::Transport { address: options.address, source },
            ),
            (HandshakeState::Dialing, _) => gave_up(
                step,
                ConnectError::Unreachable { address: options.address },
            ),
            (HandshakeState::AwaitingStream { cert_hash }, HandshakeEvent::StreamOpened) => {
                step.0 == (HandshakeState::AwaitingGreeting { cert_hash }) && step.1 is AwaitFrame
            },
            (HandshakeState::AwaitingStream { cert_hash: _ }, HandshakeEvent::StreamTimedOut) => {
                gave_up(step, ConnectError::TimedOut)
            },
            (HandshakeState::AwaitingStream { cert_hash: _ }, _) => gave_up(
                step,
                ConnectError::ClosedDuringHandshake,
            ),
            (
                HandshakeState::AwaitingGreeting { cert_hash },
                HandshakeEvent::Frame(Ok(greeting)),
            ) => greeted(
                greeting,
                cert_hash@,
                *options,
                *who,
                client_version@,
                old(store)@,
                final(store)@,
                now,
                step,
            ),
            (
                HandshakeState::AwaitingVerdict { server_name, server_identity },
                HandshakeEvent::Frame(Ok(verdict)),
            ) => judged(verdict, server_name, server_identity, step),
            (_, HandshakeEvent::Frame(Err(e))) => final(store)@ == old(store)@ && gave_up(
                step,
                ConnectError::Codec(e),
            ),
            (_, HandshakeEvent::SendFailed(e)) => gave_up(step, ConnectError::Codec(e)),
            (_, _) => gave_up(step, ConnectError::TimedOut),
        },
{
    match state {
        HandshakeState::Dialing => match event {
            HandshakeEvent::Connected { certificates } => match peer_certificate_hash(
                &certificates,
            ) {
                Ok(cert_hash) => (
                    HandshakeState::AwaitingStream { cert_hash },
                    HandshakeAction::AwaitStream,
                ),
                Err(e) => (HandshakeState::Done, HandshakeAction::Fail(e)),
            },
            HandshakeEvent::DialFailed(source) => (
                HandshakeState::Done,
                HandshakeAction::Fail(
                    ConnectError::Transport { address: options.address.clone(), source },
                ),
            ),
            _ => (
                HandshakeState::Done,
                HandshakeAction::Fail(
                    ConnectError::Unreachable { address: options.address.clone() },
                ),
            ),
        },
        HandshakeState::AwaitingStream { cert_hash } => match event {
            HandshakeEvent::StreamOpened => (
                HandshakeState::AwaitingGreeting { cert_hash },
                HandshakeAction::AwaitFrame,
            ),
            HandshakeEvent::StreamTimedOut => (
                HandshakeState::Done,
                HandshakeAction::Fail(ConnectError::TimedOut),
            ),
            _ => (
                HandshakeState::Done,
                HandshakeAction::Fail(ConnectError::ClosedDuringHandshake),
            ),
        },
        HandshakeState::AwaitingGreeting { cert_hash } => match event {
            HandshakeEvent::Frame(Ok(greeting)) => match answer_greeting(
                greeting,
                &cert_hash,
                options,
                who,
                client_version,
                store,
                now,
            ) {
                Ok(answer) => (
                    HandshakeState::AwaitingVerdict {
                        server_name: answer.hello.server_name,
                        server_identity: answer.hello.server_identity,
                    },
                    HandshakeAction::SendAuth {
                        auth: answer.auth,
                        pins_changed: answer.pins_changed,
                    },
                ),
                Err(e) => (HandshakeState::Done, HandshakeAction::Fail(e)),
            },
            HandshakeEvent::Frame(Err(e)) => (
                HandshakeState::Done,
                HandshakeAction::Fail(ConnectError::Codec(e)),
            ),
            _ => (HandshakeState::Done, HandshakeAction::Fail(ConnectError::TimedOut)),
        },
        HandshakeState::AwaitingVerdict { server_name, server_identity } => match event {
            HandshakeEvent::Frame(Ok(verdict)) => match read_verdict(
                verdict,
                server_name,
                server_identity,
            ) {
                Ok(session) => (HandshakeState::Done, HandshakeAction::Finish(session)),
                Err(e) => (HandshakeState::Done, HandshakeAction::Fail(e)),
            },
            HandshakeEvent::Frame(Err(e)) => (
                HandshakeState::Done,
                HandshakeAction::Fail(ConnectError::Codec(e)),
            ),
            HandshakeEvent::SendFailed(e) => (
                HandshakeState::Done,
                HandshakeAction::Fail(ConnectError::Codec(e)),
            ),
            _ => (HandshakeState::Done, HandshakeAction::Fail(ConnectError::TimedOut)),
        },
        HandshakeState::Done => (
            HandshakeState::Done,
            HandshakeAction::Fail(ConnectError::ClosedDuringHandshake),
        ),
    }
}

/// What the server's first frame leads to: a signed login for a greeting that
/// passes every test, and otherwise the error of the first test it fails, with
/// nothing pinned.
pub open spec fn greeted(
    greeting: ServerControl,
    cert_hash: Seq<u8>,
    options: ConnectOptions,
    who: Identity,
    client_version: Seq<char>,
    before: Map<Seq<char>, trust::Pin>,
    after: Map<Seq<char>, trust::Pin>,
    now: u64,
    step: (HandshakeState, HandshakeAction),
) -> bool {
    match greeting {
        ServerControl::Hello(hello) => {
            let fingerprint = identity::fingerprint_with(
                crypto::sha256_of(hello.server_identity.key@),
            );
            if hello.protocol_version != PROTOCOL_VERSION {
                &&& after == before
                &&& gave_up(
                    step,
                    ConnectError::ProtocolMismatch {
                        ours: PROTOCOL_VERSION,
                        theirs: hello.protocol_version,
                    },
                )
            } else if !genuine(*hello, cert_hash) {
                &&& after == before
                &&& gave_up(step, ConnectError::ForgedGreeting { fingerprint })
            } else {
                match step.1 {
                    HandshakeAction::SendAuth { auth, pins_changed } => {
                        &&& follows_policy(
                            greeting_outcome(before, options, *hello, now),
                            before,
                            after,
                            filing_key(options),
                            fingerprint,
                            Ok(pins_changed),
                        )
                        &&& answers(auth, *hello, cert_hash, options, who, client_version)
                        &&& step.0 == (HandshakeState::AwaitingVerdict {
                            server_name: hello.server_name,
                            server_identity: hello.server_identity,
                        })
                    },
                    HandshakeAction::Fail(e) => {
                        &&& follows_policy(
                            greeting_outcome(before, options, *hello, now),
                            before,
                            after,
                            filing_key(options),
                            fingerprint,
                            Err(e),
                        )
                        &&& step.0 is Done
                    },
                    _ => false,
                }
            }
        },
        other => {
            &&& after == before
            &&& step.0 is Done
            &&& step.1 matches HandshakeAction::Fail(ConnectError::UnexpectedGreeting(name))
                && name@ == frame_name(other)
        },
    }
}

/// What the server's verdict leads to.
pub open spec fn judged(
    verdict: ServerControl,
    server_name: String,
    server_identity: PublicIdentity,
    step: (HandshakeState, HandshakeAction),
) -> bool {
    &&& step.0 is Done
    &&& match verdict {
        ServerControl::AuthOk(ok) => step.1 == HandshakeAction::Finish(
            SessionInfo {
                client_id: ok.client_id,
                server_name,
                server_identity,
                channels: ok.channels,
                users: ok.users,
                roles: ok.roles,
                default_channel: ok.default_channel,
                limits: ok.limits,
            },
        ),
        ServerControl::AuthFailed(failure) => step.1 == HandshakeAction::Fail(
            ConnectError::Rejected(rejection_of(failure)),
        ),
        other => step.1 matches HandshakeAction::Fail(ConnectError::UnexpectedGreeting(name))
            && name@ == frame_name(other),
    }
}

/// No login is ever signed for a server that is not who it claims to be, nor
/// for one whose identity changed since it was pinned, unless the policy is
/// the insecure one.
pub proof fn law_no_login_for_an_impostor(
    hello: ServerHello,
    cert_hash: Seq<u8>,
    options: ConnectOptions,
    who: Identity,
    client_version: Seq<char>,
    before: Map<Seq<char>, trust::Pin>,
    after: Map<Seq<char>, trust::Pin>,
    now: u64,
    step: (HandshakeState, HandshakeAction),
)
    requires
        greeted(
            ServerControl::Hello(Box::new(hello)),
            cert_hash,
            options,
            who,
            client_version,
            before,
            after,
            now,
            step,
        ),
        !genuine(hello, cert_hash) || (options.trust != TrustPolicy::Insecure
            && before.contains_key(filing_key(options)) && before[filing_key(options)].fingerprint
            != identity::fingerprint_with(crypto::sha256_of(hello.server_identity.key@))),
    ensures
        step.1 is Fail,
        after == before,
{
}

/// What an arriving control frame means for the session.
pub enum Inbound {
    /// Hand this event on.
    Event(ClientEvent),
    /// Nothing to say; read the next frame.
    Nothing,
    /// Hand this event on and stop reading.
    Last(ClientEvent),
}

/// The reason shown when the stream ends.
pub open spec fn end_reason(e: CodecError) -> Seq<char> {
    if e is Closed {
        "the server closed the connection"@
    } else {
        e.sentence()
    }
}

/// Decides what an arriving control frame means. The stream's end is the last
/// event of a session.
pub fn receive_control(frame: Result<ServerControl, CodecError>) -> (r: Inbound)
    ensures
        match frame {
            Ok(message) => r == match translated(message) {
                Some(event) => Inbound::Event(event),
                None => Inbound::Nothing,
            },
            Err(e) => r matches Inbound::Last(ClientEvent::Disconnected { reason }) && reason@
                == end_reason(e),
        },
{
    match frame {
        Ok(message) => match translate(message) {
            Some(event) => Inbound::Event(event),
            None => Inbound::Nothing,
        },
        Err(e) => {
            let reason: String = if e.is_clean_close() {
                String::from_str("the server closed the connection")
            } else {
                e.message()
            };
            Inbound::Last(ClientEvent::Disconnected { reason })
        },
    }
}

/// Decides what an arriving datagram means: a malformed one is dropped.
pub fn receive_datagram(datagram: Bytes) -> (r: Option<ClientEvent>)
    ensures
        match crate::proto::voice::datagram_fault(
            octets::contents(datagram),
            crate::proto::voice::TAG_DOWNSTREAM,
            crate::proto::voice::DOWNSTREAM_HEADER_LEN as nat,
        ) {
            Some(_) => r is None,
            None => r matches Some(ClientEvent::Voice(p)) && octets::contents(datagram)
                == crate::proto::voice::downstream_wire(
                p.sender,
                p.seq,
                p.flags,
                octets::contents(p.payload),
            ),
        },
{
    match VoiceDownstream::decode(datagram) {
        Ok(packet) => Some(ClientEvent::Voice(packet)),
        Err(_) => None,
    }
}

/// The largest voice payload that fits in one datagram on a path, or `None` if
/// the peer refuses datagrams.
pub fn max_voice_payload(max_datagram_size: Option<usize>) -> (r: Option<usize>)
    ensures
        match max_datagram_size {
            Some(max) => r == Some(
                if max >= UPSTREAM_HEADER_LEN {
                    (max - UPSTREAM_HEADER_LEN) as usize
                } else {
                    0
                },
            ),
            None => r is None,
        },
{
    match max_datagram_size {
        Some(max) => Some(max.saturating_sub(UPSTREAM_HEADER_LEN)),
        None => None,
    }
}

/// The frame that an event tells of. An event that comes of no control frame
/// has none.
pub open spec fn told_by(event: ClientEvent) -> Option<ServerControl> {
    match event {
        ClientEvent::UserJoined(info) => Some(ServerControl::UserJoined(Box::new(info))),
        ClientEvent::UserLeft { client, reason } => Some(
            ServerControl::UserLeft { client, reason },
        ),
        ClientEvent::UserMoved { client, from, to } => Some(
            ServerControl::UserMoved { client, from, to },
        ),
        ClientEvent::UserUpdated(info) => Some(ServerControl::UserUpdated(Box::new(info))),
        ClientEvent::VoiceActivity { client, speaking } => Some(
            ServerControl::VoiceActivity { client, speaking },
        ),
        ClientEvent::ChannelCreated(channel) => Some(ServerControl::ChannelCreated(channel)),
        ClientEvent::ChannelUpdated(channel) => Some(ServerControl::ChannelUpdated(channel)),
        ClientEvent::ChannelRemoved(id) => Some(ServerControl::ChannelRemoved(id)),
        ClientEvent::MessagePosted { message, nonce } => Some(
            ServerControl::MessagePosted { message: Box::new(message), nonce },
        ),
        ClientEvent::MessageEdited { id, content, edited_at_unix_ms } => Some(
            ServerControl::MessageEdited { id, content, edited_at_unix_ms },
        ),
        ClientEvent::MessageDeleted { id } => Some(ServerControl::MessageDeleted { id }),
        ClientEvent::History { channel, messages, reached_start } => Some(
            ServerControl::History { channel, messages, reached_start },
        ),
        ClientEvent::Typing { client, channel } => Some(ServerControl::Typing { client, channel }),
        ClientEvent::RoleCreated(role) => Some(ServerControl::RoleCreated(role)),
        ClientEvent::RoleUpdated(role) => Some(ServerControl::RoleUpdated(role)),
        ClientEvent::RoleDeleted { id } => Some(ServerControl::RoleDeleted { id }),
        ClientEvent::RolesReordered { positions } => Some(
            ServerControl::RolesReordered { positions },
        ),
        ClientEvent::BanList { bans } => Some(ServerControl::BanList { bans }),
        ClientEvent::Ack { nonce } => Some(ServerControl::Ack { nonce }),
        ClientEvent::CommandFailed { nonce, code, detail } => Some(
            ServerControl::CommandFailed { nonce, code, detail },
        ),
        ClientEvent::Pong { nonce } => Some(ServerControl::Pong { nonce }),
        ClientEvent::ServerError { code, detail } => Some(ServerControl::Error { code, detail }),
        ClientEvent::Voice(_) => None,
        ClientEvent::Disconnected { .. } => None,
    }
}

/// Nothing is lost or mixed up between a frame and its event: the frame can be
/// told from the event, field by field. The frames without an event are those of
/// the handshake, and reactions.
pub proof fn law_an_event_tells_its_frame(message: ServerControl)
    ensures
        translated(message) matches Some(event) ==> told_by(event) == Some(message),
        translated(message) is None <==> message is Hello || message is AuthOk
            || message is AuthFailed || message is ReactionUpdated,
{
}

/// Somebody who moves is shown to leave the channel that they left, and to enter
/// the one that they entered.
pub proof fn law_a_move_keeps_its_direction(message: ServerControl)
    requires
        message is UserMoved,
    ensures
        translated(message) matches Some(ClientEvent::UserMoved { client, from, to }) && client
            == message->UserMoved_client && from == message->UserMoved_from && to
            == message->UserMoved_to,
{
}

/// The reason given for a refusal is the server's own, with what it states.
pub proof fn law_a_refusal_keeps_its_reason(failure: AuthFailure)
    ensures
        match rejection_of(failure) {
            RejectionReason::ProtocolMismatch(version) => failure == (
            AuthFailure::ProtocolMismatch { server_version: version }),
            RejectionReason::SecurityLevelTooLow { required, provided } => failure == (
            AuthFailure::SecurityLevelTooLow { required, provided }),
            RejectionReason::BadSignature => failure is BadSignature,
            RejectionReason::PasswordRequired => failure is PasswordRequired,
            RejectionReason::BadPassword => failure is BadPassword,
            RejectionReason::Banned { reason } => failure matches AuthFailure::Banned {
                reason: stated,
                until_unix_ms: _,
            } && stated == reason,
            RejectionReason::ServerFull => failure is ServerFull,
            RejectionReason::NicknameRejected { reason } => failure == (
            AuthFailure::NicknameRejected { reason }),
        },
{
}

/// A pinned identity is let in and nothing is written; an identity other than
/// the pinned one is refused by every policy but the insecure one, which looks
/// at nothing and writes nothing.
pub proof fn law_a_pin_decides(
    pins: Map<Seq<char>, trust::Pin>,
    policy: TrustPolicy,
    address: Seq<char>,
    legacy_key: Seq<char>,
    seen: Fingerprint,
    server_name: Seq<char>,
    now: u64,
)
    ensures
        ({
            let outcome = policy_outcome(
                pins,
                policy,
                address,
                legacy_key,
                seen,
                server_name,
                now,
            );
            &&& policy == TrustPolicy::Insecure ==> outcome == PolicyOutcome::Accept(pins, false)
            &&& policy != TrustPolicy::Insecure && pins.contains_key(address) ==> if pins[address].fingerprint
                == seen {
                outcome == PolicyOutcome::Accept(pins, false)
            } else {
                outcome == PolicyOutcome::Changed(pins[address].fingerprint)
            }
        }),
{
}

/// Without a pin, an identity that is pinned under the older key moves to the
/// new one; otherwise the strict policy refuses it, and trust on first use pins
/// it. Whatever is written is this identity at this address, first seen now, and
/// no other pin changes.
pub proof fn law_first_contact_is_pinned_or_refused(
    pins: Map<Seq<char>, trust::Pin>,
    policy: TrustPolicy,
    address: Seq<char>,
    legacy_key: Seq<char>,
    seen: Fingerprint,
    server_name: Seq<char>,
    now: u64,
    other: Seq<char>,
)
    requires
        policy != TrustPolicy::Insecure,
        !pins.contains_key(address),
    ensures
        ({
            let outcome = policy_outcome(
                pins,
                policy,
                address,
                legacy_key,
                seen,
                server_name,
                now,
            );
            let moves = pins.contains_key(legacy_key) && pins[legacy_key].fingerprint == seen;
            &&& outcome is Unknown <==> policy == TrustPolicy::Strict && !moves
            &&& outcome is Accept <==> policy == TrustPolicy::OnFirstUse || moves
            &&& outcome matches PolicyOutcome::Accept(after, wrote) ==> {
                &&& wrote
                &&& after.contains_key(address)
                &&& after[address].fingerprint == seen
                &&& after[address].name == server_name
                &&& after[address].first_seen_unix_ms == now
                &&& after[address].last_seen_unix_ms == now
                &&& moves ==> !after.contains_key(legacy_key)
                &&& other != address && !(moves && other == legacy_key) ==> (after.contains_key(
                    other,
                ) <==> pins.contains_key(other)) && (pins.contains_key(other) ==> after[other]
                    == pins[other])
            }
        }),
{
}

/// The result says what the policy made of the identity: success, and whether
/// pins were written; or the refusal, with the address and the identities, and
/// the pins as they were.
pub proof fn law_a_refused_identity_leaves_the_pins(
    outcome: PolicyOutcome,
    pins: Map<Seq<char>, trust::Pin>,
    after: Map<Seq<char>, trust::Pin>,
    address: Seq<char>,
    seen: Fingerprint,
    r: Result<bool, ConnectError>,
)
    requires
        follows_policy(outcome, pins, after, address, seen, r),
    ensures
        r is Ok <==> outcome is Accept,
        outcome matches PolicyOutcome::Accept(wanted, wrote) ==> after == wanted && r->Ok_0
            == wrote,
        r is Err ==> after == pins,
        outcome is Unknown ==> (r matches Err(ConnectError::NotTrusted { address: a, fingerprint })
            && a@ == address && fingerprint == seen),
        outcome matches PolicyOutcome::Changed(was) ==> (r matches Err(
            ConnectError::IdentityChanged { address: a, expected, actual },
        ) && a@ == address && expected == was && actual == seen),
{
}

/// A server is filed under the key that was set for it, and without one under
/// its address; the hash that a login is bound to is that of the first
/// certificate.
pub proof fn law_what_a_login_is_bound_to(options: ConnectOptions, chain: Seq<Seq<u8>>)
    ensures
        options.server_key is None ==> filing_key(options) == options.address@,
        options.server_key matches Some(key) ==> filing_key(options) == key@,
        certificate_hash(None) is None,
        chain.len() == 0 ==> certificate_hash(Some(chain)) is None,
        chain.len() > 0 ==> certificate_hash(Some(chain)) == Some(crypto::sha256_of(chain[0])),
{
}

/// A login is sent only in answer to a greeting of our version that its claimed
/// identity signed for this very connection. It carries our identity and what
/// the options say, and is signed over the greeting's nonce and the
/// connection's certificate; then the verdict of that same server is awaited.
pub proof fn law_a_login_answers_a_genuine_greeting(
    greeting: ServerControl,
    cert_hash: Seq<u8>,
    options: ConnectOptions,
    who: Identity,
    client_version: Seq<char>,
    before: Map<Seq<char>, trust::Pin>,
    after: Map<Seq<char>, trust::Pin>,
    now: u64,
    step: (HandshakeState, HandshakeAction),
)
    requires
        greeted(greeting, cert_hash, options, who, client_version, before, after, now, step),
        step.1 is SendAuth,
    ensures
        ({
            let hello = *greeting->Hello_0;
            let auth = step.1->auth;
            &&& greeting is Hello
            &&& hello.protocol_version == PROTOCOL_VERSION
            &&& crypto::signature_holds(
                hello.server_identity.key@,
                identity::server_hello_message(hello.nonce@, cert_hash, hello.server_name@),
                hello.signature.0@,
            )
            &&& auth.protocol_version == PROTOCOL_VERSION
            &&& auth.identity.key@ == who.public_key()
            &&& auth.identity.counter == who.witness()
            &&& auth.nickname == options.nickname
            &&& auth.password == options.password
            &&& auth.client_version@ == client_version
            &&& auth.signature.0@ == crypto::signature_of(
                who.secret(),
                identity::auth_message(hello.nonce@, cert_hash),
            )
            &&& step.0 matches HandshakeState::AwaitingVerdict { server_name, server_identity }
                && server_name == hello.server_name && server_identity == hello.server_identity
        }),
{
}

/// A greeting that passes every test is answered, with the pins that the policy
/// wants; one that does not ends the login with the reason and leaves the pins.
pub proof fn law_a_greeting_is_answered_or_refused(
    hello: ServerHello,
    cert_hash: Seq<u8>,
    options: ConnectOptions,
    who: Identity,
    client_version: Seq<char>,
    before: Map<Seq<char>, trust::Pin>,
    after: Map<Seq<char>, trust::Pin>,
    now: u64,
    step: (HandshakeState, HandshakeAction),
)
    requires
        greeted(
            ServerControl::Hello(Box::new(hello)),
            cert_hash,
            options,
            who,
            client_version,
            before,
            after,
            now,
            step,
        ),
    ensures
        ({
            let signed = crypto::signature_holds(
                hello.server_identity.key@,
                identity::server_hello_message(hello.nonce@, cert_hash, hello.server_name@),
                hello.signature.0@,
            );
            let seen = identity::fingerprint_with(crypto::sha256_of(hello.server_identity.key@));
            let outcome = policy_outcome(
                before,
                options.trust,
                match options.server_key {
                    Some(key) => key@,
                    None => options.address@,
                },
                options.address@,
                seen,
                hello.server_name@,
                now,
            );
            &&& hello.protocol_version != PROTOCOL_VERSION ==> step.1 == HandshakeAction::Fail(
                ConnectError::ProtocolMismatch {
                    ours: PROTOCOL_VERSION,
                    theirs: hello.protocol_version,
                },
            )
            &&& hello.protocol_version == PROTOCOL_VERSION && !signed ==> step.1
                == HandshakeAction::Fail(ConnectError::ForgedGreeting { fingerprint: seen })
            &&& hello.protocol_version == PROTOCOL_VERSION && signed ==> (step.1 is SendAuth
                <==> outcome is Accept)
            &&& step.1 matches HandshakeAction::SendAuth { pins_changed, .. } ==> outcome
                == PolicyOutcome::Accept(after, pins_changed)
            &&& step.1 !is SendAuth ==> step.1 is Fail && step.0 is Done && after == before
        }),
{
}

/// The verdict ends the login: the session is what the server said, with the
/// name and identity that it greeted with, and a refusal keeps its reason.
pub proof fn law_the_verdict_ends_the_login(
    verdict: ServerControl,
    server_name: String,
    server_identity: PublicIdentity,
    step: (HandshakeState, HandshakeAction),
)
    requires
        judged(verdict, server_name, server_identity, step),
    ensures
        step.0 is Done,
        step.1 is Finish <==> verdict is AuthOk,
        step.1 !is Finish ==> step.1 is Fail,
        step.1 matches HandshakeAction::Finish(session) ==> {
            let ok = *verdict->AuthOk_0;
            &&& session.client_id == ok.client_id
            &&& session.server_name == server_name
            &&& session.server_identity == server_identity
            &&& session.channels == ok.channels
            &&& session.users == ok.users
            &&& session.roles == ok.roles
            &&& session.default_channel == ok.default_channel
            &&& session.limits == ok.limits
        },
        verdict matches ServerControl::AuthFailed(failure) ==> step.1 == HandshakeAction::Fail(
            ConnectError::Rejected(rejection_of(failure)),
        ),
        step.1 matches HandshakeAction::Fail(ConnectError::Rejected(_)) ==> verdict is AuthFailed,
{
}

/// What can come of a wait is what was waited for, in time or not.
pub proof fn law_every_wait_has_its_outcomes(state: HandshakeState, event: HandshakeEvent)
    ensures
        fits(state, event) <==> match event {
            HandshakeEvent::Connected { .. } => state is Dialing,
            HandshakeEvent::DialTimedOut => state is Dialing,
            HandshakeEvent::DialFailed(_) => state is Dialing,
            HandshakeEvent::StreamOpened => state is AwaitingStream,
            HandshakeEvent::StreamTimedOut => state is AwaitingStream,
            HandshakeEvent::StreamFailed => state is AwaitingStream,
            HandshakeEvent::Frame(_) => state is AwaitingGreeting || state is AwaitingVerdict,
            HandshakeEvent::FrameTimedOut => state is AwaitingGreeting || state is AwaitingVerdict,
            HandshakeEvent::SendFailed(_) => state is AwaitingVerdict,
        },
{
}

/// A server key is the trimmed text with its ASCII capitals made small, one for
/// one, and nothing else changed.
pub proof fn law_a_server_key_is_trimmed_and_small(key: Seq<char>, i: int)
    requires
        0 <= i < text::trimmed(key).len(),
    ensures
        normalised_key(key).len() == text::trimmed(key).len(),
        ({
            let (was, is) = (text::trimmed(key)[i], normalised_key(key)[i]);
            if 'A' <= was <= 'Z' {
                is as u32 == was as u32 + 32
            } else {
                is == was
            }
        }),
{
}


/// A refusal of a login is put in words that carry what the server said: its
/// version, the level held before the level asked for, or its reason.
pub proof fn law_a_rejection_is_put_in_words(r: RejectionReason)
    ensures
        ({
            let s = r.sentence();
            match r {
                RejectionReason::ProtocolMismatch(version) => text::holds(
                    s,
                    text::digits(version as nat),
                ),
                RejectionReason::SecurityLevelTooLow { required, provided } => {
                    &&& text::holds(
                        s,
                        "your identity is at security level "@ + text::digits(provided as nat),
                    )
                    &&& text::holds(
                        s,
                        ", but this server requires "@ + text::digits(required as nat),
                    )
                },
                RejectionReason::Banned { reason } => s == "you are banned from this server: "@
                    + reason@,
                RejectionReason::NicknameRejected { reason } => s
                    == "the server rejected your nickname: "@ + reason@,
                RejectionReason::BadSignature => s == "the server rejected the identity signature"@,
                RejectionReason::PasswordRequired => s == "this server requires a password"@,
                RejectionReason::BadPassword => s == "incorrect server password"@,
                RejectionReason::ServerFull => s == "the server is full"@,
            }
        }),
{
    let s = r.sentence();
    let none = Seq::<char>::empty();
    match r {
        RejectionReason::ProtocolMismatch(version) => {
            text::lemma_holds(
                s,
                "this client is too old or too new for the server (server speaks version "@,
                text::digits(version as nat),
                ")"@,
            );
        },
        RejectionReason::SecurityLevelTooLow { required, provided } => {
            let (held, asked) = (text::digits(provided as nat), text::digits(required as nat));
            let (one, two) = (
                "your identity is at security level "@,
                ", but this server requires "@,
            );
            let end = ". Mine your identity to a higher level and try again."@;
            text::lemma_holds(s, none, one + held, two + asked + end);
            text::lemma_holds(s, one + held, two + asked, end);
        },
        _ => {},
    }
}

/// A failure to connect is put in words that say where, and of two fingerprints
/// which is new and which was pinned, and of two versions whose is whose.
pub proof fn law_a_failure_is_put_in_words(e: ConnectError)
    ensures
        ({
            let s = e.sentence();
            match e {
                ConnectError::Tls(why) => s == "could not set up TLS: "@ + why@,
                ConnectError::Transport { address, source } => {
                    &&& text::holds(s, "could not reach "@ + address@)
                    &&& text::holds(s, ": "@ + source@)
                },
                ConnectError::Codec(inner) => text::holds(s, inner.sentence()),
                ConnectError::Unreachable { address } => {
                    &&& text::holds(s, "no server answered at "@ + address@)
                    &&& text::holds(s, " within "@ + text::digits(10))
                },
                ConnectError::TimedOut => text::holds(s, text::digits(10)),
                ConnectError::UnexpectedGreeting(what) => text::holds(s, what@),
                ConnectError::ProtocolMismatch { ours, theirs } => {
                    &&& text::holds(
                        s,
                        "the server speaks protocol version "@ + text::digits(theirs as nat),
                    )
                    &&& text::holds(s, ", this client speaks "@ + text::digits(ours as nat))
                },
                ConnectError::ForgedGreeting { fingerprint } => text::holds(
                    s,
                    identity::fingerprint_text(fingerprint.0@),
                ),
                ConnectError::IdentityChanged { address, expected, actual } => {
                    &&& text::holds(s, "the server at "@ + address@)
                    &&& text::holds(
                        s,
                        " now identifies as "@ + identity::fingerprint_text(actual.0@),
                    )
                    &&& text::holds(
                        s,
                        ", but was previously "@ + identity::fingerprint_text(expected.0@),
                    )
                },
                ConnectError::NotTrusted { address, fingerprint } => {
                    &&& text::holds(s, "the server at "@ + address@)
                    &&& text::holds(
                        s,
                        " is not yet trusted (identity "@ + identity::fingerprint_text(
                            fingerprint.0@,
                        ),
                    )
                },
                ConnectError::Rejected(reason) => text::holds(s, reason.sentence()),
                ConnectError::ClosedDuringHandshake => s
                    == "the server closed the connection during the handshake"@,
                ConnectError::NoPeerCertificate => s == "the server presented no certificate"@,
            }
        }),
{
    let s = e.sentence();
    let none = Seq::<char>::empty();
    match e {
        ConnectError::Transport { address, source } => {
            let one = "could not reach "@ + address@;
            text::lemma_holds(s, none, one, ": "@ + source@);
            text::lemma_holds(s, one, ": "@ + source@, none);
        },
        ConnectError::Codec(inner) => {
            text::lemma_holds(s, "control stream: "@, inner.sentence(), none);
        },
        ConnectError::Unreachable { address } => {
            let one = "no server answered at "@ + address@;
            let two = " within "@ + text::digits(10);
            let end =
                "s \u{2014} check the address, the port, and that the host's firewall allows UDP"@;
            text::lemma_holds(s, none, one, two + end);
            text::lemma_holds(s, one, two, end);
        },
        ConnectError::TimedOut => {
            text::lemma_holds(
                s,
                "the server did not respond within "@,
                text::digits(10),
                "s"@,
            );
        },
        ConnectError::UnexpectedGreeting(what) => {
            text::lemma_holds(s, "the server sent "@, what@, " instead of a greeting"@);
        },
        ConnectError::ProtocolMismatch { ours, theirs } => {
            let one = "the server speaks protocol version "@ + text::digits(theirs as nat);
            let two = ", this client speaks "@ + text::digits(ours as nat);
            text::lemma_holds(s, none, one, two);
            text::lemma_holds(s, one, two, none);
        },
        ConnectError::ForgedGreeting { fingerprint } => {
            text::lemma_holds(
                s,
                "the server's greeting was not signed by the identity it claims ("@,
                identity::fingerprint_text(fingerprint.0@),
                ") \u{2014} something is intercepting this connection"@,
            );
        },
        ConnectError::IdentityChanged { address, expected, actual } => {
            let one = "the server at "@ + address@;
            let two = " now identifies as "@ + identity::fingerprint_text(actual.0@);
            let three = ", but was previously "@ + identity::fingerprint_text(expected.0@);
            let end = ". Verify the new fingerprint with the operator before trusting it."@;
            text::lemma_holds(s, none, one, two + three + end);
            text::lemma_holds(s, one, two, three + end);
            text::lemma_holds(s, one + two, three, end);
        },
        ConnectError::NotTrusted { address, fingerprint } => {
            let one = "the server at "@ + address@;
            let two = " is not yet trusted (identity "@ + identity::fingerprint_text(
                fingerprint.0@,
            );
            text::lemma_holds(s, none, one, two + ")"@);
            text::lemma_holds(s, one, two, ")"@);
        },
        ConnectError::Rejected(reason) => {
            text::lemma_holds(
                s,
                "the server refused the connection: "@,
                reason.sentence(),
                none,
            );
        },
        _ => {},
    }
}

/// A frame that should not have come is called by its name where it has one here.
pub proof fn law_an_unexpected_frame_is_called_by_its_name(message: ServerControl)
    ensures
        frame_name(message) == "Hello"@ <==> message is Hello,
        frame_name(message) == "AuthOk"@ <==> message is AuthOk,
        frame_name(message) == "AuthFailed"@ <==> message is AuthFailed,
        frame_name(message) == "Error"@ <==> message is Error,
{
    reveal_strlit("Hello");
    reveal_strlit("AuthOk");
    reveal_strlit("AuthFailed");
    reveal_strlit("Error");
    reveal_strlit("an unexpected message");
    assert("Hello"@.len() == 5 && "AuthOk"@.len() == 6 && "AuthFailed"@.len() == 10
        && "Error"@.len() == 5 && "an unexpected message"@.len() == 21);
    assert("Hello"@[0] == 'H' && "Error"@[0] == 'E');
}

/// A stream that ends cleanly was closed by the server; any other end is told in
/// the words of what went wrong.
pub proof fn law_how_the_end_is_told(e: CodecError)
    ensures
        e is Closed ==> end_reason(e) == "the server closed the connection"@,
        !(e is Closed) ==> end_reason(e) == e.sentence(),
{
}

/// A step that gives up ends the login, and says with which error.
pub proof fn law_giving_up_ends_the_login(
    step: (HandshakeState, HandshakeAction),
    error: ConnectError,
)
    requires
        gave_up(step, error),
    ensures
        step.0 is Done,
        step.1 matches HandshakeAction::Fail(why) && why == error,
{
}

/// A chain is looked at as it was presented, certificate by certificate.
pub proof fn law_a_chain_is_seen_as_presented(chain: Vec<Vec<u8>>, i: int)
    requires
        0 <= i < chain@.len(),
    ensures
        chain_view(None) is None,
        chain_view(Some(chain)) matches Some(seen) && seen.len() == chain@.len() && seen[i]
            == chain@[i]@,
{
}

/// A payload of the largest size fills a datagram with its header, unless not
/// even the header fits.
pub proof fn law_the_largest_payload_fills_a_datagram(max: usize, r: Option<usize>, refused: Option<usize>)
    requires
        call_ensures(max_voice_payload, (Some(max),), r),
        call_ensures(max_voice_payload, (None,), refused),
    ensures
        refused is None,
        r matches Some(n) && (max >= UPSTREAM_HEADER_LEN ==> n + UPSTREAM_HEADER_LEN == max) && (max
            < UPSTREAM_HEADER_LEN ==> n == 0),
{
}

/// A frame that arrives becomes the event that tells of it, and is never the
/// last; a stream that ends is the last.
pub proof fn law_a_frame_becomes_its_event(
    message: ServerControl,
    e: CodecError,
    one: Inbound,
    end: Inbound,
)
    requires
        call_ensures(receive_control, (Ok::<ServerControl, CodecError>(message),), one),
        call_ensures(receive_control, (Err::<ServerControl, CodecError>(e),), end),
    ensures
        one matches Inbound::Event(event) ==> told_by(event) == Some(message),
        !(one is Last),
        end matches Inbound::Last(event) && event is Disconnected,
{
    law_an_event_tells_its_frame(message);
}

/// The event that a frame is turned into tells of that frame, field by field.
pub proof fn law_turning_a_frame_into_an_event_loses_nothing(
    message: ServerControl,
    r: Option<ClientEvent>,
)
    requires
        call_ensures(translate, (message,), r),
    ensures
        r matches Some(event) ==> told_by(event) == Some(message),
        r is None <==> message is Hello || message is AuthOk || message is AuthFailed
            || message is ReactionUpdated,
{
    law_an_event_tells_its_frame(message);
}
} // verus!
