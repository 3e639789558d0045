//! What the window's commands decide, before and after they touch the outside.
//!
//! Refusals are sentences: they are written to be shown to a person.

use crate::audio::vad::GateMode;
use crate::client::trust;
use crate::client::trust::TrustStore;
use crate::desktop::dto::SpeakingDto;
use crate::desktop::settings;
use crate::desktop::settings::AudioSettings;
use crate::desktop::state::{AppState, SessionId};
use crate::identity;
use crate::identity::vault;
use crate::identity::vault::Vault;
use crate::identity::{Fingerprint, Identity};
use crate::proto::perms::{OverwriteTarget, Permissions, RoleId};
use crate::proto::{ChannelId, ChannelKind, ClientControl, ClientId};
use crate::text;
use vstd::prelude::*;

verus! {

/// Port assumed when the user types a bare address.
pub const DEFAULT_PORT: u16 = 42071;

/// The highest level that mining is started for.
pub const MAX_TARGET_LEVEL: u32 = 40;

/// How many messages of a channel's past are asked for.
pub const HISTORY_LIMIT: u16 = 100;

/// How often a character occurs in a text.
pub open spec fn count_of(s: Seq<char>, c: char) -> nat
    decreases s.len(),
{
    if s.len() == 0 {
        0
    } else {
        count_of(s.drop_last(), c) + if s.last() == c {
            1nat
        } else {
            0nat
        }
    }
}

/// Whether an address carries a port. A bare IPv6 address is full of colons, so
/// behind a closing bracket any colon counts, and otherwise exactly one does.
pub open spec fn carries_port(address: Seq<char>) -> bool {
    if address.contains(']') {
        text::after_last(address, ']').contains(':')
    } else {
        count_of(address, ':') == 1
    }
}

fn count(s: &str, c: char) -> (n: usize)
    ensures
        n == count_of(s@, c),
{
    let v: Vec<char> = text::chars_of(s);
    let mut n: usize = 0;
    let mut i: usize = 0;
    while i < v.len()
        invariant
            i <= v@.len(),
            v@ == s@,
            n <= i,
            n == count_of(v@.take(i as int), c),
        decreases v.len() - i,
    {
        assert(v@.take(i + 1).drop_last() =~= v@.take(i as int));
        if v[i] == c {
            n = n + 1;
        }
        i = i + 1;
    }
    assert(v@.take(i as int) =~= s@);
    n
}

pub fn has_port(address: &str) -> (r: bool)
    ensures
        r == carries_port(address@),
{
    if text::contains_char(address, ']') {
        let rest = text::tail_after(address, ']');
        text::contains_char(rest.as_str(), ':')
    } else {
        count(address, ':') == 1
    }
}

/// The address as typed, with the port made explicit.
pub open spec fn with_port(address: Seq<char>) -> Seq<char> {
    let trimmed = text::trimmed(address);
    if carries_port(trimmed) {
        trimmed
    } else {
        trimmed + ":42071"@
    }
}

/// The key under which a server's pin is filed: with the port made explicit,
/// so that adding it later does not make the server look unknown.
pub fn canonical_address(input: &str) -> (s: String)
    ensures
        s@ == with_port(input@),
{
    let trimmed = text::trim(input);
    if has_port(trimmed.as_str()) {
        trimmed
    } else {
        text::join(trimmed.as_str(), ":42071")
    }
}

/// What to look up for what the user typed.
pub fn resolve(input: &str) -> (r: Result<String, String>)
    ensures
        text::trimmed(input@).len() == 0 ==> (r matches Err(e) && e@ == "Enter a server address."@),
        text::trimmed(input@).len() > 0 ==> (r matches Ok(s) && s@ == with_port(input@)),
{
    let trimmed = text::trim(input);
    if text::chars_of(trimmed.as_str()).len() == 0 {
        return Err(String::from_str("Enter a server address."));
    }
    Ok(canonical_address(input))
}

/// What looking an address up came to: the first result, or a sentence.
pub fn looked_up(input: &str, found: Result<Option<String>, String>) -> (r: Result<String, String>)
    ensures
        match found {
            Err(why) => r matches Err(e) && e@ == "Could not look up "@ + text::trimmed(input@)
                + ": "@ + why@,
            Ok(None) => r matches Err(e) && e@ == text::trimmed(input@)
                + " did not resolve to any address."@,
            Ok(Some(address)) => r == Ok::<String, String>(address),
        },
{
    let trimmed = text::trim(input);
    match found {
        Err(why) => {
            let mut s: String = text::join("Could not look up ", trimmed.as_str());
            s.append(": ");
            s.append(why.as_str());
            Err(s)
        },
        Ok(None) => Err(text::join(trimmed.as_str(), " did not resolve to any address.")),
        Ok(Some(address)) => Ok(address),
    }
}

/// A server typed with the default port and without it has one pin: the
/// canonical form is its own canonical form. Left out is a bare IPv6 address,
/// which carries no port in either form and must be typed with brackets.
pub proof fn law_one_pin_with_and_without_the_port(address: Seq<char>)
    requires
        text::trimmed(address).contains(']') || count_of(text::trimmed(address), ':') <= 1,
    ensures
        with_port(with_port(address)) == with_port(address),
{
    reveal_strlit(":42071");
    let t = text::trimmed(address);
    let port = ":42071"@;
    let w = with_port(address);
    text::lemma_trimmed_ends(address);
    if carries_port(t) {
        if t.len() == 0 {
            assert(!t.contains(']'));
        }
    } else {
        assert(w == t + port);
        assert(w.last() == '1');
        assert(w[0] == if t.len() > 0 { t[0] } else { ':' });
        if t.contains(']') {
            let i = choose|i: int| 0 <= i < t.len() && t[i] == ']';
            assert(w[i] == ']');
            lemma_after_last_joined(t, port, ']');
            let rest = text::after_last(t, ']');
            assert((rest + port)[rest.len() as int] == ':');
        } else {
            lemma_count_joined(t, port, ':');
            lemma_count_port();
            assert(!w.contains(']')) by {
                if w.contains(']') {
                    let i = choose|i: int| 0 <= i < w.len() && w[i] == ']';
                    if i < t.len() {
                        assert(t[i] == ']');
                    } else {
                        assert(port[i - t.len()] == ']');
                    }
                }
            }
        }
    }
    text::lemma_trimmed_is_trim(w);
}

proof fn lemma_after_last_joined(a: Seq<char>, b: Seq<char>, c: char)
    requires
        !b.contains(c),
    ensures
        text::after_last(a + b, c) == text::after_last(a, c) + b,
    decreases b.len(),
{
    if b.len() == 0 {
        assert(a + b =~= a);
        assert(text::after_last(a, c) + b =~= text::after_last(a, c));
    } else {
        let short = b.drop_last();
        assert(b[b.len() - 1] == b.last());
        assert(!short.contains(c)) by {
            if short.contains(c) {
                let i = choose|i: int| 0 <= i < short.len() && short[i] == c;
                assert(b[i] == c);
            }
        }
        lemma_after_last_joined(a, short, c);
        assert((a + b).drop_last() =~= a + short);
        assert((text::after_last(a, c) + short).push(b.last()) =~= text::after_last(a, c) + b);
    }
}

proof fn lemma_count_joined(a: Seq<char>, b: Seq<char>, c: char)
    ensures
        count_of(a + b, c) == count_of(a, c) + count_of(b, c),
    decreases b.len(),
{
    if b.len() == 0 {
        assert(a + b =~= a);
    } else {
        lemma_count_joined(a, b.drop_last(), c);
        assert((a + b).drop_last() =~= a + b.drop_last());
    }
}

proof fn lemma_count_port()
    ensures
        count_of(":42071"@, ':') == 1,
{
    reveal_strlit(":42071");
    reveal_with_fuel(count_of, 7);
    let s = ":42071"@;
    assert(s.drop_last().drop_last().drop_last().drop_last().drop_last() =~= seq![':']);
}

/// The refusal of a nickname that nobody could see.
pub open spec fn no_nickname() -> Seq<char> {
    "A nickname needs at least one visible character."@
}

/// A nickname as it is used: trimmed, and not empty.
pub fn visible_nickname(nickname: &str) -> (r: Result<String, String>)
    ensures
        text::trimmed(nickname@).len() == 0 ==> (r matches Err(e) && e@ == no_nickname()),
        text::trimmed(nickname@).len() > 0 ==> (r matches Ok(n) && n@ == text::trimmed(nickname@)),
{
    let trimmed = text::trim(nickname);
    if text::chars_of(trimmed.as_str()).len() == 0 {
        return Err(String::from_str("A nickname needs at least one visible character."));
    }
    Ok(trimmed)
}

/// Change the nickname of the active identity. Carries which identity that was:
/// connections that signed in with it are to be told.
pub fn set_nickname(vault: &mut Vault, nickname: &str) -> (r: Result<(String, String), String>)
    requires
        old(vault).wf(),
    ensures
        final(vault).wf(),
        final(vault).same_file(old(vault)),
        final(vault).active_name() == old(vault).active_name(),
        text::trimmed(nickname@).len() == 0 ==> final(vault).entries() == old(vault).entries() && (
        r matches Err(e) && e@ == no_nickname()),
        text::trimmed(nickname@).len() > 0 ==> ({
            let i = vault::index_of(old(vault).entries(), old(vault).active_name());
            &&& final(vault).entries() == old(vault).entries().update(
                i,
                vault::EntryView {
                    nickname: text::trimmed(nickname@),
                    ..old(vault).entries()[i]
                },
            )
            &&& r matches Ok(t) && t.0@ == old(vault).active_name() && t.1@ == text::trimmed(
                nickname@,
            )
        }),
{
    let trimmed = match visible_nickname(nickname) {
        Ok(trimmed) => trimmed,
        Err(e) => {
            return Err(e);
        },
    };
    let active = String::from_str(vault.active_fingerprint());
    match vault.set_nickname(active.as_str(), trimmed.as_str()) {
        Ok(()) => Ok((active, trimmed)),
        Err(e) => Err(e.message()),
    }
}

/// Take in a fresh identity and switch to it: one left unselected would look
/// like nothing happened.
pub fn add_identity(vault: &mut Vault, identity: Identity, nickname: &str, label: &str) -> (r:
    Result<String, String>)
    requires
        old(vault).wf(),
    ensures
        final(vault).wf(),
        final(vault).same_file(old(vault)),
        text::trimmed(nickname@).len() == 0 ==> final(vault).entries() == old(vault).entries()
            && final(vault).active_name() == old(vault).active_name() && (r matches Err(e) && e@
            == no_nickname()),
        text::trimmed(nickname@).len() > 0 ==> ({
            let name = vault::name_of(
                vault::EntryView {
                    secret: identity.secret(),
                    counter: identity.witness(),
                    nickname: text::trimmed(nickname@),
                    label: text::trimmed(label@),
                },
            );
            &&& r matches Ok(n) && n@ == name
            &&& final(vault).active_name() == name
            &&& final(vault).entries() == if vault::has_name(old(vault).entries(), name) {
                old(vault).entries()
            } else {
                old(vault).entries().push(
                    vault::EntryView {
                        secret: identity.secret(),
                        counter: identity.witness(),
                        nickname: text::trimmed(nickname@),
                        label: text::trimmed(label@),
                    },
                )
            }
        }),
{
    let trimmed = match visible_nickname(nickname) {
        Ok(trimmed) => trimmed,
        Err(e) => {
            return Err(e);
        },
    };
    let label = text::trim(label);
    let name = vault.add(identity, trimmed.as_str(), label.as_str());
    match vault.set_active(name.as_str()) {
        Ok(()) => Ok(name),
        Err(e) => Err(e.message()),
    }
}

/// Whether an identity may be deleted: not while a connection is signed in with
/// it, which would be left with no key to come back with.
pub fn may_remove_identity(state: &AppState, fingerprint: &str) -> (r: Result<(), String>)
    ensures
        ({
            let used = exists|i: int|
                0 <= i < state@.sessions.len() && (#[trigger] state@.sessions[i]).2 == fingerprint@;
            if used {
                r matches Err(e) && e@
                    == "That identity is signed in to a server. Disconnect it before deleting the key."@
            } else {
                r == Ok::<(), String>(())
            }
        }),
{
    if state.identity_in_use(fingerprint) {
        return Err(
            String::from_str(
                "That identity is signed in to a server. Disconnect it before deleting the key.",
            ),
        );
    }
    Ok(())
}

/// Delete an identity and its key, unless a connection is signed in with it or
/// it is the only one.
pub fn remove_identity(state: &AppState, vault: &mut Vault, fingerprint: &str) -> (r: Result<
    (),
    String,
>)
    requires
        old(vault).wf(),
    ensures
        final(vault).wf(),
        final(vault).same_file(old(vault)),
        r is Err ==> final(vault).entries() == old(vault).entries() && final(vault).active_name()
            == old(vault).active_name(),
        r is Ok <==> vault::has_name(old(vault).entries(), fingerprint@) && vault::without(
            old(vault).entries(),
            fingerprint@,
        ).len() > 0 && forall|i: int|
            0 <= i < state@.sessions.len() ==> (#[trigger] state@.sessions[i]).2 != fingerprint@,
        r is Ok ==> final(vault).entries() == vault::without(old(vault).entries(), fingerprint@)
            && final(vault).active_name() == if old(vault).active_name() == fingerprint@ {
            vault::name_of(final(vault).entries()[0])
        } else {
            old(vault).active_name()
        },
        r matches Err(e) ==> e@ == if exists|i: int|
            0 <= i < state@.sessions.len() && (#[trigger] state@.sessions[i]).2 == fingerprint@ {
            "That identity is signed in to a server. Disconnect it before deleting the key."@
        } else if !vault::has_name(old(vault).entries(), fingerprint@) {
            "no identity with fingerprint "@ + fingerprint@
        } else {
            "this is the only identity you have; add another before removing it"@
        },
{
    match may_remove_identity(state, fingerprint) {
        Ok(()) => {},
        Err(e) => {
            return Err(e);
        },
    }
    match vault.remove(fingerprint) {
        Ok(()) => Ok(()),
        Err(e) => Err(e.message()),
    }
}

/// Whether mining for a level may start.
pub fn may_mine(target_level: u32) -> (r: Result<(), String>)
    ensures
        r is Ok <==> target_level <= MAX_TARGET_LEVEL,
        r matches Err(e) ==> e@
            == "Levels above 40 take longer than any reasonable session. Try 24 to 32."@,
{
    if target_level > MAX_TARGET_LEVEL {
        return Err(
            String::from_str(
                "Levels above 40 take longer than any reasonable session. Try 24 to 32.",
            ),
        );
    }
    Ok(())
}

/// Write back what mining found. The identity may have been removed meanwhile,
/// which is an ordinary outcome; says whether there is something to save.
pub fn keep_mined(vault: &mut Vault, fingerprint: &str, counter: u64) -> (saved: bool)
    requires
        old(vault).wf(),
    ensures
        final(vault).wf(),
        final(vault).same_file(old(vault)),
        saved == vault::has_name(old(vault).entries(), fingerprint@),
        final(vault).active_name() == old(vault).active_name(),
        final(vault).entries() == if saved {
            let i = vault::index_of(old(vault).entries(), fingerprint@);
            old(vault).entries().update(
                i,
                vault::EntryView { counter, ..old(vault).entries()[i] },
            )
        } else {
            old(vault).entries()
        },
{
    vault.set_counter(fingerprint, counter).is_ok()
}

/// A password as it is sent: an empty one is none.
pub fn given_password(password: Option<String>) -> (r: Option<String>)
    ensures
        r == if password is Some && (password->0)@.len() > 0 {
            password
        } else {
            None
        },
{
    match password {
        Some(p) => if text::chars_of(p.as_str()).len() > 0 {
            Some(p)
        } else {
            None
        },
        None => None,
    }
}

/// A text without any number of leading occurrences of another.
pub open spec fn stripped(s: Seq<char>, prefix: Seq<char>) -> Seq<char>
    decreases s.len(),
{
    if prefix.len() > 0 && text::begins_with(s, prefix) {
        stripped(s.skip(prefix.len() as int), prefix)
    } else {
        s
    }
}

/// The sentence for a connection that was made while audio failed.
pub fn connected_but(problem: &str) -> (s: String)
    ensures
        s@ == "Connected, but "@ + stripped(problem@, "The "@),
{
    proof {
        reveal_strlit("The ");
    }
    let mut rest: String = String::from_str(problem);
    while text::starts_with(rest.as_str(), "The ")
        invariant
            "The "@.len() == 4,
            stripped(rest@, "The "@) == stripped(problem@, "The "@),
        decreases rest@.len(),
    {
        let v: Vec<char> = text::chars_of(rest.as_str());
        assert(v@.subrange(4, v@.len() as int) =~= rest@.skip(4));
        rest = text::string_of(vstd::slice::slice_subrange(v.as_slice(), 4, v.len()));
    }
    text::join("Connected, but ", rest.as_str())
}

/// Read a fingerprint that the window sent.
pub fn readable_fingerprint(text: &str) -> (r: Result<Fingerprint, String>)
    ensures
        match identity::parsed_fingerprint(text@) {
            Some(digest) => r matches Ok(f) && f.0@ == digest,
            None => r matches Err(e) && e@
                == "that fingerprint is not readable: fingerprint is not valid base32"@,
        },
{
    match Fingerprint::parse(text) {
        Ok(f) => Ok(f),
        Err(_) => Err(
            String::from_str(
                "that fingerprint is not readable: fingerprint is not valid base32",
            ),
        ),
    }
}

/// A kind of channel by its word.
pub open spec fn kind_named(kind: Seq<char>) -> Option<ChannelKind> {
    if kind == "voice"@ {
        Some(ChannelKind::Voice)
    } else if kind == "text"@ {
        Some(ChannelKind::Text)
    } else if kind == "voice_and_text"@ {
        Some(ChannelKind::VoiceAndText)
    } else {
        None
    }
}

pub fn parse_kind(kind: &str) -> (r: Result<ChannelKind, String>)
    ensures
        match kind_named(kind@) {
            Some(k) => r == Ok::<ChannelKind, String>(k),
            None => r matches Err(e) && e@ == "unknown channel kind "@ + text::quoted_text(kind@),
        },
{
    if text::same(kind, "voice") {
        Ok(ChannelKind::Voice)
    } else if text::same(kind, "text") {
        Ok(ChannelKind::Text)
    } else if text::same(kind, "voice_and_text") {
        Ok(ChannelKind::VoiceAndText)
    } else {
        let shown = text::quoted(kind);
        Err(text::join("unknown channel kind ", shown.as_str()))
    }
}

/// Whom an overwrite is for, as the window names them.
#[derive(Debug)]
pub enum OverwriteTargetDto {
    Role { id: RoleId },
    Member { fingerprint: String },
}

/// Whom a target names, if its fingerprint can be read.
pub open spec fn target_named(target: OverwriteTargetDto) -> Option<OverwriteTarget> {
    match target {
        OverwriteTargetDto::Role { id } => Some(OverwriteTarget::Role(id)),
        OverwriteTargetDto::Member { fingerprint } => match identity::parsed_fingerprint(
            fingerprint@,
        ) {
            Some(digest) => Some(OverwriteTarget::Member(identity::fingerprint_with(digest))),
            None => None,
        },
    }
}

/// The target of an overwrite.
pub fn overwrite_target(target: &OverwriteTargetDto) -> (r: Result<OverwriteTarget, String>)
    ensures
        match target_named(*target) {
            Some(whom) => r == Ok::<OverwriteTarget, String>(whom),
            None => r matches Err(e) && e@
                == "that fingerprint is not readable: fingerprint is not valid base32"@,
        },
{
    match target {
        OverwriteTargetDto::Role { id } => Ok(OverwriteTarget::Role(*id)),
        OverwriteTargetDto::Member { fingerprint } => match readable_fingerprint(
            fingerprint.as_str(),
        ) {
            Ok(f) => {
                proof {
                    identity::lemma_fingerprint_with(f);
                }
                Ok(OverwriteTarget::Member(f))
            },
            Err(e) => Err(e),
        },
    }
}

/// A role's colour as it is sent: left alone, set, or cleared. A flag of its own
/// clears it, since absent and null look the same where the window speaks.
pub fn role_color(color: Option<u32>, clear: Option<bool>) -> (r: Option<Option<u32>>)
    ensures
        r == if clear == Some(true) {
            Some(None::<u32>)
        } else {
            match color {
                Some(c) => Some(Some(c)),
                None => None,
            }
        },
{
    let cleared = match clear {
        Some(c) => c,
        None => false,
    };
    if cleared {
        Some(None)
    } else {
        match color {
            Some(c) => Some(Some(c)),
            None => None,
        }
    }
}

/// Numbers for admin commands: a refusal comes back with the number of what it
/// refuses.
#[derive(Debug)]
pub struct Nonces {
    pub next: u64,
}

impl Nonces {
    pub fn new() -> (n: Self)
        ensures
            n.next == 1,
    {
        Nonces { next: 1 }
    }

    pub fn admin_nonce(&mut self) -> (n: u64)
        ensures
            n == old(self).next,
            final(self).next == (old(self).next + 1) % 0x1_0000_0000_0000_0000,
    {
        let n: u64 = self.next;
        self.next = n.wrapping_add(1);
        n
    }
}

/// The command that bans a fingerprint.
pub fn ban(nonce: u64, fingerprint: &str, reason: String, until_unix_ms: Option<u64>) -> (r: Result<
    ClientControl,
    String,
>)
    ensures
        match identity::parsed_fingerprint(fingerprint@) {
            Some(digest) => r matches Ok(
                ClientControl::Ban { nonce: n, fingerprint: f, reason: w, until_unix_ms: u },
            ) && n == nonce && f.0@ == digest && w == reason && u == until_unix_ms,
            None => r matches Err(e) && e@
                == "that fingerprint is not readable: fingerprint is not valid base32"@,
        },
{
    match readable_fingerprint(fingerprint) {
        Ok(f) => Ok(ClientControl::Ban { nonce, fingerprint: f, reason, until_unix_ms }),
        Err(e) => Err(e),
    }
}

/// The command that kicks someone; a reason left out is empty.
pub fn kick(nonce: u64, client: ClientId, reason: Option<String>) -> (c: ClientControl)
    ensures
        c matches ClientControl::Kick { nonce: n, client: k, reason: r } && n == nonce && k == client
            && r@ == match reason {
            Some(w) => w@,
            None => Seq::empty(),
        },
{
    let reason = match reason {
        Some(w) => w,
        None => String::new(),
    };
    ClientControl::Kick { nonce, client, reason }
}

/// The command that lifts a ban.
pub fn unban(nonce: u64, fingerprint: &str) -> (r: Result<ClientControl, String>)
    ensures
        match identity::parsed_fingerprint(fingerprint@) {
            Some(digest) => r matches Ok(ClientControl::Unban { nonce: n, fingerprint: f }) && n
                == nonce && f.0@ == digest,
            None => r matches Err(e) && e@
                == "that fingerprint is not readable: fingerprint is not valid base32"@,
        },
{
    match readable_fingerprint(fingerprint) {
        Ok(f) => Ok(ClientControl::Unban { nonce, fingerprint: f }),
        Err(e) => Err(e),
    }
}

/// The command that gives a member exactly these roles.
pub fn set_member_roles(nonce: u64, fingerprint: &str, roles: Vec<RoleId>) -> (r: Result<
    ClientControl,
    String,
>)
    ensures
        match identity::parsed_fingerprint(fingerprint@) {
            Some(digest) => r matches Ok(
                ClientControl::SetMemberRoles { nonce: n, fingerprint: f, roles: g },
            ) && n == nonce && f.0@ == digest && g == roles,
            None => r matches Err(e) && e@
                == "that fingerprint is not readable: fingerprint is not valid base32"@,
        },
{
    match readable_fingerprint(fingerprint) {
        Ok(f) => Ok(ClientControl::SetMemberRoles { nonce, fingerprint: f, roles }),
        Err(e) => Err(e),
    }
}

/// The command that changes a role; what is left out stays as it is.
pub fn update_role(
    nonce: u64,
    id: RoleId,
    name: Option<String>,
    color: Option<u32>,
    clear_color: Option<bool>,
    permissions: Option<Permissions>,
) -> (c: ClientControl)
    ensures
        c == (ClientControl::UpdateRole {
            nonce,
            id,
            name,
            color: if clear_color == Some(true) {
                Some(None::<u32>)
            } else {
                match color {
                    Some(shade) => Some(Some(shade)),
                    None => None,
                }
            },
            permissions,
        }),
{
    ClientControl::UpdateRole {
        nonce,
        id,
        name,
        color: role_color(color, clear_color),
        permissions,
    }
}

/// The command that sets one overwrite of a channel.
pub fn set_channel_overwrite(
    nonce: u64,
    channel: ChannelId,
    target: &OverwriteTargetDto,
    allow: Permissions,
    deny: Permissions,
) -> (r: Result<ClientControl, String>)
    ensures
        match target_named(*target) {
            Some(whom) => r == Ok::<ClientControl, String>(
                ClientControl::SetChannelOverwrite { nonce, channel, target: whom, allow, deny },
            ),
            None => r matches Err(e) && e@
                == "that fingerprint is not readable: fingerprint is not valid base32"@,
        },
{
    match overwrite_target(target) {
        Ok(whom) => Ok(
            ClientControl::SetChannelOverwrite { nonce, channel, target: whom, allow, deny },
        ),
        Err(e) => Err(e),
    }
}

/// The command that drops one overwrite of a channel.
pub fn delete_channel_overwrite(nonce: u64, channel: ChannelId, target: &OverwriteTargetDto) -> (r:
    Result<ClientControl, String>)
    ensures
        match target_named(*target) {
            Some(whom) => r == Ok::<ClientControl, String>(
                ClientControl::DeleteChannelOverwrite { nonce, channel, target: whom },
            ),
            None => r matches Err(e) && e@
                == "that fingerprint is not readable: fingerprint is not valid base32"@,
        },
{
    match overwrite_target(target) {
        Ok(whom) => Ok(ClientControl::DeleteChannelOverwrite { nonce, channel, target: whom }),
        Err(e) => Err(e),
    }
}

/// The command that creates a channel; a topic left out is empty, an order left
/// out is 0.
pub fn create_channel(
    nonce: u64,
    name: String,
    kind: &str,
    parent: Option<ChannelId>,
    topic: Option<String>,
    max_users: Option<u16>,
    order: Option<i32>,
) -> (r: Result<ClientControl, String>)
    ensures
        match kind_named(kind@) {
            Some(k) => r matches Ok(
                ClientControl::CreateChannel {
                    nonce: n,
                    name: a,
                    parent: p,
                    topic: t,
                    kind: g,
                    max_users: m,
                    order: o,
                },
            ) && n == nonce && a == name && p == parent && g == k && m == max_users && t@
                == (match topic {
                Some(w) => w@,
                None => Seq::empty(),
            }) && o == match order {
                Some(at) => at,
                None => 0,
            },
            None => r matches Err(e) && e@ == "unknown channel kind "@ + text::quoted_text(kind@),
        },
{
    let kind = match parse_kind(kind) {
        Ok(kind) => kind,
        Err(e) => {
            return Err(e);
        },
    };
    let topic = match topic {
        Some(t) => t,
        None => String::new(),
    };
    let order: i32 = match order {
        Some(o) => o,
        None => 0,
    };
    Ok(ClientControl::CreateChannel { nonce, name, parent, topic, kind, max_users, order })
}

/// The command that replaces what a channel says of itself.
pub fn update_channel(
    nonce: u64,
    id: ChannelId,
    name: String,
    kind: &str,
    parent: Option<ChannelId>,
    topic: String,
    max_users: Option<u16>,
    order: i32,
) -> (r: Result<ClientControl, String>)
    ensures
        match kind_named(kind@) {
            Some(k) => r == Ok::<ClientControl, String>(
                ClientControl::UpdateChannel {
                    nonce,
                    id,
                    parent,
                    name,
                    topic,
                    kind: k,
                    max_users,
                    order,
                },
            ),
            None => r matches Err(e) && e@ == "unknown channel kind "@ + text::quoted_text(kind@),
        },
{
    match parse_kind(kind) {
        Ok(kind) => Ok(
            ClientControl::UpdateChannel { nonce, id, parent, name, topic, kind, max_users, order },
        ),
        Err(e) => Err(e),
    }
}

/// The command that sends a message, or `None` for one with nothing in it.
pub fn send_message(channel: ChannelId, content: String, nonce: u64) -> (r: Option<ClientControl>)
    ensures
        r is None <==> text::trimmed(content@).len() == 0,
        r matches Some(c) ==> (c matches ClientControl::SendMessage {
            channel: h,
            content: t,
            reply_to,
            nonce: n,
        } && h == channel && t == content && reply_to is None && n == nonce),
{
    let trimmed = text::trim(content.as_str());
    if text::chars_of(trimmed.as_str()).len() == 0 {
        return None;
    }
    Some(ClientControl::SendMessage { channel, content, reply_to: None, nonce })
}

/// Who can be heard, ourselves among them. The mixer knows only of voices from
/// the network, and the server does not send our own back.
pub fn speaking(
    voice: Option<SessionId>,
    heard: Option<Vec<ClientId>>,
    transmitting: bool,
    own: Option<ClientId>,
) -> (r: SpeakingDto)
    ensures
        voice is None || heard is None ==> r.session is None && r.clients@.len() == 0,
        voice is Some && heard is Some ==> r.session == voice && r.clients@ == if transmitting
            && own is Some {
            (heard->0)@.push(own->0)
        } else {
            (heard->0)@
        },
{
    match (voice, heard) {
        (Some(v), Some(h)) => {
            let mut clients = h;
            if transmitting {
                if let Some(me) = own {
                    clients.push(me);
                }
            }
            SpeakingDto { session: Some(v), clients }
        },
        _ => SpeakingDto { session: None, clients: Vec::new() },
    }
}

/// A server whose identity is pinned, as the window lists it.
#[derive(Debug, Clone)]
pub struct KnownServer {
    pub address: String,
    pub name: String,
    /// Abbreviated.
    pub fingerprint: String,
}

/// Every pinned server, in the order of the addresses.
pub fn known_servers(store: &TrustStore) -> (r: Vec<KnownServer>)
    ensures
        exists|entries: Seq<(String, trust::TrustedServer)>|
            #![trigger trust::pins_of(entries)]
            trust::in_order(entries) && trust::pins_of(entries) == store@ && r@.len()
                == entries.len() && forall|i: int|
                0 <= i < r@.len() ==> (#[trigger] r@[i]).address@ == entries[i].0@ && r@[i].name@
                    == entries[i].1.name@ && r@[i].fingerprint@ == identity::fingerprint_short(
                    entries[i].1.fingerprint.0@,
                ),
{
    let entries = store.iter();
    let mut r: Vec<KnownServer> = Vec::new();
    let mut i: usize = 0;
    while i < entries.len()
        invariant
            i <= entries@.len(),
            r@.len() == i,
            forall|j: int|
                0 <= j < r@.len() ==> (#[trigger] r@[j]).address@ == entries@[j].0@ && r@[j].name@
                    == entries@[j].1.name@ && r@[j].fingerprint@ == identity::fingerprint_short(
                    entries@[j].1.fingerprint.0@,
                ),
        decreases entries@.len() - i,
    {
        r.push(
            KnownServer {
                address: entries[i].0.clone(),
                name: entries[i].1.name.clone(),
                fingerprint: entries[i].1.fingerprint.short(),
            },
        );
        i += 1;
    }
    proof {
        assert(trust::pins_of(entries@) == store@);
    }
    r
}

/// What a change of the audio settings asks of the engine.
#[derive(Debug, Clone, Copy, PartialEq, Eq, Structural)]
pub enum EngineChange {
    /// Nothing runs: the settings wait for the next start.
    Nothing,
    /// Devices or bitrate changed: rebuild.
    Restart,
    /// Change the voice gate in place.
    Gate(GateMode),
}

pub fn set_audio_settings(running: bool, from: &AudioSettings, to: &AudioSettings) -> (c:
    EngineChange)
    ensures
        c == if !running {
            EngineChange::Nothing
        } else if settings::restarts(*from, *to) {
            EngineChange::Restart
        } else {
            EngineChange::Gate(settings::gate_of(to.gate_mode))
        },
{
    if !running {
        EngineChange::Nothing
    } else if from.needs_restart(to) {
        EngineChange::Restart
    } else {
        EngineChange::Gate(GateMode::from(to.gate_mode))
    }
}

/// Replace the pinned identity of one server: the deliberate act that nothing
/// else performs. It takes the fingerprint that the user was shown and agreed
/// to, not whatever the server presents next. The name of the entry stays.
pub fn trust_changed_identity_at(
    store: &mut TrustStore,
    address_key: &str,
    fingerprint: &str,
    now: u64,
) -> (r: Result<Fingerprint, String>)
    ensures
        match identity::parsed_fingerprint(fingerprint@) {
            Some(digest) => {
                &&& r matches Ok(f) && f.0@ == digest
                &&& final(store)@ == trust::trusting(
                    old(store)@,
                    address_key@,
                    identity::fingerprint_with(digest),
                    if old(store)@.contains_key(address_key@) {
                        old(store)@[address_key@].name
                    } else {
                        Seq::empty()
                    },
                    now,
                )
            },
            None => {
                &&& final(store)@ == old(store)@
                &&& r matches Err(e) && e@
                    == "that fingerprint is not readable: fingerprint is not valid base32"@
            },
        },
{
    let f = match readable_fingerprint(fingerprint) {
        Ok(f) => f,
        Err(e) => {
            return Err(e);
        },
    };
    proof {
        identity::lemma_fingerprint_with(f);
    }
    let name = match store.get(address_key) {
        Some(entry) => entry.name.clone(),
        None => String::new(),
    };
    store.trust_at(address_key, f, name.as_str(), now);
    Ok(f)
}

/// After a change of identity has been accepted, the server is recognised by
/// exactly the fingerprint that was agreed to.
pub proof fn law_an_accepted_change_is_recognised(
    pins: Map<Seq<char>, trust::Pin>,
    address: Seq<char>,
    agreed: Fingerprint,
    presented: Fingerprint,
    name: Seq<char>,
    now: u64,
)
    ensures
        ({
            let after = trust::trusting(pins, address, agreed, name, now);
            trust::decision(after, address, presented) == if presented == agreed {
                trust::TrustDecision::Recognised
            } else {
                trust::TrustDecision::Changed { expected: agreed, actual: presented }
            }
        }),
{
}


proof fn lemma_count_is_filtered(s: Seq<char>, c: char)
    ensures
        count_of(s, c) == s.filter(|x: char| x == c).len(),
        count_of(s, c) > 0 <==> s.contains(c),
    decreases s.len(),
{
    reveal(Seq::filter);
    if s.len() > 0 {
        let front = s.drop_last();
        lemma_count_is_filtered(front, c);
        if front.contains(c) {
            let i = choose|i: int| 0 <= i < front.len() && front[i] == c;
            assert(s[i] == c);
        }
        if s.contains(c) && s.last() != c {
            let i = choose|i: int| 0 <= i < s.len() && s[i] == c;
            assert(front[i] == c);
        }
        assert(s[s.len() - 1] == s.last());
    }
}

/// Whether a character stands at this place and nowhere else.
pub open spec fn only_at(s: Seq<char>, c: char, i: int) -> bool {
    0 <= i < s.len() && s[i] == c && forall|j: int|
        0 <= j < s.len() && #[trigger] s[j] == c ==> j == i
}

proof fn lemma_one_occurrence(s: Seq<char>, c: char)
    ensures
        count_of(s, c) == 1 <==> exists|i: int| #[trigger] only_at(s, c, i),
    decreases s.len(),
{
    if s.len() > 0 {
        let front = s.drop_last();
        let last = s.len() - 1;
        lemma_one_occurrence(front, c);
        lemma_count_is_filtered(front, c);
        if s.last() == c {
            if count_of(s, c) == 1 {
                assert forall|j: int| 0 <= j < s.len() && #[trigger] s[j] == c implies j == last by {
                    if j < last {
                        assert(front[j] == c);
                    }
                }
                assert(only_at(s, c, last));
            }
            if front.contains(c) {
                let j = choose|j: int| 0 <= j < front.len() && front[j] == c;
                assert(s[j] == c && s[last] == c);
            }
        } else {
            assert forall|i: int| only_at(front, c, i) == #[trigger] only_at(s, c, i) by {
                if only_at(front, c, i) {
                    assert forall|j: int| 0 <= j < s.len() && #[trigger] s[j] == c implies j
                        == i by {
                        assert(front[j] == c);
                    }
                }
                if only_at(s, c, i) {
                    assert forall|j: int| 0 <= j < front.len() && #[trigger] front[j]
                        == c implies j == i by {
                        assert(s[j] == c);
                    }
                }
            }
            if count_of(s, c) == 1 {
                let i = choose|i: int| #[trigger] only_at(front, c, i);
                assert(only_at(s, c, i));
            }
            if exists|i: int| #[trigger] only_at(s, c, i) {
                let i = choose|i: int| #[trigger] only_at(s, c, i);
                assert(only_at(front, c, i));
            }
        }
    }
}

/// Where a bracket closes, the port is behind the last one; elsewhere a port is
/// behind the only colon there is.
pub proof fn law_where_a_port_is(address: Seq<char>)
    ensures
        address.contains(']') ==> (carries_port(address) <==> exists|i: int|
            0 <= i < address.len() && #[trigger] address[i] == ':' && forall|k: int|
                i < k < address.len() ==> #[trigger] address[k] != ']'),
        !address.contains(']') ==> (carries_port(address) <==> exists|i: int| #[trigger]
            only_at(address, ':', i)),
{
    lemma_one_occurrence(address, ':');
    if address.contains(']') {
        text::law_the_tail_follows_the_last_separator(address, ']');
        let tail = text::after_last(address, ']');
        let from = address.len() - tail.len();
        if tail.contains(':') {
            let t = choose|t: int| 0 <= t < tail.len() && tail[t] == ':';
            let i = from + t;
            assert(address[i] == ':');
            assert forall|k: int| i < k < address.len() implies #[trigger] address[k] != ']' by {
                assert(tail[k - from] == address[k]);
            }
        }
        if exists|i: int|
            0 <= i < address.len() && #[trigger] address[i] == ':' && forall|k: int|
                i < k < address.len() ==> #[trigger] address[k] != ']' {
            let i = choose|i: int|
                0 <= i < address.len() && #[trigger] address[i] == ':' && forall|k: int|
                    i < k < address.len() ==> #[trigger] address[k] != ']';
            if from > 0 {
                assert(address[from - 1] == ']');
            }
            assert(i >= from);
            assert(tail[i - from] == ':');
        }
    }
}

/// An address that carries a port is used as it was typed, less the white space
/// at its ends; any other gets the default port, and nothing else changes.
pub proof fn law_only_a_missing_port_is_added(address: Seq<char>)
    ensures
        ({
            let typed = text::trimmed(address);
            let used = with_port(address);
            &&& text::begins_with(used, typed)
            &&& carries_port(typed) ==> used == typed
            &&& !carries_port(typed) ==> used.skip(typed.len() as int) == seq![':'] + text::digits(
                DEFAULT_PORT as nat,
            )
        }),
{
    reveal_strlit(":42071");
    let typed = text::trimmed(address);
    let used = with_port(address);
    assert(used.take(typed.len() as int) =~= typed);
    reveal_with_fuel(text::digits, 6);
    assert(text::digits(42071) =~= seq!['4', '2', '0', '7', '1']);
    assert(":42071"@ =~= seq![':'] + text::digits(42071));
    if !carries_port(typed) {
        assert(used.skip(typed.len() as int) =~= ":42071"@);
    }
}

/// Every leading occurrence goes, one after the other; a text that does not begin
/// so stays as it is.
pub proof fn law_leading_words_are_dropped(s: Seq<char>, prefix: Seq<char>)
    requires
        prefix.len() > 0,
    ensures
        !text::begins_with(stripped(s, prefix), prefix),
        stripped(prefix + s, prefix) == stripped(s, prefix),
        !text::begins_with(s, prefix) ==> stripped(s, prefix) == s,
        text::finishes_with(s, stripped(s, prefix)),
    decreases s.len(),
{
    let whole = prefix + s;
    assert(whole.take(prefix.len() as int) =~= prefix);
    assert(whole.skip(prefix.len() as int) =~= s);
    if text::begins_with(s, prefix) {
        let rest = s.skip(prefix.len() as int);
        law_leading_words_are_dropped(rest, prefix);
        let out = stripped(rest, prefix);
        assert(s.skip(s.len() - out.len()) =~= rest.skip(rest.len() - out.len()));
    } else {
        assert(s.skip(0) =~= s);
    }
}

/// A kind of channel goes by one word, and no other word is a kind.
pub proof fn law_a_kind_goes_by_its_word(word: Seq<char>)
    ensures
        kind_named(word) == Some(ChannelKind::Voice) <==> word == "voice"@,
        kind_named(word) == Some(ChannelKind::Text) <==> word == "text"@,
        kind_named(word) == Some(ChannelKind::VoiceAndText) <==> word == "voice_and_text"@,
{
    reveal_strlit("voice");
    reveal_strlit("text");
    reveal_strlit("voice_and_text");
    assert("voice"@.len() == 5 && "text"@.len() == 4 && "voice_and_text"@.len() == 14);
}

/// A role is named by its id, a member by a fingerprint that can be read: the
/// target holds what its digest is read from.
pub proof fn law_a_target_is_whom_it_names(target: OverwriteTargetDto)
    ensures
        target matches OverwriteTargetDto::Role { id } ==> target_named(target) == Some(
            OverwriteTarget::Role(id),
        ),
        target matches OverwriteTargetDto::Member { fingerprint } ==> (target_named(target) is Some
            <==> identity::parsed_fingerprint(fingerprint@) is Some),
        target matches OverwriteTargetDto::Member { fingerprint } ==> (target_named(
            target,
        ) matches Some(whom) ==> (whom matches OverwriteTarget::Member(f) && f
            == identity::fingerprint_with(identity::parsed_fingerprint(fingerprint@)->0))),
{
}

/// Our own voice is the last of those heard while we transmit, and is not among
/// them while we do not; without voice or an engine nobody is heard.
pub proof fn law_our_own_voice_comes_last(
    voice: Option<SessionId>,
    heard: Option<Vec<ClientId>>,
    own: Option<ClientId>,
    talking: SpeakingDto,
    silent: SpeakingDto,
)
    requires
        call_ensures(speaking, (voice, heard, true, own), talking),
        call_ensures(speaking, (voice, heard, false, own), silent),
    ensures
        talking.session == silent.session,
        heard is None ==> silent.session is None && talking.clients@.len() == 0,
        voice is None ==> talking.clients@.len() == 0 && silent.clients@.len() == 0,
        voice is Some && heard is Some ==> silent.session == voice && silent.clients@
            == (heard->0)@,
        voice is Some && heard is Some ==> (own matches Some(me) ==> talking.clients@
            == silent.clients@.push(me)),
        own is None ==> talking.clients@ == silent.clients@,
{
}

/// Clearing a colour wins over setting one; what is neither set nor cleared is
/// left alone.
pub proof fn law_clearing_a_colour_wins(
    color: Option<u32>,
    clear: Option<bool>,
    sent: Option<Option<u32>>,
)
    requires
        call_ensures(role_color, (color, clear), sent),
    ensures
        sent == Some(None::<u32>) <==> clear == Some(true),
        sent is None <==> color is None && clear != Some(true),
        sent matches Some(Some(shade)) ==> color == Some(shade),
{
}

/// A running engine is rebuilt or has its voice gate changed, never both and
/// never neither; one that does not run is left alone.
pub proof fn law_what_a_settings_change_asks_for(
    running: bool,
    from: &AudioSettings,
    to: &AudioSettings,
    change: EngineChange,
)
    requires
        call_ensures(set_audio_settings, (running, from, to), change),
    ensures
        change is Nothing <==> !running,
        change is Restart <==> running && settings::restarts(*from, *to),
        change matches EngineChange::Gate(mode) ==> mode == settings::gate_of(to.gate_mode),
{
}

/// The highest level that is mined for is 40.
pub proof fn law_how_high_mining_goes(level: u32, r: Result<(), String>)
    requires
        call_ensures(may_mine, (level,), r),
    ensures
        r is Ok <==> level <= 40,
{
}

/// A message is sent as it was written, unless it is nothing but white space.
pub proof fn law_a_message_is_sent_as_written(
    channel: ChannelId,
    content: String,
    nonce: u64,
    r: Option<ClientControl>,
)
    requires
        call_ensures(send_message, (channel, content, nonce), r),
    ensures
        r is None <==> text::trimmed(content@).len() == 0,
        r matches Some(c) ==> (c matches ClientControl::SendMessage {
            channel: to,
            content: sent,
            reply_to,
            nonce: n,
        } && to == channel && sent@ == content@ && reply_to is None && n == nonce),
{
}
} // verus!
