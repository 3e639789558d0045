//! The client's view of its own permissions.
//!
//! A per-session mirror of what decides them: the role table, this member's
//! grants, and every visible channel with its overwrites, resolved by the same
//! rules that the server enforces. What this app disables and what the server
//! refuses are then the same thing.
//!
//! The mirror is for rendering and nothing more: the server resolves every
//! action again.

use crate::client::{ClientEvent, SessionInfo};
use crate::identity;
use crate::identity::{crypto, Fingerprint};
use crate::proto;
use crate::proto::perms;
use crate::proto::perms::{can_act_on, resolve, Overwrite, Permissions, Role, RoleId};
use crate::proto::{Channel, ChannelId, ClientId, UserInfo};
use std::collections::BTreeMap;
use vstd::prelude::*;

verus! {

/// What this member may do, resolved per channel. Decisions rather than bits:
/// the window renders them, it does not make them.
#[derive(Debug)]
pub struct MyPermissionsDto {
    pub is_owner: bool,
    /// Administrator in the base: everything, everywhere.
    pub is_admin: bool,
    pub channels: BTreeMap<ChannelId, ChannelPermissionsDto>,
}

#[derive(Debug, Clone, Copy, PartialEq, Eq, Structural)]
pub struct ChannelPermissionsDto {
    pub send: bool,
    pub read_history: bool,
    pub connect: bool,
    pub speak: bool,
}

/// A role as the window is shown it.
#[derive(Debug)]
pub struct RoleDto {
    pub id: RoleId,
    pub name: String,
    pub color: Option<u32>,
    pub position: u32,
    pub permissions: u64,
}

/// What the window is shown of a role.
pub open spec fn shows_role(d: RoleDto, role: Role) -> bool {
    &&& d.id == role.id
    &&& d.name@ == role.name@
    &&& d.color == role.color
    &&& d.position == role.position
    &&& d.permissions == role.permissions.0
}

/// Which actions to offer against one member, and why not, when not.
#[derive(Debug)]
pub struct ModerationOptionsDto {
    pub can_kick: bool,
    pub can_ban: bool,
    pub can_mute: bool,
    pub can_move: bool,
    /// Set when everything above is false: one honest sentence.
    pub reason: Option<String>,
}

/// What rank needs to know about another member.
struct MemberStanding {
    fingerprint: Fingerprint,
    roles: Vec<RoleId>,
    owner: bool,
}

/// What is known of a member.
pub struct StandingView {
    pub fingerprint: Fingerprint,
    pub roles: Seq<RoleId>,
    pub owner: bool,
}

impl View for MemberStanding {
    type V = StandingView;

    closed spec fn view(&self) -> StandingView {
        StandingView { fingerprint: self.fingerprint, roles: self.roles@, owner: self.owner }
    }
}

/// What a mirror holds.
#[verifier::ext_equal]
pub struct MirrorView {
    pub fingerprint: Fingerprint,
    pub owner: bool,
    pub roles: Seq<Role>,
    pub my_roles: Seq<RoleId>,
    pub channels: Map<ChannelId, proto::ChannelView>,
    pub users: Map<ClientId, StandingView>,
}

/// The mirror of one session, carried forward by its events.
pub struct PermMirror {
    fingerprint: Fingerprint,
    owner: bool,
    roles: Vec<Role>,
    my_roles: Vec<RoleId>,
    channels: BTreeMap<ChannelId, Channel>,
    /// Everyone connected: may I act on *them*?
    users: BTreeMap<ClientId, MemberStanding>,
}

impl View for PermMirror {
    type V = MirrorView;

    closed spec fn view(&self) -> MirrorView {
        MirrorView {
            fingerprint: self.fingerprint,
            owner: self.owner,
            roles: self.roles@,
            my_roles: self.my_roles@,
            channels: self.channels@.map_values(|c: Channel| c@),
            users: self.users@.map_values(|s: MemberStanding| s@),
        }
    }
}

/// The standing that a user's record gives.
pub open spec fn standing_of(user: UserInfo) -> StandingView {
    StandingView {
        fingerprint: identity::fingerprint_with(user.digest()),
        roles: user.roles@,
        owner: user.owner,
    }
}

/// The channels by id; of two under one id the later counts.
pub open spec fn channels_by_id(channels: Seq<Channel>) -> Map<ChannelId, proto::ChannelView>
    decreases channels.len(),
{
    if channels.len() == 0 {
        Map::empty()
    } else {
        channels_by_id(channels.drop_last()).insert(channels.last().id, channels.last()@)
    }
}

/// The users by id; of two under one id the later counts.
pub open spec fn users_by_id(users: Seq<UserInfo>) -> Map<ClientId, StandingView>
    decreases users.len(),
{
    if users.len() == 0 {
        Map::empty()
    } else {
        users_by_id(users.drop_last()).insert(users.last().client_id, standing_of(users.last()))
    }
}

/// The place of the first user with this id, or the number of users.
pub open spec fn user_index(users: Seq<UserInfo>, id: ClientId) -> int
    decreases users.len(),
{
    if users.len() == 0 || users[0].client_id == id {
        0
    } else {
        1 + user_index(users.skip(1), id)
    }
}

/// The roles other than this one, in order.
pub open spec fn roles_without(roles: Seq<Role>, id: RoleId) -> Seq<Role>
    decreases roles.len(),
{
    if roles.len() == 0 {
        Seq::empty()
    } else if roles.last().id == id {
        roles_without(roles.drop_last(), id)
    } else {
        roles_without(roles.drop_last(), id).push(roles.last())
    }
}

/// The grants other than this one, in order.
pub open spec fn grants_without(ids: Seq<RoleId>, id: RoleId) -> Seq<RoleId>
    decreases ids.len(),
{
    if ids.len() == 0 {
        Seq::empty()
    } else if ids.last() == id {
        grants_without(ids.drop_last(), id)
    } else {
        grants_without(ids.drop_last(), id).push(ids.last())
    }
}

/// How many roles stand at or below a position, counted up to the first that
/// does not.
pub open spec fn rank_of(sorted: Seq<Role>, position: u32) -> nat
    decreases sorted.len(),
{
    if sorted.len() == 0 || sorted[0].position > position {
        0
    } else {
        1 + rank_of(sorted.skip(1), position)
    }
}

/// A role put in its place, behind those of the same position.
pub open spec fn placed(sorted: Seq<Role>, role: Role) -> Seq<Role> {
    sorted.insert(rank_of(sorted, role.position) as int, role)
}

/// The roles from the lowest position up; equals keep their order.
pub open spec fn by_position(roles: Seq<Role>) -> Seq<Role>
    decreases roles.len(),
{
    if roles.len() == 0 {
        Seq::empty()
    } else {
        placed(by_position(roles.drop_last()), roles.last())
    }
}

/// The first role with this id moved to a position.
pub open spec fn moved_to(roles: Seq<Role>, id: RoleId, position: u32) -> Seq<Role> {
    let i = perms::role_index(roles, id);
    if i < roles.len() {
        roles.update(i, Role { position, ..roles[i] })
    } else {
        roles
    }
}

/// The roles moved one after the other.
pub open spec fn repositioned(roles: Seq<Role>, positions: Seq<(RoleId, u32)>) -> Seq<Role>
    decreases positions.len(),
{
    if positions.len() == 0 {
        roles
    } else {
        let last = positions.last();
        moved_to(repositioned(roles, positions.drop_last()), last.0, last.1)
    }
}

/// The role table with one role set.
pub open spec fn with_role(roles: Seq<Role>, role: Role) -> Seq<Role> {
    by_position(roles_without(roles, role.id).push(role))
}

/// The mirror with what a user's record says.
pub open spec fn with_user(v: MirrorView, user: UserInfo) -> MirrorView {
    let standing = standing_of(user);
    let users = v.users.insert(user.client_id, standing);
    if standing.fingerprint == v.fingerprint {
        // Our own grants arrive the same way.
        MirrorView { users, my_roles: standing.roles, owner: standing.owner, ..v }
    } else {
        MirrorView { users, ..v }
    }
}

/// The mirror after an event.
pub open spec fn folded(v: MirrorView, event: ClientEvent) -> MirrorView {
    match event {
        ClientEvent::ChannelCreated(channel) => MirrorView {
            channels: v.channels.insert(channel.id, channel@),
            ..v
        },
        ClientEvent::ChannelUpdated(channel) => MirrorView {
            channels: v.channels.insert(channel.id, channel@),
            ..v
        },
        ClientEvent::ChannelRemoved(id) => MirrorView { channels: v.channels.remove(id), ..v },
        ClientEvent::RoleCreated(role) => MirrorView { roles: with_role(v.roles, role), ..v },
        ClientEvent::RoleUpdated(role) => MirrorView { roles: with_role(v.roles, role), ..v },
        ClientEvent::RoleDeleted { id } => MirrorView {
            roles: roles_without(v.roles, id),
            my_roles: grants_without(v.my_roles, id),
            ..v
        },
        ClientEvent::RolesReordered { positions } => MirrorView {
            roles: by_position(repositioned(v.roles, positions@)),
            ..v
        },
        ClientEvent::UserJoined(user) => with_user(v, user),
        ClientEvent::UserUpdated(user) => with_user(v, user),
        ClientEvent::UserLeft { client, reason: _ } => MirrorView {
            users: v.users.remove(client),
            ..v
        },
        _ => v,
    }
}

/// Whether a user's record changes this member's own grants.
pub open spec fn changes_me(v: MirrorView, user: UserInfo) -> bool {
    let standing = standing_of(user);
    standing.fingerprint == v.fingerprint && (standing.roles != v.my_roles || standing.owner
        != v.owner)
}

/// Whether the answer to "what may I do" could have changed with an event.
pub open spec fn could_change(v: MirrorView, event: ClientEvent) -> bool {
    match event {
        ClientEvent::ChannelCreated(_) => true,
        ClientEvent::ChannelUpdated(_) => true,
        ClientEvent::ChannelRemoved(_) => true,
        ClientEvent::RoleCreated(_) => true,
        ClientEvent::RoleUpdated(_) => true,
        ClientEvent::RoleDeleted { .. } => true,
        ClientEvent::RolesReordered { .. } => true,
        ClientEvent::UserJoined(user) => changes_me(v, user),
        ClientEvent::UserUpdated(user) => changes_me(v, user),
        _ => false,
    }
}

/// This member's own bits, server-wide or in a channel.
pub open spec fn my_bits(v: MirrorView, overwrites: Option<Seq<Overwrite>>) -> u64 {
    perms::resolved_bits(v.roles, v.my_roles, v.fingerprint, v.owner, overwrites)
}

/// What this member may do in a channel.
pub open spec fn channel_permissions(v: MirrorView, channel: proto::ChannelView) -> ChannelPermissionsDto {
    let bits = my_bits(v, Some(channel.overwrites));
    ChannelPermissionsDto {
        send: bits & Permissions::SEND_MESSAGES == Permissions::SEND_MESSAGES,
        read_history: bits & Permissions::READ_HISTORY == Permissions::READ_HISTORY,
        connect: bits & Permissions::CONNECT == Permissions::CONNECT,
        speak: bits & Permissions::SPEAK == Permissions::SPEAK,
    }
}

/// Why nothing is offered against a member, or `None` where rank allows it.
pub open spec fn out_of_reach(v: MirrorView, target: ClientId) -> Option<Seq<char>> {
    if !v.users.contains_key(target) {
        Some("They are no longer connected."@)
    } else {
        let them = v.users[target];
        if them.fingerprint == v.fingerprint {
            Some("That would be you."@)
        } else if perms::outranks(v.roles, v.my_roles, v.owner, them.roles, them.owner) {
            None
        } else if them.owner {
            Some("They own this server."@)
        } else {
            Some("Their highest role is not below yours."@)
        }
    }
}

/// The bits that moderate, taken one by one.
pub open spec fn moderates(v: MirrorView, bit: u64) -> bool {
    my_bits(v, None) & bit == bit
}

fn copy_roles(roles: &[Role]) -> (r: Vec<Role>)
    ensures
        r@ == roles@,
{
    let mut r: Vec<Role> = Vec::new();
    let mut i: usize = 0;
    while i < roles.len()
        invariant
            i <= roles@.len(),
            r@ == roles@.take(i as int),
        decreases roles.len() - i,
    {
        r.push(roles[i].clone());
        proof {
            assert(roles@.take(i + 1) =~= roles@.take(i as int).push(roles@[i as int]));
        }
        i = i + 1;
    }
    assert(roles@.take(i as int) =~= roles@);
    r
}

fn copy_ids(ids: &[RoleId]) -> (r: Vec<RoleId>)
    ensures
        r@ == ids@,
{
    let mut r: Vec<RoleId> = Vec::new();
    let mut i: usize = 0;
    while i < ids.len()
        invariant
            i <= ids@.len(),
            r@ == ids@.take(i as int),
        decreases ids.len() - i,
    {
        r.push(ids[i]);
        proof {
            assert(ids@.take(i + 1) =~= ids@.take(i as int).push(ids@[i as int]));
        }
        i = i + 1;
    }
    assert(ids@.take(i as int) =~= ids@);
    r
}

fn same_ids(a: &[RoleId], b: &[RoleId]) -> (r: bool)
    ensures
        r == (a@ == b@),
{
    if a.len() != b.len() {
        return false;
    }
    let mut i: usize = 0;
    while i < a.len()
        invariant
            i <= a@.len(),
            a@.len() == b@.len(),
            forall|k: int| 0 <= k < i ==> a@[k] == b@[k],
        decreases a.len() - i,
    {
        if a[i] != b[i] {
            return false;
        }
        i = i + 1;
    }
    assert(a@ =~= b@);
    true
}

fn drop_role(roles: &[Role], id: RoleId) -> (r: Vec<Role>)
    ensures
        r@ == roles_without(roles@, id),
{
    let mut r: Vec<Role> = Vec::new();
    let mut i: usize = 0;
    while i < roles.len()
        invariant
            i <= roles@.len(),
            r@ == roles_without(roles@.take(i as int), id),
        decreases roles.len() - i,
    {
        proof {
            assert(roles@.take(i + 1).drop_last() =~= roles@.take(i as int));
        }
        if roles[i].id != id {
            r.push(roles[i].clone());
        }
        i = i + 1;
    }
    assert(roles@.take(i as int) =~= roles@);
    r
}

fn drop_grant(ids: &[RoleId], id: RoleId) -> (r: Vec<RoleId>)
    ensures
        r@ == grants_without(ids@, id),
{
    let mut r: Vec<RoleId> = Vec::new();
    let mut i: usize = 0;
    while i < ids.len()
        invariant
            i <= ids@.len(),
            r@ == grants_without(ids@.take(i as int), id),
        decreases ids.len() - i,
    {
        proof {
            assert(ids@.take(i + 1).drop_last() =~= ids@.take(i as int));
        }
        if ids[i] != id {
            r.push(ids[i]);
        }
        i = i + 1;
    }
    assert(ids@.take(i as int) =~= ids@);
    r
}

proof fn lemma_rank(sorted: Seq<Role>, position: u32, i: int)
    requires
        0 <= i <= sorted.len(),
        forall|k: int| 0 <= k < i ==> sorted[k].position <= position,
        i < sorted.len() ==> sorted[i].position > position,
    ensures
        rank_of(sorted, position) == i,
    decreases sorted.len(),
{
    if i > 0 {
        lemma_rank(sorted.skip(1), position, i - 1);
    }
}

fn sort_roles(roles: &[Role]) -> (r: Vec<Role>)
    ensures
        r@ == by_position(roles@),
{
    let mut r: Vec<Role> = Vec::new();
    let mut i: usize = 0;
    while i < roles.len()
        invariant
            i <= roles@.len(),
            r@.len() == i,
            r@ == by_position(roles@.take(i as int)),
        decreases roles.len() - i,
    {
        let position: u32 = roles[i].position;
        let mut at: usize = 0;
        while at < r.len() && r[at].position <= position
            invariant
                at <= r@.len(),
                forall|k: int| 0 <= k < at ==> r@[k].position <= position,
            decreases r.len() - at,
        {
            at = at + 1;
        }
        proof {
            lemma_rank(r@, position, at as int);
            assert(roles@.take(i + 1).drop_last() =~= roles@.take(i as int));
        }
        r.insert(at, roles[i].clone());
        i = i + 1;
    }
    assert(roles@.take(i as int) =~= roles@);
    r
}

/// Sorting puts the lowest position first and keeps every role.
pub proof fn law_roles_are_sorted(roles: Seq<Role>)
    ensures
        by_position(roles).len() == roles.len(),
        by_position(roles).to_multiset() == roles.to_multiset(),
        forall|i: int, j: int|
            0 <= i < j < by_position(roles).len() ==> by_position(roles)[i].position
                <= by_position(roles)[j].position,
    decreases roles.len(),
{
    broadcast use vstd::seq_lib::group_to_multiset_ensures;

    if roles.len() > 0 {
        let rest = by_position(roles.drop_last());
        let role = roles.last();
        law_roles_are_sorted(roles.drop_last());
        lemma_rank_splits(rest, role.position);
        let at = rank_of(rest, role.position) as int;
        assert(roles =~= roles.drop_last().push(role));
        let whole = rest.insert(at, role);
        assert(by_position(roles) == whole);
        assert(whole.remove(at) =~= rest);
        assert(whole[at] == role && whole.contains(role));
        assert(whole.to_multiset() =~= rest.to_multiset().insert(role));
    }
}

proof fn lemma_rank_splits(sorted: Seq<Role>, position: u32)
    requires
        forall|i: int, j: int|
            0 <= i < j < sorted.len() ==> sorted[i].position <= sorted[j].position,
    ensures
        rank_of(sorted, position) <= sorted.len(),
        forall|k: int| 0 <= k < rank_of(sorted, position) ==> sorted[k].position <= position,
        forall|k: int|
            rank_of(sorted, position) <= k < sorted.len() ==> sorted[k].position > position,
    decreases sorted.len(),
{
    if sorted.len() > 0 && sorted[0].position <= position {
        let rest = sorted.skip(1);
        lemma_rank_splits(rest, position);
        assert forall|k: int| 0 <= k < rank_of(sorted, position) implies sorted[k].position
            <= position by {
            if k > 0 {
                assert(rest[k - 1] == sorted[k]);
            }
        }
        assert forall|k: int| rank_of(sorted, position) <= k < sorted.len() implies
            sorted[k].position > position by {
            assert(rest[k - 1] == sorted[k]);
        }
    }
}

fn standing(user: &UserInfo) -> (s: MemberStanding)
    ensures
        s@ == standing_of(*user),
{
    MemberStanding {
        fingerprint: user.fingerprint(),
        roles: copy_ids(user.roles.as_slice()),
        owner: user.owner,
    }
}

proof fn lemma_user_index(users: Seq<UserInfo>, id: ClientId, i: int)
    requires
        0 <= i <= users.len(),
        forall|k: int| 0 <= k < i ==> users[k].client_id != id,
        i < users.len() ==> users[i].client_id == id,
    ensures
        user_index(users, id) == i,
    decreases users.len(),
{
    if i > 0 {
        lemma_user_index(users.skip(1), id, i - 1);
    }
}

/// The mirror of a session that has just begun.
pub open spec fn mirrored(
    fingerprint: Fingerprint,
    client_id: ClientId,
    channels: Seq<Channel>,
    users: Seq<UserInfo>,
    roles: Seq<Role>,
) -> MirrorView {
    let i = user_index(users, client_id);
    MirrorView {
        fingerprint,
        owner: i < users.len() && users[i].owner,
        roles,
        my_roles: if i < users.len() {
            users[i].roles@
        } else {
            Seq::empty()
        },
        channels: channels_by_id(channels),
        users: users_by_id(users),
    }
}

impl PermMirror {
    pub fn from_session(fingerprint: Fingerprint, info: &SessionInfo) -> (m: Self)
        ensures
            m@ == mirrored(
                fingerprint,
                info.client_id,
                info.channels@,
                info.users@,
                info.roles@,
            ),
    {
        broadcast use vstd::std_specs::btree::group_btree_axioms;

        let mut owner = false;
        let mut my_roles: Vec<RoleId> = Vec::new();
        let mut me: usize = 0;
        while me < info.users.len() && info.users[me].client_id != info.client_id
            invariant
                me <= info.users@.len(),
                forall|k: int| 0 <= k < me ==> info.users@[k].client_id != info.client_id,
            decreases info.users.len() - me,
        {
            me = me + 1;
        }
        proof {
            lemma_user_index(info.users@, info.client_id, me as int);
        }
        if me < info.users.len() {
            owner = info.users[me].owner;
            my_roles = copy_ids(info.users[me].roles.as_slice());
        }
        let mut channels: BTreeMap<ChannelId, Channel> = BTreeMap::new();
        let mut i: usize = 0;
        assert(channels@.map_values(|c: Channel| c@) =~= channels_by_id(info.channels@.take(0)));
        while i < info.channels.len()
            invariant
                i <= info.channels@.len(),
                channels@.map_values(|c: Channel| c@) == channels_by_id(
                    info.channels@.take(i as int),
                ),
            decreases info.channels.len() - i,
        {
            broadcast use vstd::std_specs::btree::group_btree_axioms;

            let channel = info.channels[i].clone();
            let id: ChannelId = channel.id;
            let ghost before = channels@;
            let _ = channels.insert(id, channel);
            proof {
                let next = info.channels@.take(i + 1);
                assert(next.drop_last() =~= info.channels@.take(i as int));
                assert(channels@.map_values(|c: Channel| c@) =~= before.map_values(
                    |c: Channel| c@,
                ).insert(id, channel@));
                assert(channel@ == next.last()@ && id == next.last().id);
            }
            i = i + 1;
        }
        let mut users: BTreeMap<ClientId, MemberStanding> = BTreeMap::new();
        let mut j: usize = 0;
        assert(users@.map_values(|s: MemberStanding| s@) =~= users_by_id(info.users@.take(0)));
        while j < info.users.len()
            invariant
                j <= info.users@.len(),
                users@.map_values(|s: MemberStanding| s@) == users_by_id(
                    info.users@.take(j as int),
                ),
            decreases info.users.len() - j,
        {
            broadcast use vstd::std_specs::btree::group_btree_axioms;

            let theirs = standing(&info.users[j]);
            let ghost before = users@;
            let ghost seen = theirs@;
            let _ = users.insert(info.users[j].client_id, theirs);
            proof {
                let next = info.users@.take(j + 1);
                assert(next.drop_last() =~= info.users@.take(j as int));
                assert(users@.map_values(|s: MemberStanding| s@) =~= before.map_values(
                    |s: MemberStanding| s@,
                ).insert(next.last().client_id, seen));
            }
            j = j + 1;
        }
        proof {
            assert(info.channels@.take(i as int) =~= info.channels@);
            assert(info.users@.take(j as int) =~= info.users@);
        }
        PermMirror {
            fingerprint,
            owner,
            roles: copy_roles(info.roles.as_slice()),
            my_roles,
            channels,
            users,
        }
    }

    fn set_channel(&mut self, channel: &Channel)
        ensures
            final(self)@ == (MirrorView {
                channels: old(self)@.channels.insert(channel.id, channel@),
                ..old(self)@
            }),
    {
        broadcast use vstd::std_specs::btree::group_btree_axioms;

        let ghost before = self@;
        let _ = self.channels.insert(channel.id, channel.clone());
        assert(self@.channels =~= before.channels.insert(channel.id, channel@));
    }

    fn set_role(&mut self, role: &Role)
        ensures
            final(self)@ == (MirrorView {
                roles: with_role(old(self)@.roles, *role),
                ..old(self)@
            }),
    {
        let mut others = drop_role(self.roles.as_slice(), role.id);
        others.push(role.clone());
        self.roles = sort_roles(others.as_slice());
    }

    fn set_user(&mut self, user: &UserInfo) -> (changed: bool)
        ensures
            final(self)@ == with_user(old(self)@, *user),
            changed == changes_me(old(self)@, *user),
    {
        broadcast use vstd::std_specs::btree::group_btree_axioms;

        let ghost before = self@;
        let theirs = standing(user);
        let ghost seen = theirs@;
        let _ = self.users.insert(user.client_id, theirs);
        assert(self@.users =~= before.users.insert(user.client_id, seen));
        if user.fingerprint() == self.fingerprint {
            let changed = !same_ids(user.roles.as_slice(), self.my_roles.as_slice()) || user.owner
                != self.owner;
            self.my_roles = copy_ids(user.roles.as_slice());
            self.owner = user.owner;
            changed
        } else {
            false
        }
    }

    fn reorder(&mut self, positions: &[(RoleId, u32)])
        ensures
            final(self)@ == (MirrorView {
                roles: by_position(repositioned(old(self)@.roles, positions@)),
                ..old(self)@
            }),
    {
        let ghost before = self@;
        let mut i: usize = 0;
        while i < positions.len()
            invariant
                i <= positions@.len(),
                self@ == (MirrorView {
                    roles: repositioned(before.roles, positions@.take(i as int)),
                    ..before
                }),
            decreases positions.len() - i,
        {
            let (id, position) = positions[i];
            let mut at: usize = 0;
            while at < self.roles.len() && self.roles[at].id != id
                invariant
                    at <= self.roles@.len(),
                    forall|k: int| 0 <= k < at ==> self.roles@[k].id != id,
                decreases self.roles.len() - at,
            {
                at = at + 1;
            }
            proof {
                perms::lemma_role_index(self.roles@, id, at as int);
                assert(positions@.take(i + 1).drop_last() =~= positions@.take(i as int));
            }
            if at < self.roles.len() {
                let mut role = self.roles[at].clone();
                role.position = position;
                self.roles.set(at, role);
            }
            i = i + 1;
        }
        assert(positions@.take(i as int) =~= positions@);
        self.roles = sort_roles(self.roles.as_slice());
    }

    /// Fold one event in. True when the answer to "what may I do" could have
    /// changed, which is the cue to send the window a new snapshot.
    pub fn apply(&mut self, event: &ClientEvent) -> (changed: bool)
        ensures
            final(self)@ == folded(old(self)@, *event),
            changed == could_change(old(self)@, *event),
    {
        broadcast use vstd::std_specs::btree::group_btree_axioms;

        let ghost before = self@;
        match event {
            ClientEvent::ChannelCreated(channel) => {
                self.set_channel(channel);
                true
            },
            ClientEvent::ChannelUpdated(channel) => {
                self.set_channel(channel);
                true
            },
            ClientEvent::ChannelRemoved(id) => {
                let _ = self.channels.remove(id);
                assert(self@.channels =~= before.channels.remove(*id));
                true
            },
            ClientEvent::RoleCreated(role) => {
                self.set_role(role);
                true
            },
            ClientEvent::RoleUpdated(role) => {
                self.set_role(role);
                true
            },
            ClientEvent::RoleDeleted { id } => {
                self.roles = drop_role(self.roles.as_slice(), *id);
                self.my_roles = drop_grant(self.my_roles.as_slice(), *id);
                true
            },
            ClientEvent::RolesReordered { positions } => {
                self.reorder(positions.as_slice());
                true
            },
            ClientEvent::UserJoined(user) => self.set_user(user),
            ClientEvent::UserUpdated(user) => self.set_user(user),
            ClientEvent::UserLeft { client, reason: _ } => {
                let _ = self.users.remove(client);
                assert(self@.users =~= before.users.remove(*client));
                false
            },
            _ => false,
        }
    }

    fn bits(&self, overwrites: Option<&[Overwrite]>) -> (p: Permissions)
        ensures
            p.0 == my_bits(
                self@,
                match overwrites {
                    Some(o) => Some(o@),
                    None => None,
                },
            ),
    {
        resolve(
            self.roles.as_slice(),
            self.my_roles.as_slice(),
            self.fingerprint,
            self.owner,
            overwrites,
        )
    }

    /// The full snapshot that the window keeps.
    pub fn my_permissions(&self) -> (r: MyPermissionsDto)
        ensures
            r.is_owner == self@.owner,
            r.is_admin == (my_bits(self@, None) & Permissions::ADMINISTRATOR
                == Permissions::ADMINISTRATOR),
            r.channels@.dom() == self@.channels.dom(),
            forall|id: ChannelId| #[trigger]
                self@.channels.contains_key(id) ==> r.channels@[id] == channel_permissions(
                    self@,
                    self@.channels[id],
                ),
    {
        broadcast use vstd::std_specs::btree::group_btree_axioms;

        let base = self.bits(None);
        let mut channels: BTreeMap<ChannelId, ChannelPermissionsDto> = BTreeMap::new();
        let mut ids: Vec<ChannelId> = Vec::new();
        for id in it: self.channels.keys()
            invariant
                it.seq().unref().to_set() == self.channels@.dom(),
                ids@.len() == it.index(),
                forall|i: int| 0 <= i < ids@.len() ==> ids@[i] == *it.seq()[i],
                it.index() == it.seq().len() ==> ids@ == it.seq().unref(),
        {
            ids.push(*id);
            assert(ids@.len() == it.seq().len() ==> ids@ =~= it.seq().unref());
        }
        assert(ids@.to_set() == self.channels@.dom());
        let mut i: usize = 0;
        while i < ids.len()
            invariant
                i <= ids@.len(),
                ids@.to_set() == self.channels@.dom(),
                channels@.dom() == ids@.take(i as int).to_set(),
                forall|id: ChannelId| #[trigger]
                    channels@.contains_key(id) ==> self@.channels.contains_key(id)
                        && channels@[id] == channel_permissions(self@, self@.channels[id]),
            decreases ids.len() - i,
        {
            broadcast use vstd::std_specs::btree::group_btree_axioms;

            let id: ChannelId = ids[i];
            let ghost before = channels@;
            proof {
                assert(ids@.to_set().contains(id));
                assert(self@.channels.contains_key(id));
                assert(ids@.take(i + 1) =~= ids@.take(i as int).push(id));
                assert(ids@.take(i + 1).to_set() =~= ids@.take(i as int).to_set().insert(id)) by {
                    let long = ids@.take(i + 1);
                    let short = ids@.take(i as int);
                    assert forall|c: ChannelId| #[trigger]
                        long.to_set().contains(c) <==> short.to_set().insert(id).contains(c) by {
                        if long.contains(c) {
                            let k = choose|k: int| 0 <= k < long.len() && long[k] == c;
                            if k < short.len() {
                                assert(short[k] == c);
                            }
                        }
                        if short.contains(c) {
                            let k = choose|k: int| 0 <= k < short.len() && short[k] == c;
                            assert(long[k] == c);
                        }
                        assert(long[long.len() - 1] == id);
                    }
                }
            }
            if let Some(channel) = self.channels.get(&id) {
                let bits = self.bits(Some(channel.overwrites.as_slice()));
                let dto = ChannelPermissionsDto {
                    send: bits.contains(Permissions(Permissions::SEND_MESSAGES)),
                    read_history: bits.contains(Permissions(Permissions::READ_HISTORY)),
                    connect: bits.contains(Permissions(Permissions::CONNECT)),
                    speak: bits.contains(Permissions(Permissions::SPEAK)),
                };
                assert(channel@ == self@.channels[id]);
                assert(dto == channel_permissions(self@, self@.channels[id]));
                let _ = channels.insert(id, dto);
                assert(channels@ == before.insert(id, dto));
            }
            i = i + 1;
        }
        proof {
            assert(ids@.take(i as int) =~= ids@);
            assert(self@.channels.dom() =~= self.channels@.dom());
        }
        MyPermissionsDto {
            is_owner: self.owner,
            is_admin: base.contains(Permissions(Permissions::ADMINISTRATOR)),
            channels,
        }
    }

    /// The role table as the window is shown it.
    pub fn roles_dto(&self) -> (r: Vec<RoleDto>)
        ensures
            r@.len() == self@.roles.len(),
            forall|i: int| 0 <= i < r@.len() ==> shows_role(#[trigger] r@[i], self@.roles[i]),
    {
        let mut r: Vec<RoleDto> = Vec::new();
        let mut i: usize = 0;
        while i < self.roles.len()
            invariant
                i <= self.roles@.len(),
                r@.len() == i,
                forall|k: int| 0 <= k < i ==> shows_role(#[trigger] r@[k], self.roles@[k]),
            decreases self.roles.len() - i,
        {
            let role = &self.roles[i];
            r.push(
                RoleDto {
                    id: role.id,
                    name: role.name.clone(),
                    color: role.color,
                    position: role.position,
                    permissions: role.permissions.0,
                },
            );
            i = i + 1;
        }
        r
    }

    /// Which moderation actions to offer against one member.
    pub fn moderation_options(&self, target: ClientId) -> (r: ModerationOptionsDto)
        ensures
            out_of_reach(self@, target) matches Some(why) ==> !r.can_kick && !r.can_ban
                && !r.can_mute && !r.can_move && (r.reason matches Some(s) && s@ == why),
            out_of_reach(self@, target) is None ==> {
                &&& r.can_kick == moderates(self@, Permissions::KICK_MEMBERS)
                &&& r.can_ban == moderates(self@, Permissions::BAN_MEMBERS)
                &&& r.can_mute == moderates(self@, Permissions::MUTE_MEMBERS)
                &&& r.can_move == moderates(self@, Permissions::MOVE_MEMBERS)
                &&& if r.can_kick || r.can_ban || r.can_mute || r.can_move {
                    r.reason is None
                } else {
                    r.reason matches Some(s) && s@ == "You have no moderation permissions here."@
                }
            },
    {
        broadcast use vstd::std_specs::btree::group_btree_axioms;

        let them = match self.users.get(&target) {
            Some(them) => them,
            None => {
                return nothing("They are no longer connected.");
            },
        };
        assert(them@ == self@.users[target]);
        if them.fingerprint == self.fingerprint {
            return nothing("That would be you.");
        }
        let outranked = can_act_on(
            self.roles.as_slice(),
            self.my_roles.as_slice(),
            self.owner,
            them.roles.as_slice(),
            them.owner,
        );
        if !outranked {
            return if them.owner {
                nothing("They own this server.")
            } else {
                nothing("Their highest role is not below yours.")
            };
        }
        let base = self.bits(None);
        let options = ModerationOptionsDto {
            can_kick: base.contains(Permissions(Permissions::KICK_MEMBERS)),
            can_ban: base.contains(Permissions(Permissions::BAN_MEMBERS)),
            can_mute: base.contains(Permissions(Permissions::MUTE_MEMBERS)),
            can_move: base.contains(Permissions(Permissions::MOVE_MEMBERS)),
            reason: None,
        };
        if !(options.can_kick || options.can_ban || options.can_mute || options.can_move) {
            return nothing("You have no moderation permissions here.");
        }
        options
    }
}

fn nothing(reason: &str) -> (r: ModerationOptionsDto)
    ensures
        !r.can_kick && !r.can_ban && !r.can_mute && !r.can_move,
        r.reason matches Some(s) && s@ == reason@,
{
    ModerationOptionsDto {
        can_kick: false,
        can_ban: false,
        can_mute: false,
        can_move: false,
        reason: Some(String::from_str(reason)),
    }
}

/// What an event about another member leaves alone: everything this member may
/// do.
pub proof fn law_only_my_own_grants_change_my_answer(v: MirrorView, user: UserInfo)
    requires
        identity::fingerprint_with(user.digest()) != v.fingerprint,
    ensures
        ({
            let w = folded(v, ClientEvent::UserUpdated(user));
            &&& !could_change(v, ClientEvent::UserUpdated(user))
            &&& w.owner == v.owner && w.roles == v.roles && w.my_roles == v.my_roles && w.channels
                == v.channels
            &&& forall|overwrites: Option<Seq<Overwrite>>|
                my_bits(w, overwrites) == my_bits(v, overwrites)
        }),
{
}

/// Whatever does not count as a change leaves every answer as it was.
pub proof fn law_no_change_means_the_same_answers(v: MirrorView, event: ClientEvent)
    requires
        !could_change(v, event),
    ensures
        folded(v, event).channels == v.channels,
        folded(v, event).owner == v.owner,
        forall|overwrites: Option<Seq<Overwrite>>|
            my_bits(folded(v, event), overwrites) == my_bits(v, overwrites),
{
}

/// Nobody is offered an action against the owner, against themselves, or
/// against someone who has left.
pub proof fn law_no_action_against_owner_or_self(v: MirrorView, target: ClientId)
    requires
        !v.users.contains_key(target) || v.users[target].owner || v.users[target].fingerprint
            == v.fingerprint,
    ensures
        out_of_reach(v, target) is Some,
{
}

/// At each position the sorted table holds the same roles as before, in the same
/// order.
pub proof fn law_sorting_keeps_the_order_of_equals(roles: Seq<Role>, position: u32)
    ensures
        by_position(roles).filter(|r: Role| r.position == position) == roles.filter(
            |r: Role| r.position == position,
        ),
    decreases roles.len(),
{
    reveal(Seq::filter);
    if roles.len() > 0 {
        let front = roles.drop_last();
        let role = roles.last();
        law_sorting_keeps_the_order_of_equals(front, position);
        law_roles_are_sorted(front);
        let sorted = by_position(front);
        let k = rank_of(sorted, role.position) as int;
        lemma_rank_splits(sorted, role.position);
        let at = |r: Role| r.position == position;
        let (low, high) = (sorted.take(k), sorted.skip(k));
        assert(by_position(roles) =~= low.push(role) + high);
        assert(sorted =~= low + high);
        Seq::filter_distributes_over_add(low.push(role), high, at);
        Seq::filter_distributes_over_add(low, high, at);
        assert(low.push(role).drop_last() =~= low);
        if role.position == position {
            lemma_none_at(high, position);
            assert(low.filter(at) + Seq::<Role>::empty() =~= low.filter(at));
            assert(low.push(role).filter(at) + Seq::<Role>::empty() =~= low.filter(at).push(role));
        }
    }
}

proof fn lemma_none_at(roles: Seq<Role>, position: u32)
    requires
        forall|i: int| 0 <= i < roles.len() ==> (#[trigger] roles[i]).position > position,
    ensures
        roles.filter(|r: Role| r.position == position) == Seq::<Role>::empty(),
    decreases roles.len(),
{
    reveal(Seq::filter);
    if roles.len() > 0 {
        let front = roles.drop_last();
        assert forall|i: int| 0 <= i < front.len() implies (#[trigger] front[i]).position
            > position by {
            assert(roles[i].position > position);
        }
        lemma_none_at(front, position);
        assert(roles[roles.len() - 1].position > position);
    }
}

/// Taking out a role, or a grant, takes out exactly those with its id and leaves
/// the others in order.
pub proof fn law_only_that_role_is_taken_out(roles: Seq<Role>, ids: Seq<RoleId>, id: RoleId)
    ensures
        roles_without(roles, id) == roles.filter(|r: Role| r.id != id),
        grants_without(ids, id) == ids.filter(|g: RoleId| g != id),
    decreases roles.len() + ids.len(),
{
    reveal(Seq::filter);
    if roles.len() > 0 {
        law_only_that_role_is_taken_out(roles.drop_last(), ids, id);
    } else if ids.len() > 0 {
        law_only_that_role_is_taken_out(roles, ids.drop_last(), id);
    }
    if roles.len() > 0 && ids.len() > 0 {
        law_only_that_role_is_taken_out(roles, ids.drop_last(), id);
    }
}

/// A role that was created or changed stands in the table as the event has it,
/// in place of one with its id; every other role stays, and so does everything
/// else.
pub proof fn law_a_role_event_sets_that_role(v: MirrorView, role: Role)
    ensures
        ({
            let w = folded(v, ClientEvent::RoleUpdated(role));
            &&& folded(v, ClientEvent::RoleCreated(role)) == w
            &&& w.roles == by_position(v.roles.filter(|r: Role| r.id != role.id).push(role))
            &&& w.fingerprint == v.fingerprint && w.owner == v.owner && w.my_roles == v.my_roles
                && w.channels == v.channels && w.users == v.users
        }),
{
    law_only_that_role_is_taken_out(v.roles, v.my_roles, role.id);
}

/// A deleted role leaves the table and this member's grants; nothing else
/// changes.
pub proof fn law_a_deleted_role_is_gone(v: MirrorView, id: RoleId)
    ensures
        ({
            let w = folded(v, ClientEvent::RoleDeleted { id });
            &&& w.roles == v.roles.filter(|r: Role| r.id != id)
            &&& w.my_roles == v.my_roles.filter(|g: RoleId| g != id)
            &&& w.fingerprint == v.fingerprint && w.owner == v.owner && w.channels == v.channels
                && w.users == v.users
        }),
{
    law_only_that_role_is_taken_out(v.roles, v.my_roles, id);
}

/// Whether a list of positions gives this one to a role: the last that it names
/// for it.
pub open spec fn gives(positions: Seq<(RoleId, u32)>, id: RoleId, position: u32) -> bool {
    exists|p: int|
        0 <= p < positions.len() && (#[trigger] positions[p]).0 == id && positions[p].1 == position
            && forall|q: int| p < q < positions.len() ==> (#[trigger] positions[q]).0 != id
}

/// Moving roles changes their positions and nothing else of them: a role gets
/// the position that the list gives it, and one that the list does not name
/// keeps its own.
pub proof fn law_a_reorder_moves_the_roles_named(
    roles: Seq<Role>,
    positions: Seq<(RoleId, u32)>,
    k: int,
)
    requires
        0 <= k < roles.len(),
        perms::names_role(roles, k),
    ensures
        ({
            let after = repositioned(roles, positions);
            let named = exists|p: int|
                0 <= p < positions.len() && (#[trigger] positions[p]).0 == roles[k].id;
            &&& after.len() == roles.len()
            &&& after[k].id == roles[k].id
            &&& after[k].name == roles[k].name
            &&& after[k].color == roles[k].color
            &&& after[k].permissions == roles[k].permissions
            &&& named ==> gives(positions, roles[k].id, after[k].position)
            &&& !named ==> after[k].position == roles[k].position
        }),
    decreases positions.len(),
{
    lemma_repositioned(roles, positions);
    if positions.len() > 0 {
        let front = positions.drop_last();
        let last = positions.last();
        let id = roles[k].id;
        law_a_reorder_moves_the_roles_named(roles, front, k);
        lemma_repositioned(roles, front);
        let before = repositioned(roles, front);
        assert(positions[positions.len() - 1] == last);
        assert forall|j: int| 0 <= j < before.len() implies (#[trigger] before[j]).id
            == roles[j].id by {}
        if last.0 == id {
            perms::lemma_role_index(before, id, k);
            assert(gives(positions, id, last.1));
        } else {
            perms::lemma_role_index_is_first(before, last.0);
            if exists|p: int| 0 <= p < positions.len() && (#[trigger] positions[p]).0 == id {
                let p = choose|p: int|
                    0 <= p < positions.len() && (#[trigger] positions[p]).0 == id;
                assert(front[p].0 == id);
                let at = before[k].position;
                let q = choose|q: int|
                    0 <= q < front.len() && (#[trigger] front[q]).0 == id && front[q].1 == at
                        && forall|z: int| q < z < front.len() ==> (#[trigger] front[z]).0 != id;
                assert(positions[q] == front[q]);
                assert forall|z: int| q < z < positions.len() implies (#[trigger] positions[z]).0
                    != id by {
                    if z < front.len() {
                        assert(front[z] == positions[z]);
                    }
                }
                assert(gives(positions, id, at));
            } else {
                assert forall|p: int| 0 <= p < front.len() implies (#[trigger] front[p]).0
                    != id by {
                    assert(positions[p] == front[p]);
                }
            }
        }
    }
}

proof fn lemma_repositioned(roles: Seq<Role>, positions: Seq<(RoleId, u32)>)
    ensures
        repositioned(roles, positions).len() == roles.len(),
        forall|j: int|
            0 <= j < roles.len() ==> (#[trigger] repositioned(roles, positions)[j]).id
                == roles[j].id,
    decreases positions.len(),
{
    if positions.len() > 0 {
        let front = positions.drop_last();
        lemma_repositioned(roles, front);
        perms::lemma_role_index_is_first(repositioned(roles, front), positions.last().0);
    }
}

/// A reorder moves the roles that it names, sorts the table again and leaves
/// everything else.
pub proof fn law_a_reorder_sorts_again(v: MirrorView, positions: Vec<(RoleId, u32)>)
    ensures
        ({
            let w = folded(v, ClientEvent::RolesReordered { positions });
            &&& w.roles == by_position(repositioned(v.roles, positions@))
            &&& w.fingerprint == v.fingerprint && w.owner == v.owner && w.my_roles == v.my_roles
                && w.channels == v.channels && w.users == v.users
        }),
{
}

/// A channel that was created or changed is mirrored as the event has it, one
/// that was removed is not mirrored any more; no other channel is touched, and
/// nothing else.
pub proof fn law_a_channel_event_sets_that_channel(
    v: MirrorView,
    channel: Channel,
    gone: ChannelId,
    other: ChannelId,
)
    ensures
        ({
            let w = folded(v, ClientEvent::ChannelUpdated(channel));
            let x = folded(v, ClientEvent::ChannelRemoved(gone));
            &&& folded(v, ClientEvent::ChannelCreated(channel)) == w
            &&& w.channels.contains_key(channel.id) && w.channels[channel.id] == channel@
            &&& other != channel.id ==> (w.channels.contains_key(other) <==> v.channels.contains_key(
                other,
            )) && (v.channels.contains_key(other) ==> w.channels[other] == v.channels[other])
            &&& !x.channels.contains_key(gone)
            &&& other != gone ==> (x.channels.contains_key(other) <==> v.channels.contains_key(
                other,
            )) && (v.channels.contains_key(other) ==> x.channels[other] == v.channels[other])
            &&& w.roles == v.roles && w.my_roles == v.my_roles && w.owner == v.owner && w.users
                == v.users && w.fingerprint == v.fingerprint
            &&& x.roles == v.roles && x.my_roles == v.my_roles && x.owner == v.owner && x.users
                == v.users && x.fingerprint == v.fingerprint
        }),
{
}

/// A user's record is kept under their id, with their identity, roles and
/// ownership; it sets this member's own grants exactly when it is their own. One
/// who leaves is forgotten, and nobody else.
pub proof fn law_a_user_event_sets_that_user(
    v: MirrorView,
    user: UserInfo,
    gone: ClientId,
    reason: proto::DisconnectReason,
    other: ClientId,
)
    ensures
        ({
            let w = folded(v, ClientEvent::UserUpdated(user));
            let x = folded(v, ClientEvent::UserLeft { client: gone, reason });
            let mine = identity::fingerprint_with(crypto::sha256_of(user.identity.key@))
                == v.fingerprint;
            &&& folded(v, ClientEvent::UserJoined(user)) == w
            &&& w.users.contains_key(user.client_id)
            &&& w.users[user.client_id].fingerprint == identity::fingerprint_with(
                crypto::sha256_of(user.identity.key@),
            )
            &&& w.users[user.client_id].roles == user.roles@
            &&& w.users[user.client_id].owner == user.owner
            &&& w.my_roles == if mine {
                user.roles@
            } else {
                v.my_roles
            }
            &&& w.owner == if mine {
                user.owner
            } else {
                v.owner
            }
            &&& other != user.client_id ==> (w.users.contains_key(other) <==> v.users.contains_key(
                other,
            )) && (v.users.contains_key(other) ==> w.users[other] == v.users[other])
            &&& w.roles == v.roles && w.channels == v.channels && w.fingerprint == v.fingerprint
            &&& !x.users.contains_key(gone)
            &&& other != gone ==> (x.users.contains_key(other) <==> v.users.contains_key(other))
                && (v.users.contains_key(other) ==> x.users[other] == v.users[other])
            &&& x.roles == v.roles && x.channels == v.channels && x.my_roles == v.my_roles
                && x.owner == v.owner && x.fingerprint == v.fingerprint
        }),
{
}

/// Events about anything else leave the mirror as it is.
pub proof fn law_other_events_leave_the_mirror(v: MirrorView, event: ClientEvent)
    requires
        !(event is ChannelCreated || event is ChannelUpdated || event is ChannelRemoved
            || event is RoleCreated || event is RoleUpdated || event is RoleDeleted
            || event is RolesReordered || event is UserJoined || event is UserUpdated
            || event is UserLeft),
    ensures
        folded(v, event) == v,
        !could_change(v, event),
{
}

/// The window is told again exactly when a channel or a role changed, or this
/// member's own grants or ownership did.
pub proof fn law_when_the_window_is_told_again(v: MirrorView, event: ClientEvent)
    ensures
        could_change(v, event) <==> {
            ||| event is ChannelCreated || event is ChannelUpdated || event is ChannelRemoved
            ||| event is RoleCreated || event is RoleUpdated || event is RoleDeleted
            ||| event is RolesReordered
            ||| folded(v, event).my_roles != v.my_roles || folded(v, event).owner != v.owner
        },
{
}

/// At the start, of several records under one id the last counts; this member's
/// own grants are those of the first user with this session's id.
pub proof fn law_what_a_session_starts_from(
    fingerprint: Fingerprint,
    client_id: ClientId,
    channels: Seq<Channel>,
    users: Seq<UserInfo>,
    roles: Seq<Role>,
    i: int,
)
    ensures
        ({
            let v = mirrored(fingerprint, client_id, channels, users, roles);
            &&& v.fingerprint == fingerprint
            &&& v.roles == roles
            &&& 0 <= i < channels.len() && (forall|j: int|
                i < j < channels.len() ==> (#[trigger] channels[j]).id != channels[i].id)
                ==> v.channels.contains_key(channels[i].id) && v.channels[channels[i].id]
                == channels[i]@
            &&& forall|id: ChannelId| #[trigger]
                v.channels.contains_key(id) ==> exists|j: int|
                    0 <= j < channels.len() && (#[trigger] channels[j]).id == id
            &&& 0 <= i < users.len() && (forall|j: int|
                i < j < users.len() ==> (#[trigger] users[j]).client_id != users[i].client_id)
                ==> v.users.contains_key(users[i].client_id) && v.users[users[i].client_id]
                == standing_of(users[i])
            &&& forall|id: ClientId| #[trigger]
                v.users.contains_key(id) ==> exists|j: int|
                    0 <= j < users.len() && (#[trigger] users[j]).client_id == id
            &&& 0 <= i < users.len() && users[i].client_id == client_id && (forall|j: int|
                0 <= j < i ==> (#[trigger] users[j]).client_id != client_id) ==> v.my_roles
                == users[i].roles@ && v.owner == users[i].owner
            &&& (forall|j: int|
                0 <= j < users.len() ==> (#[trigger] users[j]).client_id != client_id)
                ==> v.my_roles.len() == 0 && !v.owner
        }),
{
    lemma_channels_by_id(channels, i);
    lemma_users_by_id(users, i);
    if 0 <= i < users.len() && users[i].client_id == client_id && (forall|j: int|
        0 <= j < i ==> (#[trigger] users[j]).client_id != client_id) {
        lemma_user_index(users, client_id, i);
    }
    if forall|j: int| 0 <= j < users.len() ==> (#[trigger] users[j]).client_id != client_id {
        lemma_user_index(users, client_id, users.len() as int);
    }
}

proof fn lemma_channels_by_id(channels: Seq<Channel>, i: int)
    ensures
        0 <= i < channels.len() && (forall|j: int|
            i < j < channels.len() ==> (#[trigger] channels[j]).id != channels[i].id)
            ==> channels_by_id(channels).contains_key(channels[i].id) && channels_by_id(
            channels,
        )[channels[i].id] == channels[i]@,
        forall|id: ChannelId| #[trigger]
            channels_by_id(channels).contains_key(id) ==> exists|j: int|
                0 <= j < channels.len() && (#[trigger] channels[j]).id == id,
    decreases channels.len(),
{
    if channels.len() > 0 {
        let front = channels.drop_last();
        lemma_channels_by_id(front, i);
        assert(channels[channels.len() - 1] == channels.last());
        if 0 <= i < front.len() && (forall|j: int|
            i < j < channels.len() ==> (#[trigger] channels[j]).id != channels[i].id) {
            assert(channels[channels.len() - 1].id != channels[i].id);
            assert forall|j: int| i < j < front.len() implies (#[trigger] front[j]).id
                != front[i].id by {
                assert(channels[j].id != channels[i].id);
            }
        }
        assert forall|id: ChannelId| #[trigger]
            channels_by_id(channels).contains_key(id) implies exists|j: int|
            0 <= j < channels.len() && (#[trigger] channels[j]).id == id by {
            if channels_by_id(front).contains_key(id) {
                let j = choose|j: int| 0 <= j < front.len() && (#[trigger] front[j]).id == id;
                assert(channels[j].id == id);
            }
        }
    }
}

proof fn lemma_users_by_id(users: Seq<UserInfo>, i: int)
    ensures
        0 <= i < users.len() && (forall|j: int|
            i < j < users.len() ==> (#[trigger] users[j]).client_id != users[i].client_id)
            ==> users_by_id(users).contains_key(users[i].client_id) && users_by_id(
            users,
        )[users[i].client_id] == standing_of(users[i]),
        forall|id: ClientId| #[trigger]
            users_by_id(users).contains_key(id) ==> exists|j: int|
                0 <= j < users.len() && (#[trigger] users[j]).client_id == id,
    decreases users.len(),
{
    if users.len() > 0 {
        let front = users.drop_last();
        lemma_users_by_id(front, i);
        assert(users[users.len() - 1] == users.last());
        if 0 <= i < front.len() && (forall|j: int|
            i < j < users.len() ==> (#[trigger] users[j]).client_id != users[i].client_id) {
            assert(users[users.len() - 1].client_id != users[i].client_id);
            assert forall|j: int| i < j < front.len() implies (#[trigger] front[j]).client_id
                != front[i].client_id by {
                assert(users[j].client_id != users[i].client_id);
            }
        }
        assert forall|id: ClientId| #[trigger]
            users_by_id(users).contains_key(id) implies exists|j: int|
            0 <= j < users.len() && (#[trigger] users[j]).client_id == id by {
            if users_by_id(front).contains_key(id) {
                let j = choose|j: int|
                    0 <= j < front.len() && (#[trigger] front[j]).client_id == id;
                assert(users[j].client_id == id);
            }
        }
    }
}

/// What this member may do in a channel is what the permission rules leave them
/// there, each action by its own permission.
pub proof fn law_each_action_has_its_permission(v: MirrorView, channel: proto::ChannelView)
    ensures
        ({
            let bits = perms::resolved_bits(
                v.roles,
                v.my_roles,
                v.fingerprint,
                v.owner,
                Some(channel.overwrites),
            );
            let may = channel_permissions(v, channel);
            &&& may.send <==> perms::holds(bits, Permissions::SEND_MESSAGES)
            &&& may.read_history <==> perms::holds(bits, Permissions::READ_HISTORY)
            &&& may.connect <==> perms::holds(bits, Permissions::CONNECT)
            &&& may.speak <==> perms::holds(bits, Permissions::SPEAK)
        }),
{
}

/// Somebody is within reach exactly when they are connected, are not this member
/// and are outranked by them; what moderates them is what this member has
/// server-wide.
pub proof fn law_who_can_be_moderated(v: MirrorView, target: ClientId, bit: u64)
    ensures
        out_of_reach(v, target) is None <==> v.users.contains_key(target)
            && v.users[target].fingerprint != v.fingerprint && perms::outranks(
            v.roles,
            v.my_roles,
            v.owner,
            v.users[target].roles,
            v.users[target].owner,
        ),
        moderates(v, bit) <==> perms::holds(
            perms::resolved_bits(v.roles, v.my_roles, v.fingerprint, v.owner, None),
            bit,
        ),
        !v.users.contains_key(target) ==> out_of_reach(v, target) == Some(
            "They are no longer connected."@,
        ),
        v.users.contains_key(target) && v.users[target].fingerprint == v.fingerprint
            ==> out_of_reach(v, target) == Some("That would be you."@),
        v.users.contains_key(target) && v.users[target].fingerprint != v.fingerprint
            && out_of_reach(v, target) is Some ==> out_of_reach(v, target) == Some(
            if v.users[target].owner {
                "They own this server."@
            } else {
                "Their highest role is not below yours."@
            },
        ),
{
}

/// The window is shown a role as it is.
pub proof fn law_a_role_is_shown_as_it_is(d: RoleDto, role: Role)
    requires
        shows_role(d, role),
    ensures
        d.id == role.id && d.position == role.position && d.color == role.color,
        d.name@ == role.name@,
        d.permissions == role.permissions.0,
{
}

} // verus!
