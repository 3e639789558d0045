//! The permission model, shared by both ends of the wire.
//!
//! The server enforces with these functions and the client renders with them,
//! so the controls a client enables and the actions a server accepts cannot
//! drift apart.
//!
//! A member's base permissions are the union of their roles' bits on top of
//! @everyone; per-channel overwrites then deny and allow bits for roles and
//! for single members; an administrator sidesteps overwrites; the owner
//! sidesteps everything, including the hierarchy that administrators obey.

use crate::identity::Fingerprint;
use vstd::prelude::*;

verus! {

/// Stable identifier for a role. Never reused; 0 is @everyone.
pub type RoleId = u32;

/// The role every member holds implicitly, pinned at position 0.
pub const EVERYONE_ROLE_ID: RoleId = 0;

/// What a member may do, as a bitset.
///
/// Bit positions are wire format and storage format: a bit, once assigned,
/// keeps its position forever. Unknown bits are carried but never granted:
/// every check is for a named bit.
#[derive(Debug, Clone, Copy, PartialEq, Eq, Hash, Structural)]
pub struct Permissions(pub u64);

impl Permissions {
    /// Every permission everywhere, ignoring overwrites but not hierarchy.
    pub const ADMINISTRATOR: u64 = 1 << 0;

    /// Change server-wide settings.
    pub const MANAGE_SERVER: u64 = 1 << 1;

    /// Create, edit, delete, reorder, grant and revoke roles below your own;
    /// edit channel overwrites.
    pub const MANAGE_ROLES: u64 = 1 << 2;

    /// Create, edit, delete and reorder channels.
    pub const MANAGE_CHANNELS: u64 = 1 << 3;

    pub const KICK_MEMBERS: u64 = 1 << 4;

    pub const BAN_MEMBERS: u64 = 1 << 5;

    /// See the channel and receive its traffic. Without it a channel grants
    /// nothing.
    pub const VIEW_CHANNEL: u64 = 1 << 16;

    pub const SEND_MESSAGES: u64 = 1 << 17;

    pub const READ_HISTORY: u64 = 1 << 18;

    /// Delete other people's messages.
    pub const MANAGE_MESSAGES: u64 = 1 << 19;

    /// Enter a voice channel.
    pub const CONNECT: u64 = 1 << 20;

    /// Transmit voice once connected. Not required to enter.
    pub const SPEAK: u64 = 1 << 21;

    /// Server-mute and server-unmute members.
    pub const MUTE_MEMBERS: u64 = 1 << 22;

    /// Move members between voice channels, or pull them out of one.
    pub const MOVE_MEMBERS: u64 = 1 << 23;

    /// The bits a channel overwrite may allow or deny.
    pub const CHANNEL_SCOPED: u64 = Self::VIEW_CHANNEL | Self::SEND_MESSAGES | Self::READ_HISTORY
        | Self::MANAGE_MESSAGES | Self::CONNECT | Self::SPEAK | Self::MUTE_MEMBERS
        | Self::MOVE_MEMBERS;

    /// Every permission known here. Bit 63 stays out, so a mask always fits a
    /// signed column.
    pub const ALL: u64 = Self::ADMINISTRATOR | Self::MANAGE_SERVER | Self::MANAGE_ROLES
        | Self::MANAGE_CHANNELS | Self::KICK_MEMBERS | Self::BAN_MEMBERS | Self::CHANNEL_SCOPED;

    pub const NONE: u64 = 0;

    /// What @everyone can do on a fresh server.
    pub const DEFAULT_EVERYONE: u64 = Self::VIEW_CHANNEL | Self::SEND_MESSAGES | Self::READ_HISTORY
        | Self::CONNECT | Self::SPEAK;

    /// Whether every bit of `bits` is held.
    pub fn contains(self, bits: Self) -> (r: bool)
        ensures
            r == (self.0 & bits.0 == bits.0),
    {
        self.0 & bits.0 == bits.0
    }

    /// The bits of either.
    pub fn union(self, bits: Self) -> (r: Self)
        ensures
            r.0 == self.0 | bits.0,
    {
        Permissions(self.0 | bits.0)
    }

    /// The bits of this one that the other lacks.
    pub fn without(self, bits: Self) -> (r: Self)
        ensures
            r.0 == self.0 & !bits.0,
    {
        Permissions(self.0 & !bits.0)
    }

    /// The bits of both.
    pub fn intersect(self, bits: Self) -> (r: Self)
        ensures
            r.0 == self.0 & bits.0,
    {
        Permissions(self.0 & bits.0)
    }

    /// Whether no bit is held.
    pub fn is_empty(self) -> (r: bool)
        ensures
            r == (self.0 == 0),
    {
        self.0 == 0
    }
}

impl Default for Permissions {
    fn default() -> (r: Self)
        ensures
            r.0 == 0,
    {
        Permissions(0)
    }
}

/// A named bundle of permissions with a place in the hierarchy.
#[derive(Debug, PartialEq, Eq)]
pub struct Role {
    pub id: RoleId,
    pub name: String,
    /// `0xRRGGBB`, or `None` for the default.
    pub color: Option<u32>,
    /// Higher outranks.
    pub position: u32,
    pub permissions: Permissions,
}

impl Clone for Role {
    fn clone(&self) -> (r: Self)
        ensures
            r == *self,
    {
        Role {
            id: self.id,
            name: self.name.clone(),
            color: self.color,
            position: self.position,
            permissions: self.permissions,
        }
    }
}

/// One channel's exception for one role or one member.
#[derive(Debug, Clone, Copy, PartialEq, Eq)]
pub struct Overwrite {
    pub target: OverwriteTarget,
    pub allow: Permissions,
    pub deny: Permissions,
}

/// Who an overwrite applies to.
#[derive(Debug, Clone, Copy, PartialEq, Eq)]
pub enum OverwriteTarget {
    Role(RoleId),
    Member(Fingerprint),
}

/// The place of the first role with this id, or the number of roles.
pub open spec fn role_index(roles: Seq<Role>, id: RoleId) -> int
    decreases roles.len(),
{
    if roles.len() == 0 || roles[0].id == id {
        0
    } else {
        1 + role_index(roles.skip(1), id)
    }
}

/// The first role with this id.
pub open spec fn role_with_id(roles: Seq<Role>, id: RoleId) -> Option<Role> {
    let i = role_index(roles, id);
    if i < roles.len() {
        Some(roles[i])
    } else {
        None
    }
}

/// The bits of a role; none if there is no such role.
pub open spec fn role_bits(roles: Seq<Role>, id: RoleId) -> u64 {
    match role_with_id(roles, id) {
        Some(role) => role.permissions.0,
        None => 0,
    }
}

/// The bits of all these roles together.
pub open spec fn union_bits(roles: Seq<Role>, ids: Seq<RoleId>) -> u64
    decreases ids.len(),
{
    if ids.len() == 0 {
        0
    } else {
        union_bits(roles, ids.drop_last()) | role_bits(roles, ids.last())
    }
}

/// What a member holds server-wide: @everyone plus the explicit roles.
pub open spec fn base_bits(roles: Seq<Role>, member_roles: Seq<RoleId>) -> u64 {
    role_bits(roles, EVERYONE_ROLE_ID) | union_bits(roles, member_roles)
}

/// The place of the first overwrite for this target, or the number of them.
pub open spec fn overwrite_index(overwrites: Seq<Overwrite>, target: OverwriteTarget) -> int
    decreases overwrites.len(),
{
    if overwrites.len() == 0 || overwrites[0].target == target {
        0
    } else {
        1 + overwrite_index(overwrites.skip(1), target)
    }
}

/// What the first overwrite for this target denies, of the bits it may touch.
pub open spec fn denied_for(overwrites: Seq<Overwrite>, target: OverwriteTarget) -> u64 {
    let i = overwrite_index(overwrites, target);
    if i < overwrites.len() {
        overwrites[i].deny.0 & Permissions::CHANNEL_SCOPED
    } else {
        0
    }
}

/// What the first overwrite for this target allows, of the bits it may touch.
pub open spec fn allowed_for(overwrites: Seq<Overwrite>, target: OverwriteTarget) -> u64 {
    let i = overwrite_index(overwrites, target);
    if i < overwrites.len() {
        overwrites[i].allow.0 & Permissions::CHANNEL_SCOPED
    } else {
        0
    }
}

/// What the overwrite of a role denies; nothing for a role that does not exist.
pub open spec fn denied_for_role(
    roles: Seq<Role>,
    overwrites: Seq<Overwrite>,
    id: RoleId,
) -> u64 {
    if role_with_id(roles, id) is None {
        0
    } else {
        denied_for(overwrites, OverwriteTarget::Role(id))
    }
}

/// What the overwrite of a role allows; nothing for a role that does not exist.
pub open spec fn allowed_for_role(
    roles: Seq<Role>,
    overwrites: Seq<Overwrite>,
    id: RoleId,
) -> u64 {
    if role_with_id(roles, id) is None {
        0
    } else {
        allowed_for(overwrites, OverwriteTarget::Role(id))
    }
}

/// What the overwrites of any of these roles deny. Ids of deleted roles are
/// skipped.
pub open spec fn denied_for_roles(
    roles: Seq<Role>,
    overwrites: Seq<Overwrite>,
    ids: Seq<RoleId>,
) -> u64
    decreases ids.len(),
{
    if ids.len() == 0 {
        0
    } else {
        denied_for_roles(roles, overwrites, ids.drop_last()) | denied_for_role(
            roles,
            overwrites,
            ids.last(),
        )
    }
}

/// What the overwrites of any of these roles allow. Ids of deleted roles are
/// skipped.
pub open spec fn allowed_for_roles(
    roles: Seq<Role>,
    overwrites: Seq<Overwrite>,
    ids: Seq<RoleId>,
) -> u64
    decreases ids.len(),
{
    if ids.len() == 0 {
        0
    } else {
        allowed_for_roles(roles, overwrites, ids.drop_last()) | allowed_for_role(
            roles,
            overwrites,
            ids.last(),
        )
    }
}

/// Bits after a deny and then an allow.
pub open spec fn adjusted(bits: u64, denied: u64, allowed: u64) -> u64 {
    (bits & !denied) | allowed
}

/// What a member's base becomes in a channel, before visibility is looked at:
/// the @everyone overwrite, then the overwrites of all held roles at once,
/// then the member's own.
pub open spec fn channel_bits(
    roles: Seq<Role>,
    base: u64,
    member_roles: Seq<RoleId>,
    member: Fingerprint,
    overwrites: Seq<Overwrite>,
) -> u64 {
    let everyone = OverwriteTarget::Role(EVERYONE_ROLE_ID);
    let own = OverwriteTarget::Member(member);
    let after_everyone = adjusted(
        base,
        denied_for(overwrites, everyone),
        allowed_for(overwrites, everyone),
    );
    let after_roles = adjusted(
        after_everyone,
        denied_for_roles(roles, overwrites, member_roles),
        allowed_for_roles(roles, overwrites, member_roles),
    );
    adjusted(after_roles, denied_for(overwrites, own), allowed_for(overwrites, own))
}

/// The permissions of a member, server-wide or inside one channel.
pub open spec fn resolved_bits(
    roles: Seq<Role>,
    member_roles: Seq<RoleId>,
    member: Fingerprint,
    owner: bool,
    channel_overwrites: Option<Seq<Overwrite>>,
) -> u64 {
    let base = base_bits(roles, member_roles);
    if owner || base & Permissions::ADMINISTRATOR == Permissions::ADMINISTRATOR {
        Permissions::ALL
    } else {
        match channel_overwrites {
            None => base,
            Some(overwrites) => {
                let bits = channel_bits(roles, base, member_roles, member, overwrites);
                if bits & Permissions::VIEW_CHANNEL == Permissions::VIEW_CHANNEL {
                    bits
                } else {
                    Permissions::NONE
                }
            },
        }
    }
}

/// A place found by looking at the roles one by one.
pub proof fn lemma_role_index(roles: Seq<Role>, id: RoleId, i: int)
    requires
        0 <= i <= roles.len(),
        forall|k: int| 0 <= k < i ==> roles[k].id != id,
        i < roles.len() ==> roles[i].id == id,
    ensures
        role_index(roles, id) == i,
    decreases roles.len(),
{
    if i > 0 {
        lemma_role_index(roles.skip(1), id, i - 1);
    }
}

proof fn lemma_overwrite_index(overwrites: Seq<Overwrite>, target: OverwriteTarget, i: int)
    requires
        0 <= i <= overwrites.len(),
        forall|k: int| 0 <= k < i ==> overwrites[k].target != target,
        i < overwrites.len() ==> overwrites[i].target == target,
    ensures
        overwrite_index(overwrites, target) == i,
    decreases overwrites.len(),
{
    if i > 0 {
        lemma_overwrite_index(overwrites.skip(1), target, i - 1);
    }
}

/// Finds the first role with an id.
pub fn find_role(roles: &[Role], id: RoleId) -> (r: Option<&Role>)
    ensures
        match r {
            Some(role) => role_with_id(roles@, id) == Some(*role),
            None => role_with_id(roles@, id) is None,
        },
{
    let mut i: usize = 0;
    while i < roles.len()
        invariant
            i <= roles@.len(),
            forall|k: int| 0 <= k < i ==> roles@[k].id != id,
        decreases roles@.len() - i,
    {
        if roles[i].id == id {
            proof {
                lemma_role_index(roles@, id, i as int);
            }
            return Some(&roles[i]);
        }
        i += 1;
    }
    proof {
        lemma_role_index(roles@, id, i as int);
    }
    None
}

/// The permissions of a role; none if it does not exist.
pub fn role_permissions(roles: &[Role], id: RoleId) -> (r: Permissions)
    ensures
        r.0 == role_bits(roles@, id),
{
    match find_role(roles, id) {
        Some(role) => role.permissions,
        None => Permissions(Permissions::NONE),
    }
}

/// Whether two targets are the same.
pub fn same_target(a: OverwriteTarget, b: OverwriteTarget) -> (r: bool)
    ensures
        r == (a == b),
{
    match (a, b) {
        (OverwriteTarget::Role(x), OverwriteTarget::Role(y)) => x == y,
        (OverwriteTarget::Member(x), OverwriteTarget::Member(y)) => x == y,
        _ => false,
    }
}

/// The first overwrite for a target.
fn overwrite_for(overwrites: &[Overwrite], target: OverwriteTarget) -> (r: Option<&Overwrite>)
    ensures
        match r {
            Some(ow) => {
                let i = overwrite_index(overwrites@, target);
                i < overwrites@.len() && *ow == overwrites@[i]
            },
            None => overwrite_index(overwrites@, target) >= overwrites@.len(),
        },
{
    let mut i: usize = 0;
    while i < overwrites.len()
        invariant
            i <= overwrites@.len(),
            forall|k: int| 0 <= k < i ==> overwrites@[k].target != target,
        decreases overwrites@.len() - i,
    {
        if same_target(overwrites[i].target, target) {
            proof {
                lemma_overwrite_index(overwrites@, target, i as int);
            }
            return Some(&overwrites[i]);
        }
        i += 1;
    }
    proof {
        lemma_overwrite_index(overwrites@, target, i as int);
    }
    None
}

/// The first overwrite for a role.
pub fn overwrite_for_role(overwrites: &[Overwrite], id: RoleId) -> (r: Option<&Overwrite>)
    ensures
        match r {
            Some(ow) => {
                let i = overwrite_index(overwrites@, OverwriteTarget::Role(id));
                i < overwrites@.len() && *ow == overwrites@[i]
            },
            None => overwrite_index(overwrites@, OverwriteTarget::Role(id)) >= overwrites@.len(),
        },
{
    overwrite_for(overwrites, OverwriteTarget::Role(id))
}

/// The first overwrite for a member.
pub fn overwrite_for_member(overwrites: &[Overwrite], member: Fingerprint) -> (r: Option<&Overwrite>)
    ensures
        match r {
            Some(ow) => {
                let i = overwrite_index(overwrites@, OverwriteTarget::Member(member));
                i < overwrites@.len() && *ow == overwrites@[i]
            },
            None => overwrite_index(overwrites@, OverwriteTarget::Member(member))
                >= overwrites@.len(),
        },
{
    overwrite_for(overwrites, OverwriteTarget::Member(member))
}

proof fn lemma_mask_of_union(a: u64, b: u64, mask: u64)
    ensures
        (a | b) & mask == (a & mask) | (b & mask),
        0u64 & mask == 0,
        a & !0u64 == a,
        a | 0u64 == a,
        0u64 | a == a,
{
    assert((a | b) & mask == (a & mask) | (b & mask)) by (bit_vector);
    assert(0u64 & mask == 0) by (bit_vector);
    assert(a & !0u64 == a) by (bit_vector);
    assert(a | 0u64 == a) by (bit_vector);
    assert(0u64 | a == a) by (bit_vector);
}

/// The permissions `member` holds: server-wide when `channel_overwrites` is
/// `None`, or inside the channel whose overwrites it carries.
///
/// `roles` is every server role, @everyone included; `member_roles` the
/// member's explicit grants. Ids naming deleted roles are skipped, so deleting
/// a role demotes its holders.
pub fn resolve(
    roles: &[Role],
    member_roles: &[RoleId],
    member: Fingerprint,
    owner: bool,
    channel_overwrites: Option<&[Overwrite]>,
) -> (r: Permissions)
    ensures
        r.0 == resolved_bits(
            roles@,
            member_roles@,
            member,
            owner,
            match channel_overwrites {
                Some(overwrites) => Some(overwrites@),
                None => None,
            },
        ),
{
    if owner {
        return Permissions(Permissions::ALL);
    }
    let everyone: Permissions = role_permissions(roles, EVERYONE_ROLE_ID);
    let mut held: Permissions = Permissions(Permissions::NONE);
    let mut i: usize = 0;
    while i < member_roles.len()
        invariant
            i <= member_roles@.len(),
            held.0 == union_bits(roles@, member_roles@.take(i as int)),
        decreases member_roles@.len() - i,
    {
        held = held.union(role_permissions(roles, member_roles[i]));
        proof {
            assert(member_roles@.take(i + 1).drop_last() =~= member_roles@.take(i as int));
        }
        i += 1;
    }
    assert(member_roles@.take(i as int) =~= member_roles@);
    let base: Permissions = everyone.union(held);
    if base.contains(Permissions(Permissions::ADMINISTRATOR)) {
        return Permissions(Permissions::ALL);
    }
    let overwrites: &[Overwrite] = match channel_overwrites {
        Some(overwrites) => overwrites,
        None => {
            return base;
        },
    };
    let scope: Permissions = Permissions(Permissions::CHANNEL_SCOPED);
    let mut perms: Permissions = base;
    proof {
        lemma_mask_of_union(base.0, 0, scope.0);
    }
    if let Some(ow) = overwrite_for_role(overwrites, EVERYONE_ROLE_ID) {
        perms = perms.without(ow.deny.intersect(scope)).union(ow.allow.intersect(scope));
    }
    let ghost after_everyone = perms.0;
    let mut denies: Permissions = Permissions(Permissions::NONE);
    let mut allows: Permissions = Permissions(Permissions::NONE);
    let mut j: usize = 0;
    while j < member_roles.len()
        invariant
            j <= member_roles@.len(),
            scope.0 == Permissions::CHANNEL_SCOPED,
            denies.0 & scope.0 == denied_for_roles(roles@, overwrites@, member_roles@.take(j as int)),
            allows.0 & scope.0 == allowed_for_roles(roles@, overwrites@, member_roles@.take(j as int)),
        decreases member_roles@.len() - j,
    {
        proof {
            assert(member_roles@.take(j + 1).drop_last() =~= member_roles@.take(j as int));
            lemma_mask_of_union(denies.0 & scope.0, 0, scope.0);
            lemma_mask_of_union(allows.0 & scope.0, 0, scope.0);
        }
        if find_role(roles, member_roles[j]).is_some() {
            if let Some(ow) = overwrite_for_role(overwrites, member_roles[j]) {
                proof {
                    lemma_mask_of_union(denies.0, ow.deny.0, scope.0);
                    lemma_mask_of_union(allows.0, ow.allow.0, scope.0);
                }
                denies = denies.union(ow.deny);
                allows = allows.union(ow.allow);
            }
        }
        j += 1;
    }
    assert(member_roles@.take(j as int) =~= member_roles@);
    perms = perms.without(denies.intersect(scope)).union(allows.intersect(scope));
    proof {
        lemma_mask_of_union(perms.0, 0, scope.0);
    }
    if let Some(ow) = overwrite_for_member(overwrites, member) {
        perms = perms.without(ow.deny.intersect(scope)).union(ow.allow.intersect(scope));
    }
    if !perms.contains(Permissions(Permissions::VIEW_CHANNEL)) {
        return Permissions(Permissions::NONE);
    }
    perms
}

/// The most senior position among the roles that exist, or 0.
pub open spec fn top_position(roles: Seq<Role>, ids: Seq<RoleId>) -> u32
    decreases ids.len(),
{
    if ids.len() == 0 {
        0
    } else {
        let before = top_position(roles, ids.drop_last());
        match role_with_id(roles, ids.last()) {
            Some(role) if role.position > before => role.position,
            _ => before,
        }
    }
}

/// The member's most senior role position: 0 with no roles, since @everyone
/// sits at 0.
pub fn top_role_position(roles: &[Role], member_roles: &[RoleId]) -> (r: u32)
    ensures
        r == top_position(roles@, member_roles@),
{
    let mut top: u32 = 0;
    let mut i: usize = 0;
    while i < member_roles.len()
        invariant
            i <= member_roles@.len(),
            top == top_position(roles@, member_roles@.take(i as int)),
        decreases member_roles@.len() - i,
    {
        proof {
            assert(member_roles@.take(i + 1).drop_last() =~= member_roles@.take(i as int));
        }
        if let Some(role) = find_role(roles, member_roles[i]) {
            if role.position > top {
                top = role.position;
            }
        }
        i += 1;
    }
    assert(member_roles@.take(i as int) =~= member_roles@);
    top
}

/// Whether rank lets an actor act on a target.
pub open spec fn outranks(
    roles: Seq<Role>,
    actor_roles: Seq<RoleId>,
    actor_owner: bool,
    target_roles: Seq<RoleId>,
    target_owner: bool,
) -> bool {
    !target_owner && (actor_owner || top_position(roles, actor_roles) > top_position(
        roles,
        target_roles,
    ))
}

/// May the actor kick, ban, server-mute or move the target, by rank alone?
///
/// An administrator does not bypass this. The owner does and is immune. Equal
/// top positions block in both directions.
pub fn can_act_on(
    roles: &[Role],
    actor_roles: &[RoleId],
    actor_owner: bool,
    target_roles: &[RoleId],
    target_owner: bool,
) -> (r: bool)
    ensures
        r == outranks(roles@, actor_roles@, actor_owner, target_roles@, target_owner),
{
    if target_owner {
        return false;
    }
    if actor_owner {
        return true;
    }
    top_role_position(roles, actor_roles) > top_role_position(roles, target_roles)
}

/// Whether rank puts a role within an actor's reach.
pub open spec fn reaches_role(
    roles: Seq<Role>,
    actor_roles: Seq<RoleId>,
    actor_owner: bool,
    role: RoleId,
) -> bool {
    actor_owner || (match role_with_id(roles, role) {
        Some(target) => target.position < top_position(roles, actor_roles),
        None => false,
    })
}

/// May the actor create at, edit, delete, grant or revoke this role, by rank
/// alone? Only strictly below their own top position. What counts is the role
/// being granted, not the rank of whoever receives it.
pub fn can_manage_role(
    roles: &[Role],
    actor_roles: &[RoleId],
    actor_owner: bool,
    role: RoleId,
) -> (r: bool)
    ensures
        r == reaches_role(roles@, actor_roles@, actor_owner, role),
{
    if actor_owner {
        return true;
    }
    match find_role(roles, role) {
        Some(target) => target.position < top_role_position(roles, actor_roles),
        None => false,
    }
}

/// Whether every bit of `part` is in `whole`.
pub open spec fn within(part: u64, whole: u64) -> bool {
    part & !whole == 0
}

proof fn lemma_within(a: u64, b: u64, c: u64)
    ensures
        within(a, a | b),
        within(b, a | b),
        within(a, c) && within(b, c) ==> within(a | b, c),
        within(a, b) && within(b, c) ==> within(a, c),
        within(a, b) && within(b, a) ==> a == b,
        within(a & b, b),
        within(0, a),
{
    assert(a & !(a | b) == 0) by (bit_vector);
    assert(b & !(a | b) == 0) by (bit_vector);
    assert(a & !c == 0 && b & !c == 0 ==> (a | b) & !c == 0) by (bit_vector);
    assert(a & !b == 0 && b & !c == 0 ==> a & !c == 0) by (bit_vector);
    assert(a & !b == 0 && b & !a == 0 ==> a == b) by (bit_vector);
    assert((a & b) & !b == 0) by (bit_vector);
    assert(0u64 & !a == 0) by (bit_vector);
}

proof fn lemma_unions_are_least(
    roles: Seq<Role>,
    overwrites: Seq<Overwrite>,
    some: Seq<RoleId>,
    more: Seq<RoleId>,
)
    requires
        forall|i: int| 0 <= i < some.len() ==> more.contains(#[trigger] some[i]),
    ensures
        within(union_bits(roles, some), union_bits(roles, more)),
        within(denied_for_roles(roles, overwrites, some), denied_for_roles(roles, overwrites, more)),
        within(allowed_for_roles(roles, overwrites, some), allowed_for_roles(roles, overwrites, more)),
    decreases some.len(),
{
    if some.len() == 0 {
        lemma_within(union_bits(roles, more), 0, 0);
        lemma_within(denied_for_roles(roles, overwrites, more), 0, 0);
        lemma_within(allowed_for_roles(roles, overwrites, more), 0, 0);
    } else {
        assert forall|i: int| 0 <= i < some.drop_last().len() implies more.contains(
            #[trigger] some.drop_last()[i],
        ) by {
            assert(more.contains(some[i]));
        }
        lemma_unions_are_least(roles, overwrites, some.drop_last(), more);
        assert(more.contains(some[some.len() - 1]));
        let at = choose|at: int| 0 <= at < more.len() && more[at] == some.last();
        lemma_member_is_within(roles, overwrites, more, at);
        lemma_within(
            union_bits(roles, some.drop_last()),
            role_bits(roles, some.last()),
            union_bits(roles, more),
        );
        lemma_within(
            denied_for_roles(roles, overwrites, some.drop_last()),
            denied_for_role(roles, overwrites, some.last()),
            denied_for_roles(roles, overwrites, more),
        );
        lemma_within(
            allowed_for_roles(roles, overwrites, some.drop_last()),
            allowed_for_role(roles, overwrites, some.last()),
            allowed_for_roles(roles, overwrites, more),
        );
    }
}

proof fn lemma_member_is_within(
    roles: Seq<Role>,
    overwrites: Seq<Overwrite>,
    ids: Seq<RoleId>,
    at: int,
)
    requires
        0 <= at < ids.len(),
    ensures
        within(role_bits(roles, ids[at]), union_bits(roles, ids)),
        within(
            denied_for_role(roles, overwrites, ids[at]),
            denied_for_roles(roles, overwrites, ids),
        ),
        within(
            allowed_for_role(roles, overwrites, ids[at]),
            allowed_for_roles(roles, overwrites, ids),
        ),
    decreases ids.len(),
{
    let (id, last) = (ids[at], ids.last());
    let front = ids.drop_last();
    lemma_within(union_bits(roles, front), role_bits(roles, last), 0);
    lemma_within(
        denied_for_roles(roles, overwrites, front),
        denied_for_role(roles, overwrites, last),
        0,
    );
    lemma_within(
        allowed_for_roles(roles, overwrites, front),
        allowed_for_role(roles, overwrites, last),
        0,
    );
    if at < ids.len() - 1 {
        lemma_member_is_within(roles, overwrites, front, at);
        lemma_within(
            role_bits(roles, ids[at]),
            union_bits(roles, front),
            union_bits(roles, ids),
        );
        lemma_within(
            denied_for_role(roles, overwrites, id),
            denied_for_roles(roles, overwrites, front),
            denied_for_roles(roles, overwrites, ids),
        );
        lemma_within(
            allowed_for_role(roles, overwrites, id),
            allowed_for_roles(roles, overwrites, front),
            allowed_for_roles(roles, overwrites, ids),
        );
    }
}

/// The owner, and whoever holds the administrator bit through @everyone or any
/// role, resolve to every permission, whatever the overwrites.
pub proof fn law_owner_and_administrator_hold_everything(
    roles: Seq<Role>,
    member_roles: Seq<RoleId>,
    member: Fingerprint,
    owner: bool,
    overwrites: Option<Seq<Overwrite>>,
    id: RoleId,
)
    requires
        owner || ((id == EVERYONE_ROLE_ID || member_roles.contains(id)) && within(
            Permissions::ADMINISTRATOR,
            role_bits(roles, id),
        )),
    ensures
        resolved_bits(roles, member_roles, member, owner, overwrites) == Permissions::ALL,
{
    if !owner {
        let base = base_bits(roles, member_roles);
        let everyone = role_bits(roles, EVERYONE_ROLE_ID);
        let held = union_bits(roles, member_roles);
        lemma_within(everyone, held, 0);
        if member_roles.contains(id) {
            let at = choose|at: int| 0 <= at < member_roles.len() && member_roles[at] == id;
            lemma_member_is_within(roles, Seq::empty(), member_roles, at);
            lemma_within(role_bits(roles, id), held, base);
        }
        lemma_within(Permissions::ADMINISTRATOR, role_bits(roles, id), base);
        assert(base & 1 == 1) by (bit_vector)
            requires
                (1u64 << 0) & !base == 0,
        ;
        assert(1u64 << 0 == 1) by (bit_vector);
    }
}

/// Overwrites reach the channel-scoped bits alone. Outside them a channel that
/// the member can see leaves the base as it is: it mints no server-wide power,
/// and strips none.
pub proof fn law_overwrites_stay_in_scope(
    roles: Seq<Role>,
    member_roles: Seq<RoleId>,
    member: Fingerprint,
    overwrites: Seq<Overwrite>,
)
    requires
        base_bits(roles, member_roles) & Permissions::ADMINISTRATOR != Permissions::ADMINISTRATOR,
    ensures
        ({
            let r = resolved_bits(roles, member_roles, member, false, Some(overwrites));
            let base = base_bits(roles, member_roles);
            &&& r == Permissions::NONE || r & !Permissions::CHANNEL_SCOPED == base
                & !Permissions::CHANNEL_SCOPED
            &&& within(r, base | Permissions::CHANNEL_SCOPED)
        }),
{
    let base = base_bits(roles, member_roles);
    let scope = Permissions::CHANNEL_SCOPED;
    lemma_overwrites_in_scope(roles, overwrites, member_roles);
    let a1 = allowed_for(overwrites, OverwriteTarget::Role(EVERYONE_ROLE_ID));
    let d1 = denied_for(overwrites, OverwriteTarget::Role(EVERYONE_ROLE_ID));
    let a2 = allowed_for_roles(roles, overwrites, member_roles);
    let d2 = denied_for_roles(roles, overwrites, member_roles);
    let a3 = allowed_for(overwrites, OverwriteTarget::Member(member));
    let d3 = denied_for(overwrites, OverwriteTarget::Member(member));
    let bits = ((((((base & !d1) | a1) & !d2) | a2) & !d3) | a3);
    assert(((((((base & !d1) | a1) & !d2) | a2) & !d3) | a3) & !scope == base & !scope)
        by (bit_vector)
        requires
            a1 & !scope == 0,
            a2 & !scope == 0,
            a3 & !scope == 0,
            d1 & !scope == 0,
            d2 & !scope == 0,
            d3 & !scope == 0,
    ;
    assert(bits & !scope == base & !scope ==> bits & !(base | scope) == 0) by (bit_vector);
    lemma_within(base | scope, 0, 0);
}

proof fn lemma_overwrites_in_scope(
    roles: Seq<Role>,
    overwrites: Seq<Overwrite>,
    ids: Seq<RoleId>,
)
    ensures
        within(allowed_for_roles(roles, overwrites, ids), Permissions::CHANNEL_SCOPED),
        within(denied_for_roles(roles, overwrites, ids), Permissions::CHANNEL_SCOPED),
        forall|t: OverwriteTarget|
            within(#[trigger] allowed_for(overwrites, t), Permissions::CHANNEL_SCOPED),
        forall|t: OverwriteTarget|
            within(#[trigger] denied_for(overwrites, t), Permissions::CHANNEL_SCOPED),
    decreases ids.len(),
{
    let scope = Permissions::CHANNEL_SCOPED;
    lemma_within(scope, 0, 0);
    assert forall|t: OverwriteTarget| within(#[trigger] allowed_for(overwrites, t), scope) by {
        let i = overwrite_index(overwrites, t);
        if i < overwrites.len() {
            lemma_within(overwrites[i].allow.0, scope, 0);
        }
    }
    assert forall|t: OverwriteTarget| within(#[trigger] denied_for(overwrites, t), scope) by {
        let i = overwrite_index(overwrites, t);
        if i < overwrites.len() {
            lemma_within(overwrites[i].deny.0, scope, 0);
        }
    }
    if ids.len() > 0 {
        lemma_overwrites_in_scope(roles, overwrites, ids.drop_last());
        lemma_within(
            allowed_for_roles(roles, overwrites, ids.drop_last()),
            allowed_for_role(roles, overwrites, ids.last()),
            scope,
        );
        lemma_within(
            denied_for_roles(roles, overwrites, ids.drop_last()),
            denied_for_role(roles, overwrites, ids.last()),
            scope,
        );
    }
}

/// Only which roles a member holds matters, not their order or repetition.
pub proof fn law_role_order_is_irrelevant(
    roles: Seq<Role>,
    some: Seq<RoleId>,
    other: Seq<RoleId>,
    member: Fingerprint,
    owner: bool,
    overwrites: Option<Seq<Overwrite>>,
)
    requires
        forall|i: int| 0 <= i < some.len() ==> other.contains(#[trigger] some[i]),
        forall|i: int| 0 <= i < other.len() ==> some.contains(#[trigger] other[i]),
    ensures
        resolved_bits(roles, some, member, owner, overwrites) == resolved_bits(
            roles,
            other,
            member,
            owner,
            overwrites,
        ),
{
    let ows = match overwrites {
        Some(o) => o,
        None => Seq::empty(),
    };
    lemma_unions_are_least(roles, ows, some, other);
    lemma_unions_are_least(roles, ows, other, some);
    lemma_within(union_bits(roles, some), union_bits(roles, other), 0);
    lemma_within(denied_for_roles(roles, ows, some), denied_for_roles(roles, ows, other), 0);
    lemma_within(allowed_for_roles(roles, ows, some), allowed_for_roles(roles, ows, other), 0);
}

/// The member's own overwrite beats everything else: what it allows is held,
/// and what it denies without allowing is not.
pub proof fn law_member_overwrite_wins(
    roles: Seq<Role>,
    base: u64,
    member_roles: Seq<RoleId>,
    member: Fingerprint,
    overwrites: Seq<Overwrite>,
)
    ensures
        within(
            allowed_for(overwrites, OverwriteTarget::Member(member)),
            channel_bits(roles, base, member_roles, member, overwrites),
        ),
        channel_bits(roles, base, member_roles, member, overwrites) & denied_for(
            overwrites,
            OverwriteTarget::Member(member),
        ) & !allowed_for(overwrites, OverwriteTarget::Member(member)) == 0,
{
    let a = allowed_for(overwrites, OverwriteTarget::Member(member));
    let d = denied_for(overwrites, OverwriteTarget::Member(member));
    lemma_adjusted(
        adjusted(
            adjusted(
                base,
                denied_for(overwrites, OverwriteTarget::Role(EVERYONE_ROLE_ID)),
                allowed_for(overwrites, OverwriteTarget::Role(EVERYONE_ROLE_ID)),
            ),
            denied_for_roles(roles, overwrites, member_roles),
            allowed_for_roles(roles, overwrites, member_roles),
        ),
        d,
        a,
        0,
    );
}

proof fn lemma_adjusted(bits: u64, d: u64, a: u64, b: u64)
    ensures
        within(a, adjusted(bits, d, a)),
        adjusted(bits, d, a) & d & !a == 0,
        within(b, bits) && b & d == 0 ==> within(b, adjusted(bits, d, a)),
{
    assert(a & !((bits & !d) | a) == 0) by (bit_vector);
    assert(((bits & !d) | a) & d & !a == 0) by (bit_vector);
    assert(b & !bits == 0 && b & d == 0 ==> b & !((bits & !d) | a) == 0) by (bit_vector);
}

/// An allow for any held role beats a deny for another, and beats a deny for
/// @everyone: unless the member's own overwrite denies it, it is held.
pub proof fn law_role_allow_beats_role_deny(
    roles: Seq<Role>,
    base: u64,
    member_roles: Seq<RoleId>,
    member: Fingerprint,
    overwrites: Seq<Overwrite>,
    id: RoleId,
)
    requires
        role_with_id(roles, id) is Some,
        member_roles.contains(id),
        allowed_for(overwrites, OverwriteTarget::Role(id)) & denied_for(
            overwrites,
            OverwriteTarget::Member(member),
        ) == 0,
    ensures
        within(
            allowed_for(overwrites, OverwriteTarget::Role(id)),
            channel_bits(roles, base, member_roles, member, overwrites),
        ),
{
    let at = choose|at: int| 0 <= at < member_roles.len() && member_roles[at] == id;
    lemma_member_is_within(roles, overwrites, member_roles, at);
    let b = allowed_for(overwrites, OverwriteTarget::Role(id));
    let after_everyone = adjusted(
        base,
        denied_for(overwrites, OverwriteTarget::Role(EVERYONE_ROLE_ID)),
        allowed_for(overwrites, OverwriteTarget::Role(EVERYONE_ROLE_ID)),
    );
    let d = denied_for_roles(roles, overwrites, member_roles);
    let a = allowed_for_roles(roles, overwrites, member_roles);
    let after_roles = adjusted(after_everyone, d, a);
    lemma_adjusted(after_everyone, d, a, 0);
    lemma_within(b, a, after_roles);
    lemma_adjusted(
        after_roles,
        denied_for(overwrites, OverwriteTarget::Member(member)),
        allowed_for(overwrites, OverwriteTarget::Member(member)),
        b,
    );
}

/// A channel that a member cannot see grants nothing: any permission there
/// comes with visibility.
pub proof fn law_no_permission_without_visibility(
    roles: Seq<Role>,
    member_roles: Seq<RoleId>,
    member: Fingerprint,
    owner: bool,
    overwrites: Seq<Overwrite>,
)
    ensures
        resolved_bits(roles, member_roles, member, owner, Some(overwrites)) != Permissions::NONE
            ==> resolved_bits(roles, member_roles, member, owner, Some(overwrites))
            & Permissions::VIEW_CHANNEL == Permissions::VIEW_CHANNEL,
{
    law_known_bits();
}

/// Every channel-scoped bit is a known permission, and no known permission
/// uses the sign bit of a signed 64-bit column.
pub proof fn law_known_bits()
    ensures
        Permissions::ALL & Permissions::CHANNEL_SCOPED == Permissions::CHANNEL_SCOPED,
        Permissions::ALL & Permissions::VIEW_CHANNEL == Permissions::VIEW_CHANNEL,
        Permissions::CHANNEL_SCOPED & Permissions::ADMINISTRATOR == 0,
        Permissions::ALL < 0x8000_0000_0000_0000,
{
    assert(Permissions::ALL & Permissions::CHANNEL_SCOPED == Permissions::CHANNEL_SCOPED
        && Permissions::ALL & Permissions::VIEW_CHANNEL == Permissions::VIEW_CHANNEL
        && Permissions::CHANNEL_SCOPED & Permissions::ADMINISTRATOR == 0
        && Permissions::ALL < 0x8000_0000_0000_0000) by (bit_vector);
}

/// A granted role that has been deleted is as good as not granted, whatever
/// overwrites it left behind.
pub proof fn law_deleted_role_is_skipped(
    roles: Seq<Role>,
    member_roles: Seq<RoleId>,
    member: Fingerprint,
    owner: bool,
    overwrites: Seq<Overwrite>,
    gone: RoleId,
)
    requires
        role_with_id(roles, gone) is None,
    ensures
        resolved_bits(roles, member_roles.push(gone), member, owner, None) == resolved_bits(
            roles,
            member_roles,
            member,
            owner,
            None,
        ),
        resolved_bits(roles, member_roles.push(gone), member, owner, Some(overwrites))
            == resolved_bits(roles, member_roles, member, owner, Some(overwrites)),
        top_position(roles, member_roles.push(gone)) == top_position(roles, member_roles),
{
    assert(member_roles.push(gone).drop_last() =~= member_roles);
    lemma_mask_of_union(union_bits(roles, member_roles), 0, 0);
    lemma_mask_of_union(denied_for_roles(roles, overwrites, member_roles), 0, 0);
    lemma_mask_of_union(allowed_for_roles(roles, overwrites, member_roles), 0, 0);
}

proof fn lemma_other_target_is_untouched(
    overwrites: Seq<Overwrite>,
    at: int,
    ow: Overwrite,
    target: OverwriteTarget,
)
    requires
        0 <= at <= overwrites.len(),
        ow.target != target,
    ensures
        denied_for(overwrites.insert(at, ow), target) == denied_for(overwrites, target),
        allowed_for(overwrites.insert(at, ow), target) == allowed_for(overwrites, target),
{
    let i = overwrite_index(overwrites, target);
    lemma_overwrite_index_is_first(overwrites, target);
    let more = overwrites.insert(at, ow);
    let j = if i < at {
        i
    } else {
        i + 1
    };
    assert forall|k: int| 0 <= k < j implies more[k].target != target by {
        if k < at {
            assert(more[k] == overwrites[k]);
        } else if k > at {
            assert(more[k] == overwrites[k - 1]);
        }
    }
    lemma_overwrite_index(more, target, j);
}

proof fn lemma_overwrite_index_is_first(overwrites: Seq<Overwrite>, target: OverwriteTarget)
    ensures
        0 <= overwrite_index(overwrites, target) <= overwrites.len(),
        forall|k: int|
            0 <= k < overwrite_index(overwrites, target) ==> overwrites[k].target != target,
        overwrite_index(overwrites, target) < overwrites.len() ==> overwrites[overwrite_index(
            overwrites,
            target,
        )].target == target,
    decreases overwrites.len(),
{
    if overwrites.len() > 0 && overwrites[0].target != target {
        lemma_overwrite_index_is_first(overwrites.skip(1), target);
        assert forall|k: int| 0 <= k < overwrite_index(overwrites, target) implies
            overwrites[k].target != target by {
            if k > 0 {
                assert(overwrites.skip(1)[k - 1] == overwrites[k]);
            }
        }
    }
}

/// An overwrite for a role the member lacks, or for somebody else, changes
/// nothing for the member, wherever it stands.
pub proof fn law_other_overwrites_do_nothing(
    roles: Seq<Role>,
    member_roles: Seq<RoleId>,
    member: Fingerprint,
    owner: bool,
    overwrites: Seq<Overwrite>,
    at: int,
    ow: Overwrite,
)
    requires
        0 <= at <= overwrites.len(),
        match ow.target {
            OverwriteTarget::Role(id) => id != EVERYONE_ROLE_ID && !member_roles.contains(id),
            OverwriteTarget::Member(who) => who != member,
        },
    ensures
        resolved_bits(roles, member_roles, member, owner, Some(overwrites.insert(at, ow)))
            == resolved_bits(roles, member_roles, member, owner, Some(overwrites)),
{
    lemma_other_target_is_untouched(overwrites, at, ow, OverwriteTarget::Role(EVERYONE_ROLE_ID));
    lemma_other_target_is_untouched(overwrites, at, ow, OverwriteTarget::Member(member));
    lemma_other_roles_are_untouched(roles, overwrites, at, ow, member_roles);
}

proof fn lemma_other_roles_are_untouched(
    roles: Seq<Role>,
    overwrites: Seq<Overwrite>,
    at: int,
    ow: Overwrite,
    ids: Seq<RoleId>,
)
    requires
        0 <= at <= overwrites.len(),
        forall|i: int| 0 <= i < ids.len() ==> ow.target != OverwriteTarget::Role(#[trigger] ids[i]),
    ensures
        denied_for_roles(roles, overwrites.insert(at, ow), ids) == denied_for_roles(roles, overwrites, ids),
        allowed_for_roles(roles, overwrites.insert(at, ow), ids) == allowed_for_roles(roles, overwrites, ids),
    decreases ids.len(),
{
    if ids.len() > 0 {
        lemma_other_roles_are_untouched(roles, overwrites, at, ow, ids.drop_last());
        lemma_other_target_is_untouched(overwrites, at, ow, OverwriteTarget::Role(ids.last()));
    }
}

/// Whether no two overwrites have the same target.
pub open spec fn one_for_each_target(overwrites: Seq<Overwrite>) -> bool {
    forall|i: int, j: int|
        0 <= i < j < overwrites.len() ==> (#[trigger] overwrites[i]).target != (
        #[trigger] overwrites[j]).target
}

/// Where every target has one overwrite, their order does not matter: two lists
/// of the same overwrites resolve alike.
pub proof fn law_overwrite_order_is_irrelevant(
    roles: Seq<Role>,
    member_roles: Seq<RoleId>,
    member: Fingerprint,
    owner: bool,
    some: Seq<Overwrite>,
    other: Seq<Overwrite>,
)
    requires
        one_for_each_target(some),
        one_for_each_target(other),
        forall|i: int| 0 <= i < some.len() ==> other.contains(#[trigger] some[i]),
        forall|i: int| 0 <= i < other.len() ==> some.contains(#[trigger] other[i]),
    ensures
        resolved_bits(roles, member_roles, member, owner, Some(some)) == resolved_bits(
            roles,
            member_roles,
            member,
            owner,
            Some(other),
        ),
{
    lemma_same_for_target(some, other, OverwriteTarget::Role(EVERYONE_ROLE_ID));
    lemma_same_for_target(some, other, OverwriteTarget::Member(member));
    lemma_same_for_roles(roles, some, other, member_roles);
}

proof fn lemma_same_for_target(
    some: Seq<Overwrite>,
    other: Seq<Overwrite>,
    target: OverwriteTarget,
)
    requires
        one_for_each_target(other),
        forall|i: int| 0 <= i < some.len() ==> other.contains(#[trigger] some[i]),
        forall|i: int| 0 <= i < other.len() ==> some.contains(#[trigger] other[i]),
    ensures
        denied_for(some, target) == denied_for(other, target),
        allowed_for(some, target) == allowed_for(other, target),
{
    lemma_overwrite_index_is_first(some, target);
    lemma_overwrite_index_is_first(other, target);
    let i = overwrite_index(some, target);
    let j = overwrite_index(other, target);
    if i < some.len() {
        assert(other.contains(some[i]));
        let k = choose|k: int| 0 <= k < other.len() && other[k] == some[i];
        assert(other[k].target == target);
        assert(j == k);
    } else if j < other.len() {
        assert(some.contains(other[j]));
        let k = choose|k: int| 0 <= k < some.len() && some[k] == other[j];
        assert(some[k].target == target);
    }
}

proof fn lemma_same_for_roles(
    roles: Seq<Role>,
    some: Seq<Overwrite>,
    other: Seq<Overwrite>,
    ids: Seq<RoleId>,
)
    requires
        one_for_each_target(other),
        forall|i: int| 0 <= i < some.len() ==> other.contains(#[trigger] some[i]),
        forall|i: int| 0 <= i < other.len() ==> some.contains(#[trigger] other[i]),
    ensures
        denied_for_roles(roles, some, ids) == denied_for_roles(roles, other, ids),
        allowed_for_roles(roles, some, ids) == allowed_for_roles(roles, other, ids),
    decreases ids.len(),
{
    if ids.len() > 0 {
        lemma_same_for_roles(roles, some, other, ids.drop_last());
        lemma_same_for_target(some, other, OverwriteTarget::Role(ids.last()));
    }
}

/// Rank is a strict order: nobody acts on themselves or an equal, two members
/// never act on each other, and seniority carries over a third. The owner is
/// never acted on and acts on everyone else.
pub proof fn law_rank_is_a_strict_order(
    roles: Seq<Role>,
    a: Seq<RoleId>,
    a_owner: bool,
    b: Seq<RoleId>,
    b_owner: bool,
    c: Seq<RoleId>,
    c_owner: bool,
)
    ensures
        !outranks(roles, a, a_owner, a, a_owner),
        !(outranks(roles, a, a_owner, b, b_owner) && outranks(roles, b, b_owner, a, a_owner)),
        outranks(roles, a, a_owner, b, b_owner) && outranks(roles, b, b_owner, c, c_owner)
            ==> outranks(roles, a, a_owner, c, c_owner),
        !outranks(roles, a, a_owner, b, true),
        outranks(roles, a, true, b, false),
{
}

/// A role at or above one's own top position is out of reach, so two holders
/// of the same top role cannot strip each other; a role that does not exist is
/// nobody's but the owner's to name.
pub proof fn law_own_top_role_is_out_of_reach(roles: Seq<Role>, actor: Seq<RoleId>, id: RoleId)
    ensures
        reaches_role(roles, actor, false, id) ==> role_with_id(roles, id) is Some && role_with_id(
            roles,
            id,
        )->0.position < top_position(roles, actor),
        reaches_role(roles, actor, true, id),
{
}

/// A mask of one permission.
pub open spec fn is_one_bit(bit: u64) -> bool {
    bit != 0 && bit & (bit - 1) as u64 == 0
}

/// Whether a permission is among these bits.
pub open spec fn holds(bits: u64, bit: u64) -> bool {
    bits & bit == bit
}

proof fn lemma_one_bit(x: u64, y: u64, bit: u64)
    requires
        is_one_bit(bit),
    ensures
        holds(x | y, bit) <==> holds(x, bit) || holds(y, bit),
        holds(x & y, bit) <==> holds(x, bit) && holds(y, bit),
        holds(x & !y, bit) <==> holds(x, bit) && !holds(y, bit),
        !holds(0, bit),
        holds(x, bit) <==> x & bit != 0,
{
    assert(bit != 0 && bit & (bit - 1) as u64 == 0 ==> {
        &&& (x | y) & bit == bit <==> x & bit == bit || y & bit == bit
        &&& (x & y) & bit == bit <==> x & bit == bit && y & bit == bit
        &&& (x & !y) & bit == bit <==> x & bit == bit && y & bit != bit
        &&& 0u64 & bit != bit
        &&& x & bit == bit <==> x & bit != 0
    }) by (bit_vector);
}

/// The role at `k` is the one that its id names: none before it has that id.
pub open spec fn names_role(roles: Seq<Role>, k: int) -> bool {
    &&& 0 <= k < roles.len()
    &&& forall|j: int| 0 <= j < k ==> (#[trigger] roles[j]).id != roles[k].id
}

/// The overwrite at `k` is the one that counts for its target.
pub open spec fn counts(overwrites: Seq<Overwrite>, k: int) -> bool {
    &&& 0 <= k < overwrites.len()
    &&& forall|j: int| 0 <= j < k ==> (#[trigger] overwrites[j]).target != overwrites[k].target
}

/// Whether @everyone, or a role that the member was granted, carries a
/// permission.
pub open spec fn granted(roles: Seq<Role>, ids: Seq<RoleId>, bit: u64) -> bool {
    exists|k: int| #[trigger]
        names_role(roles, k) && (roles[k].id == EVERYONE_ROLE_ID || ids.contains(roles[k].id))
            && holds(roles[k].permissions.0, bit)
}

/// Whether the overwrite for a target allows a permission.
pub open spec fn target_allows(overwrites: Seq<Overwrite>, target: OverwriteTarget, bit: u64) -> bool {
    exists|k: int| #[trigger]
        counts(overwrites, k) && overwrites[k].target == target && holds(overwrites[k].allow.0, bit)
}

/// Whether the overwrite for a target denies a permission.
pub open spec fn target_denies(overwrites: Seq<Overwrite>, target: OverwriteTarget, bit: u64) -> bool {
    exists|k: int| #[trigger]
        counts(overwrites, k) && overwrites[k].target == target && holds(overwrites[k].deny.0, bit)
}

/// Whether a member holds a role: it was granted to them, and it exists.
pub open spec fn holds_role(roles: Seq<Role>, ids: Seq<RoleId>, id: RoleId) -> bool {
    ids.contains(id) && exists|r: int| 0 <= r < roles.len() && (#[trigger] roles[r]).id == id
}

/// Whether the overwrite for some role that the member holds allows a
/// permission.
pub open spec fn some_role_allows(
    roles: Seq<Role>,
    ids: Seq<RoleId>,
    overwrites: Seq<Overwrite>,
    bit: u64,
) -> bool {
    exists|id: RoleId| #[trigger]
        holds_role(roles, ids, id) && target_allows(overwrites, OverwriteTarget::Role(id), bit)
}

/// Whether the overwrite for some role that the member holds denies a
/// permission.
pub open spec fn some_role_denies(
    roles: Seq<Role>,
    ids: Seq<RoleId>,
    overwrites: Seq<Overwrite>,
    bit: u64,
) -> bool {
    exists|id: RoleId| #[trigger]
        holds_role(roles, ids, id) && target_denies(overwrites, OverwriteTarget::Role(id), bit)
}

pub proof fn lemma_role_index_is_first(roles: Seq<Role>, id: RoleId)
    ensures
        0 <= role_index(roles, id) <= roles.len(),
        forall|k: int| 0 <= k < role_index(roles, id) ==> (#[trigger] roles[k]).id != id,
        role_index(roles, id) < roles.len() ==> roles[role_index(roles, id)].id == id,
    decreases roles.len(),
{
    if roles.len() > 0 && roles[0].id != id {
        lemma_role_index_is_first(roles.skip(1), id);
        assert forall|k: int| 0 <= k < role_index(roles, id) implies (#[trigger] roles[k]).id
            != id by {
            if k > 0 {
                assert(roles.skip(1)[k - 1] == roles[k]);
            }
        }
    }
}

proof fn lemma_role_bit(roles: Seq<Role>, id: RoleId, bit: u64)
    requires
        is_one_bit(bit),
    ensures
        holds(role_bits(roles, id), bit) <==> exists|k: int| #[trigger]
            names_role(roles, k) && roles[k].id == id && holds(roles[k].permissions.0, bit),
        role_with_id(roles, id) is Some <==> exists|r: int|
            0 <= r < roles.len() && (#[trigger] roles[r]).id == id,
{
    let i = role_index(roles, id);
    lemma_role_index_is_first(roles, id);
    lemma_one_bit(0, 0, bit);
    if i < roles.len() {
        assert(names_role(roles, i));
        assert(roles[i].id == id);
    }
    if exists|k: int| #[trigger]
        names_role(roles, k) && roles[k].id == id && holds(roles[k].permissions.0, bit) {
        let k = choose|k: int| #[trigger]
            names_role(roles, k) && roles[k].id == id && holds(roles[k].permissions.0, bit);
        lemma_role_index(roles, id, k);
    }
}

proof fn lemma_union_bit(roles: Seq<Role>, ids: Seq<RoleId>, bit: u64)
    requires
        is_one_bit(bit),
    ensures
        holds(union_bits(roles, ids), bit) <==> exists|k: int| #[trigger]
            names_role(roles, k) && ids.contains(roles[k].id) && holds(
                roles[k].permissions.0,
                bit,
            ),
    decreases ids.len(),
{
    lemma_one_bit(0, 0, bit);
    if ids.len() > 0 {
        let front = ids.drop_last();
        lemma_union_bit(roles, front, bit);
        lemma_role_bit(roles, ids.last(), bit);
        lemma_one_bit(union_bits(roles, front), role_bits(roles, ids.last()), bit);
        assert forall|id: RoleId| #[trigger] ids.contains(id) <==> front.contains(id) || id
            == ids.last() by {
            lemma_contains_last(ids, id);
        }
        if exists|k: int| #[trigger]
            names_role(roles, k) && ids.contains(roles[k].id) && holds(
                roles[k].permissions.0,
                bit,
            ) {
            let k = choose|k: int| #[trigger]
                names_role(roles, k) && ids.contains(roles[k].id) && holds(
                    roles[k].permissions.0,
                    bit,
                );
            assert(front.contains(roles[k].id) || roles[k].id == ids.last());
        }
    }
}

proof fn lemma_contains_last(ids: Seq<RoleId>, id: RoleId)
    requires
        ids.len() > 0,
    ensures
        ids.contains(id) <==> ids.drop_last().contains(id) || id == ids.last(),
{
    let front = ids.drop_last();
    if ids.contains(id) {
        let i = choose|i: int| 0 <= i < ids.len() && ids[i] == id;
        if i < front.len() {
            assert(front[i] == id);
        }
    }
    if front.contains(id) {
        let i = choose|i: int| 0 <= i < front.len() && front[i] == id;
        assert(ids[i] == id);
    }
    assert(ids[ids.len() - 1] == ids.last());
}

proof fn lemma_base_bit(roles: Seq<Role>, ids: Seq<RoleId>, bit: u64)
    requires
        is_one_bit(bit),
    ensures
        holds(base_bits(roles, ids), bit) <==> granted(roles, ids, bit),
{
    lemma_role_bit(roles, EVERYONE_ROLE_ID, bit);
    lemma_union_bit(roles, ids, bit);
    lemma_one_bit(role_bits(roles, EVERYONE_ROLE_ID), union_bits(roles, ids), bit);
}

proof fn lemma_target_bit(overwrites: Seq<Overwrite>, target: OverwriteTarget, bit: u64)
    requires
        is_one_bit(bit),
    ensures
        holds(allowed_for(overwrites, target), bit) <==> target_allows(overwrites, target, bit)
            && holds(Permissions::CHANNEL_SCOPED, bit),
        holds(denied_for(overwrites, target), bit) <==> target_denies(overwrites, target, bit)
            && holds(Permissions::CHANNEL_SCOPED, bit),
{
    let i = overwrite_index(overwrites, target);
    lemma_overwrite_index_is_first(overwrites, target);
    lemma_one_bit(0, 0, bit);
    if i < overwrites.len() {
        assert(counts(overwrites, i));
        lemma_one_bit(overwrites[i].allow.0, Permissions::CHANNEL_SCOPED, bit);
        lemma_one_bit(overwrites[i].deny.0, Permissions::CHANNEL_SCOPED, bit);
    }
    assert forall|k: int| #[trigger] counts(overwrites, k) && overwrites[k].target == target implies k
        == i by {
        lemma_overwrite_index(overwrites, target, k);
    }
}

proof fn lemma_roles_bit(
    roles: Seq<Role>,
    ids: Seq<RoleId>,
    overwrites: Seq<Overwrite>,
    bit: u64,
)
    requires
        is_one_bit(bit),
    ensures
        holds(allowed_for_roles(roles, overwrites, ids), bit) <==> some_role_allows(
            roles,
            ids,
            overwrites,
            bit,
        ) && holds(Permissions::CHANNEL_SCOPED, bit),
        holds(denied_for_roles(roles, overwrites, ids), bit) <==> some_role_denies(
            roles,
            ids,
            overwrites,
            bit,
        ) && holds(Permissions::CHANNEL_SCOPED, bit),
    decreases ids.len(),
{
    lemma_one_bit(0, 0, bit);
    if ids.len() > 0 {
        let front = ids.drop_last();
        let last = ids.last();
        lemma_roles_bit(roles, front, overwrites, bit);
        lemma_target_bit(overwrites, OverwriteTarget::Role(last), bit);
        lemma_role_bit(roles, last, bit);
        lemma_one_bit(
            allowed_for_roles(roles, overwrites, front),
            allowed_for_role(roles, overwrites, last),
            bit,
        );
        lemma_one_bit(
            denied_for_roles(roles, overwrites, front),
            denied_for_role(roles, overwrites, last),
            bit,
        );
        assert forall|id: RoleId| #[trigger] holds_role(roles, ids, id) <==> holds_role(
            roles,
            front,
            id,
        ) || (id == last && role_with_id(roles, last) is Some) by {
            lemma_contains_last(ids, id);
        }
        assert forall|id: RoleId| #[trigger] holds_role(roles, front, id) implies holds_role(
            roles,
            ids,
            id,
        ) by {
            lemma_contains_last(ids, id);
        }
        assert(role_with_id(roles, last) is Some ==> holds_role(roles, ids, last));
    }
}

/// Server-wide, a member has exactly what @everyone and the roles granted to
/// them carry, permission by permission.
pub proof fn law_server_wide_permissions_are_those_granted(
    roles: Seq<Role>,
    ids: Seq<RoleId>,
    member: Fingerprint,
    bit: u64,
)
    requires
        is_one_bit(bit),
        !granted(roles, ids, Permissions::ADMINISTRATOR),
    ensures
        holds(resolved_bits(roles, ids, member, false, None), bit) <==> granted(roles, ids, bit),
{
    assert(is_one_bit(1u64 << 0)) by (bit_vector);
    lemma_base_bit(roles, ids, Permissions::ADMINISTRATOR);
    lemma_base_bit(roles, ids, bit);
}

/// The owner, and whoever was granted the administrator bit, has every known
/// permission everywhere.
pub proof fn law_the_owner_and_administrators_are_not_restricted(
    roles: Seq<Role>,
    ids: Seq<RoleId>,
    member: Fingerprint,
    owner: bool,
    overwrites: Option<Seq<Overwrite>>,
)
    requires
        owner || granted(roles, ids, Permissions::ADMINISTRATOR),
    ensures
        resolved_bits(roles, ids, member, owner, overwrites) == Permissions::ALL,
{
    assert(is_one_bit(1u64 << 0)) by (bit_vector);
    lemma_base_bit(roles, ids, Permissions::ADMINISTRATOR);
}

/// What a channel makes of one permission: the member's own overwrite speaks
/// first, then those of the roles they hold, then that of @everyone, an allow
/// before a deny each time; where none speaks, the grant stands.
pub open spec fn left_in_channel(
    roles: Seq<Role>,
    ids: Seq<RoleId>,
    member: Fingerprint,
    overwrites: Seq<Overwrite>,
    bit: u64,
) -> bool {
    let own = OverwriteTarget::Member(member);
    let everyone = OverwriteTarget::Role(EVERYONE_ROLE_ID);
    if !holds(Permissions::CHANNEL_SCOPED, bit) {
        granted(roles, ids, bit)
    } else if target_allows(overwrites, own, bit) {
        true
    } else if target_denies(overwrites, own, bit) {
        false
    } else if some_role_allows(roles, ids, overwrites, bit) {
        true
    } else if some_role_denies(roles, ids, overwrites, bit) {
        false
    } else if target_allows(overwrites, everyone, bit) {
        true
    } else if target_denies(overwrites, everyone, bit) {
        false
    } else {
        granted(roles, ids, bit)
    }
}

proof fn lemma_channel_bit(
    roles: Seq<Role>,
    ids: Seq<RoleId>,
    member: Fingerprint,
    overwrites: Seq<Overwrite>,
    bit: u64,
)
    requires
        is_one_bit(bit),
    ensures
        holds(channel_bits(roles, base_bits(roles, ids), ids, member, overwrites), bit)
            <==> left_in_channel(roles, ids, member, overwrites, bit),
{
    let own = OverwriteTarget::Member(member);
    let everyone = OverwriteTarget::Role(EVERYONE_ROLE_ID);
    lemma_base_bit(roles, ids, bit);
    lemma_target_bit(overwrites, own, bit);
    lemma_target_bit(overwrites, everyone, bit);
    lemma_roles_bit(roles, ids, overwrites, bit);
    let base = base_bits(roles, ids);
    let (d1, a1) = (denied_for(overwrites, everyone), allowed_for(overwrites, everyone));
    let (d2, a2) = (
        denied_for_roles(roles, overwrites, ids),
        allowed_for_roles(roles, overwrites, ids),
    );
    let (d3, a3) = (denied_for(overwrites, own), allowed_for(overwrites, own));
    let one = adjusted(base, d1, a1);
    let two = adjusted(one, d2, a2);
    lemma_one_bit(base, d1, bit);
    lemma_one_bit(base & !d1, a1, bit);
    lemma_one_bit(one, d2, bit);
    lemma_one_bit(one & !d2, a2, bit);
    lemma_one_bit(two, d3, bit);
    lemma_one_bit(two & !d3, a3, bit);
}

/// In a channel, a member who is neither owner nor administrator has exactly the
/// permissions that the overwrites leave them, and none where they are not left
/// the sight of the channel.
pub proof fn law_channel_permissions_are_those_left(
    roles: Seq<Role>,
    ids: Seq<RoleId>,
    member: Fingerprint,
    overwrites: Seq<Overwrite>,
    bit: u64,
)
    requires
        is_one_bit(bit),
        !granted(roles, ids, Permissions::ADMINISTRATOR),
    ensures
        holds(resolved_bits(roles, ids, member, false, Some(overwrites)), bit) <==> left_in_channel(
            roles,
            ids,
            member,
            overwrites,
            bit,
        ) && left_in_channel(roles, ids, member, overwrites, Permissions::VIEW_CHANNEL),
{
    assert(is_one_bit(1u64 << 0) && is_one_bit(1u64 << 16)) by (bit_vector);
    lemma_base_bit(roles, ids, Permissions::ADMINISTRATOR);
    lemma_channel_bit(roles, ids, member, overwrites, bit);
    lemma_channel_bit(roles, ids, member, overwrites, Permissions::VIEW_CHANNEL);
    lemma_one_bit(0, 0, bit);
}

/// A deny for a role that the member holds takes the permission away, unless an
/// overwrite of the member, or of a role that they hold, allows it.
pub proof fn law_a_role_deny_takes_away(
    roles: Seq<Role>,
    ids: Seq<RoleId>,
    member: Fingerprint,
    overwrites: Seq<Overwrite>,
    bit: u64,
    k: int,
)
    requires
        is_one_bit(bit),
        holds(Permissions::CHANNEL_SCOPED, bit),
        !granted(roles, ids, Permissions::ADMINISTRATOR),
        counts(overwrites, k),
        overwrites[k].target matches OverwriteTarget::Role(id) && holds_role(roles, ids, id),
        holds(overwrites[k].deny.0, bit),
        forall|j: int| #[trigger]
            counts(overwrites, j) && holds(overwrites[j].allow.0, bit) ==> match overwrites[j].target {
                OverwriteTarget::Role(id) => !holds_role(roles, ids, id),
                OverwriteTarget::Member(who) => who != member,
            },
    ensures
        !holds(channel_bits(roles, base_bits(roles, ids), ids, member, overwrites), bit),
        !holds(resolved_bits(roles, ids, member, false, Some(overwrites)), bit),
{
    lemma_channel_bit(roles, ids, member, overwrites, bit);
    law_channel_permissions_are_those_left(roles, ids, member, overwrites, bit);
    let id = overwrites[k].target->Role_0;
    assert(target_denies(overwrites, OverwriteTarget::Role(id), bit));
    assert(some_role_denies(roles, ids, overwrites, bit));
}

/// Whether a member was granted the role at `k`.
pub open spec fn has_role_at(roles: Seq<Role>, ids: Seq<RoleId>, k: int) -> bool {
    names_role(roles, k) && ids.contains(roles[k].id)
}

/// A member's rank is the highest position among their roles, and 0 without any.
pub proof fn law_rank_is_the_highest_position_held(roles: Seq<Role>, ids: Seq<RoleId>)
    ensures
        forall|k: int| #[trigger]
            has_role_at(roles, ids, k) ==> roles[k].position <= top_position(roles, ids),
        top_position(roles, ids) == 0 || exists|k: int| #[trigger]
            has_role_at(roles, ids, k) && roles[k].position == top_position(roles, ids),
    decreases ids.len(),
{
    if ids.len() > 0 {
        let front = ids.drop_last();
        let last = ids.last();
        law_rank_is_the_highest_position_held(roles, front);
        let i = role_index(roles, last);
        lemma_role_index_is_first(roles, last);
        assert forall|k: int| #[trigger] has_role_at(roles, ids, k) implies roles[k].position
            <= top_position(roles, ids) by {
            lemma_contains_last(ids, roles[k].id);
            if front.contains(roles[k].id) {
                assert(has_role_at(roles, front, k));
            } else {
                lemma_role_index(roles, last, k);
            }
        }
        if top_position(roles, ids) == top_position(roles, front) {
            if top_position(roles, ids) > 0 {
                let k = choose|k: int| #[trigger]
                    has_role_at(roles, front, k) && roles[k].position == top_position(roles, front);
                lemma_contains_last(ids, roles[k].id);
                assert(has_role_at(roles, ids, k));
            }
        } else {
            lemma_contains_last(ids, last);
            assert(has_role_at(roles, ids, i));
        }
    }
}

/// One member acts on another exactly when the other is not the owner and the
/// actor is, or has a role above position 0 and above every role of the other.
pub proof fn law_acting_takes_a_higher_role(
    roles: Seq<Role>,
    actor: Seq<RoleId>,
    actor_owner: bool,
    target: Seq<RoleId>,
    target_owner: bool,
)
    ensures
        outranks(roles, actor, actor_owner, target, target_owner) <==> !target_owner && (actor_owner
            || exists|k: int| #[trigger]
            has_role_at(roles, actor, k) && roles[k].position > 0 && forall|j: int| #[trigger]
                has_role_at(roles, target, j) ==> roles[j].position < roles[k].position),
{
    law_rank_is_the_highest_position_held(roles, actor);
    law_rank_is_the_highest_position_held(roles, target);
    let (a, t) = (top_position(roles, actor), top_position(roles, target));
    if a > t {
        let k = choose|k: int| #[trigger]
            has_role_at(roles, actor, k) && roles[k].position == a;
        assert(has_role_at(roles, actor, k) && roles[k].position > 0);
    }
    if exists|k: int| #[trigger]
        has_role_at(roles, actor, k) && roles[k].position > 0 && forall|j: int| #[trigger]
            has_role_at(roles, target, j) ==> roles[j].position < roles[k].position {
        let k = choose|k: int| #[trigger]
            has_role_at(roles, actor, k) && roles[k].position > 0 && forall|j: int| #[trigger]
                has_role_at(roles, target, j) ==> roles[j].position < roles[k].position;
        if t > 0 {
            let j = choose|j: int| #[trigger]
                has_role_at(roles, target, j) && roles[j].position == t;
            assert(roles[j].position < roles[k].position);
        }
    }
}

/// A role is within reach of the owner, and of whoever has a role above it.
pub proof fn law_a_role_in_reach_is_below_ones_own(
    roles: Seq<Role>,
    actor: Seq<RoleId>,
    owner: bool,
    id: RoleId,
)
    ensures
        reaches_role(roles, actor, owner, id) <==> owner || exists|t: int, k: int|
            #![trigger names_role(roles, t), has_role_at(roles, actor, k)]
            names_role(roles, t) && roles[t].id == id && has_role_at(roles, actor, k)
                && roles[t].position < roles[k].position,
{
    law_rank_is_the_highest_position_held(roles, actor);
    lemma_role_index_is_first(roles, id);
    let i = role_index(roles, id);
    let top = top_position(roles, actor);
    if i < roles.len() {
        assert(names_role(roles, i));
        if roles[i].position < top {
            let k = choose|k: int| #[trigger]
                has_role_at(roles, actor, k) && roles[k].position == top;
            assert(names_role(roles, i) && roles[i].id == id && has_role_at(roles, actor, k));
        }
    }
    assert forall|t: int| #[trigger] names_role(roles, t) && roles[t].id == id implies t == i by {
        lemma_role_index(roles, id, t);
    }
}


/// What is resolved for a channel is what the overwrites leave, bit by bit; what
/// is resolved for the server is what the roles grant.
pub proof fn law_resolving_gives_what_is_left(
    roles: &[Role],
    ids: &[RoleId],
    member: Fingerprint,
    overwrites: &[Overwrite],
    here: Permissions,
    everywhere: Permissions,
    bit: u64,
)
    requires
        call_ensures(resolve, (roles, ids, member, false, Some(overwrites)), here),
        call_ensures(resolve, (roles, ids, member, false, None), everywhere),
        is_one_bit(bit),
        !granted(roles@, ids@, Permissions::ADMINISTRATOR),
    ensures
        holds(everywhere.0, bit) <==> granted(roles@, ids@, bit),
        holds(here.0, bit) <==> left_in_channel(roles@, ids@, member, overwrites@, bit)
            && left_in_channel(roles@, ids@, member, overwrites@, Permissions::VIEW_CHANNEL),
{
    law_server_wide_permissions_are_those_granted(roles@, ids@, member, bit);
    law_channel_permissions_are_those_left(roles@, ids@, member, overwrites@, bit);
}
} // verus!
