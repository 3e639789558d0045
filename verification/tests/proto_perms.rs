use pickle::identity::{Fingerprint, Identity};
use pickle::proto::perms::{
    can_act_on, can_manage_role, resolve, top_role_position, Overwrite, OverwriteTarget,
    Permissions, Role, RoleId, EVERYONE_ROLE_ID,
};


fn fp() -> Fingerprint {
    Identity::generate().fingerprint()
}

fn role(id: RoleId, position: u32, permissions: Permissions) -> Role {
    Role {
        id,
        name: format!("role-{id}"),
        color: None,
        position,
        permissions,
    }
}

/// A ladder with @everyone holding the fresh-server defaults.
fn ladder() -> Vec<Role> {
    vec![
        role(EVERYONE_ROLE_ID, 0, Permissions(Permissions::DEFAULT_EVERYONE)),
        role(1, 1, Permissions(Permissions::KICK_MEMBERS)),
        role(2, 2, Permissions(Permissions::ADMINISTRATOR)),
    ]
}

fn allow(target: OverwriteTarget, bits: Permissions) -> Overwrite {
    Overwrite {
        target,
        allow: bits,
        deny: Permissions(Permissions::NONE),
    }
}

fn deny(target: OverwriteTarget, bits: Permissions) -> Overwrite {
    Overwrite {
        target,
        allow: Permissions(Permissions::NONE),
        deny: bits,
    }
}

// ---- resolution --------------------------------------------------------

#[test]
fn base_is_the_union_of_everyone_and_explicit_roles() {
    let perms = resolve(&ladder(), &[1], fp(), false, None);
    assert!(perms.contains(Permissions(Permissions::DEFAULT_EVERYONE)));
    assert!(perms.contains(Permissions(Permissions::KICK_MEMBERS)));
    assert!(!perms.contains(Permissions(Permissions::BAN_MEMBERS)));
}

#[test]
fn owner_resolves_to_everything_even_under_a_member_deny() {
    let me = fp();
    let overwrites = [deny(OverwriteTarget::Member(me), Permissions(Permissions::VIEW_CHANNEL))];
    let perms = resolve(&ladder(), &[], me, true, Some(&overwrites));
    assert_eq!(perms, Permissions(Permissions::ALL));
}

#[test]
fn administrator_in_base_grants_everything_and_ignores_overwrites() {
    let me = fp();
    let overwrites = [deny(
        OverwriteTarget::Role(EVERYONE_ROLE_ID),
        Permissions(Permissions::VIEW_CHANNEL),
    )];
    let perms = resolve(&ladder(), &[2], me, false, Some(&overwrites));
    assert_eq!(perms, Permissions(Permissions::ALL));
}

#[test]
fn administrator_via_any_held_role_counts() {
    // The bit sits on a role, not on @everyone; holding the role is enough.
    let roles = vec![
        role(EVERYONE_ROLE_ID, 0, Permissions(Permissions::NONE)),
        role(7, 1, Permissions(Permissions::ADMINISTRATOR)),
    ];
    assert_eq!(resolve(&roles, &[7], fp(), false, None), Permissions(Permissions::ALL));
}

#[test]
fn no_channel_returns_the_base() {
    let perms = resolve(&ladder(), &[], fp(), false, None);
    assert_eq!(perms, Permissions(Permissions::DEFAULT_EVERYONE));
}

#[test]
fn everyone_overwrite_deny_removes_a_base_bit() {
    let overwrites = [deny(
        OverwriteTarget::Role(EVERYONE_ROLE_ID),
        Permissions(Permissions::SEND_MESSAGES),
    )];
    let perms = resolve(&ladder(), &[], fp(), false, Some(&overwrites));
    assert!(!perms.contains(Permissions(Permissions::SEND_MESSAGES)));
    assert!(perms.contains(Permissions(Permissions::VIEW_CHANNEL)));
}

#[test]
fn role_overwrite_allow_beats_the_everyone_overwrite_deny() {
    let overwrites = [
        deny(
            OverwriteTarget::Role(EVERYONE_ROLE_ID),
            Permissions(Permissions::SEND_MESSAGES),
        ),
        allow(OverwriteTarget::Role(1), Permissions(Permissions::SEND_MESSAGES)),
    ];
    let perms = resolve(&ladder(), &[1], fp(), false, Some(&overwrites));
    assert!(perms.contains(Permissions(Permissions::SEND_MESSAGES)));
}

#[test]
fn one_roles_allow_beats_another_roles_deny() {
    // All denies are unioned before all allows, so order between roles
    // never matters and allow wins.
    let roles = vec![
        role(EVERYONE_ROLE_ID, 0, Permissions(Permissions::DEFAULT_EVERYONE)),
        role(1, 1, Permissions(Permissions::NONE)),
        role(2, 2, Permissions(Permissions::NONE)),
    ];
    let overwrites = [
        deny(OverwriteTarget::Role(1), Permissions(Permissions::SEND_MESSAGES)),
        allow(OverwriteTarget::Role(2), Permissions(Permissions::SEND_MESSAGES)),
    ];
    let forward = resolve(&roles, &[1, 2], fp(), false, Some(&overwrites));
    let reverse = resolve(&roles, &[2, 1], fp(), false, Some(&overwrites));
    assert!(forward.contains(Permissions(Permissions::SEND_MESSAGES)));
    assert_eq!(forward, reverse);
}

#[test]
fn member_overwrite_deny_beats_a_role_overwrite_allow() {
    let me = fp();
    let overwrites = [
        allow(OverwriteTarget::Role(1), Permissions(Permissions::SEND_MESSAGES)),
        deny(OverwriteTarget::Member(me), Permissions(Permissions::SEND_MESSAGES)),
    ];
    let perms = resolve(&ladder(), &[1], me, false, Some(&overwrites));
    assert!(!perms.contains(Permissions(Permissions::SEND_MESSAGES)));
}

#[test]
fn member_overwrite_allow_beats_every_role_deny() {
    let me = fp();
    let overwrites = [
        deny(
            OverwriteTarget::Role(EVERYONE_ROLE_ID),
            Permissions(Permissions::SEND_MESSAGES),
        ),
        deny(OverwriteTarget::Role(1), Permissions(Permissions::SEND_MESSAGES)),
        allow(OverwriteTarget::Member(me), Permissions(Permissions::SEND_MESSAGES)),
    ];
    let perms = resolve(&ladder(), &[1], me, false, Some(&overwrites));
    assert!(perms.contains(Permissions(Permissions::SEND_MESSAGES)));
}

#[test]
fn a_bit_in_both_allow_and_deny_of_one_overwrite_resolves_to_allow() {
    // Deny is applied first, then allow — within a single overwrite the
    // allow half wins. Handlers refuse to *store* overlapping overwrites,
    // but resolution stays total for whatever is already stored.
    let overwrites = [Overwrite {
        target: OverwriteTarget::Role(EVERYONE_ROLE_ID),
        allow: Permissions(Permissions::SEND_MESSAGES),
        deny: Permissions(Permissions::SEND_MESSAGES),
    }];
    let perms = resolve(&ladder(), &[], fp(), false, Some(&overwrites));
    assert!(perms.contains(Permissions(Permissions::SEND_MESSAGES)));
}

#[test]
fn overwrites_for_roles_the_member_lacks_do_nothing() {
    let overwrites = [deny(OverwriteTarget::Role(1), Permissions(Permissions::SEND_MESSAGES))];
    let perms = resolve(&ladder(), &[], fp(), false, Some(&overwrites));
    assert!(perms.contains(Permissions(Permissions::SEND_MESSAGES)));
}

#[test]
fn overwrites_for_other_members_do_nothing() {
    let overwrites = [deny(
        OverwriteTarget::Member(fp()),
        Permissions(Permissions::SEND_MESSAGES),
    )];
    let perms = resolve(&ladder(), &[], fp(), false, Some(&overwrites));
    assert!(perms.contains(Permissions(Permissions::SEND_MESSAGES)));
}

#[test]
fn overwrites_cannot_touch_server_wide_bits() {
    // ADMINISTRATOR in an overwrite allow is inert: overwrites are masked
    // to the channel-scoped bits during resolution, so a stored overwrite
    // can never mint a server-wide power.
    let me = fp();
    let overwrites = [allow(
        OverwriteTarget::Member(me),
        Permissions(Permissions::ADMINISTRATOR),
    )];
    let perms = resolve(&ladder(), &[], me, false, Some(&overwrites));
    assert!(!perms.contains(Permissions(Permissions::ADMINISTRATOR)));
}

#[test]
fn a_deleted_role_in_the_membership_list_demotes_rather_than_erroring() {
    let perms = resolve(&ladder(), &[999], fp(), false, None);
    assert_eq!(perms, Permissions(Permissions::DEFAULT_EVERYONE));
}

#[test]
fn a_deleted_role_takes_its_overwrites_with_it() {
    let overwrites = [allow(
        OverwriteTarget::Role(999),
        Permissions(Permissions::MANAGE_MESSAGES),
    )];
    let perms = resolve(&ladder(), &[999], fp(), false, Some(&overwrites));
    assert_eq!(perms, Permissions(Permissions::DEFAULT_EVERYONE));
}

#[test]
fn losing_view_channel_masks_every_other_bit() {
    let overwrites = [deny(
        OverwriteTarget::Role(EVERYONE_ROLE_ID),
        Permissions(Permissions::VIEW_CHANNEL),
    )];
    let perms = resolve(&ladder(), &[1], fp(), false, Some(&overwrites));
    assert_eq!(
        perms,
        Permissions(Permissions::NONE),
        "a channel you cannot see grants nothing at all"
    );
}

#[test]
fn unknown_bits_are_carried_but_grant_nothing() {
    let future_bit = Permissions(1 << 40);
    let roles = vec![role(
        EVERYONE_ROLE_ID,
        0,
        Permissions(Permissions::DEFAULT_EVERYONE).union(future_bit),
    )];
    let perms = resolve(&roles, &[], fp(), false, None);
    assert!(perms.contains(future_bit), "carried");
    assert!(!perms.contains(Permissions(Permissions::ADMINISTRATOR)), "not granted");
}

// ---- hierarchy ---------------------------------------------------------

#[test]
fn a_member_with_no_roles_sits_at_position_zero() {
    assert_eq!(top_role_position(&ladder(), &[]), 0);
}

#[test]
fn acting_on_someone_requires_a_strictly_higher_top_role() {
    let roles = ladder();
    assert!(can_act_on(&roles, &[2], false, &[1], false));
    assert!(!can_act_on(&roles, &[1], false, &[2], false));
}

#[test]
fn equal_top_roles_cannot_act_on_each_other() {
    // Two moderators cannot kick each other — kept from the old suite.
    let roles = ladder();
    assert!(!can_act_on(&roles, &[1], false, &[1], false));
}

#[test]
fn the_owner_acts_on_anyone_and_is_never_acted_on() {
    let roles = ladder();
    assert!(can_act_on(&roles, &[], true, &[2], false));
    assert!(!can_act_on(&roles, &[2], false, &[], true));
    assert!(!can_act_on(&roles, &[], true, &[], true));
}

#[test]
fn an_administrator_does_not_bypass_hierarchy() {
    let roles = vec![
        role(EVERYONE_ROLE_ID, 0, Permissions(Permissions::NONE)),
        role(1, 1, Permissions(Permissions::ADMINISTRATOR)),
        role(2, 2, Permissions(Permissions::NONE)),
    ];
    assert!(
        !can_act_on(&roles, &[1], false, &[2], false),
        "the bit grants powers, never seniority"
    );
}

#[test]
fn managing_a_role_requires_a_strictly_higher_top_role() {
    let roles = ladder();
    assert!(can_manage_role(&roles, &[2], false, 1));
    assert!(!can_manage_role(&roles, &[1], false, 2));
}

#[test]
fn your_own_top_role_is_out_of_your_reach() {
    // Otherwise two holders of the same top role could strip each other.
    let roles = ladder();
    assert!(!can_manage_role(&roles, &[1], false, 1));
}

#[test]
fn a_roleless_member_cannot_manage_everyone() {
    // Position 0 is not strictly below position 0.
    let roles = ladder();
    assert!(!can_manage_role(&roles, &[], false, EVERYONE_ROLE_ID));
}

#[test]
fn a_member_with_any_role_can_manage_everyone_given_the_bit() {
    let roles = ladder();
    assert!(can_manage_role(&roles, &[1], false, EVERYONE_ROLE_ID));
}

#[test]
fn the_owner_manages_every_role() {
    let roles = ladder();
    assert!(can_manage_role(&roles, &[], true, 2));
    assert!(can_manage_role(&roles, &[], true, EVERYONE_ROLE_ID));
}

#[test]
fn granting_a_junior_role_does_not_require_outranking_the_recipient() {
    // The check is on the role being granted; the recipient's own rank is
    // irrelevant. A moderator may hand "member" to an admin.
    let roles = ladder();
    assert!(can_manage_role(&roles, &[2], false, 1));
}

#[test]
fn a_managed_role_that_does_not_exist_is_refused() {
    assert!(!can_manage_role(&ladder(), &[2], false, 999));
}

// ---- pins --------------------------------------------------------------

#[test]
fn permission_bits_keep_their_positions() {
    // Bits are wire format AND storage format: a persisted mask outlives
    // any protocol bump, so a bit, once assigned, is assigned forever.
    assert_eq!(Permissions::ADMINISTRATOR, 1 << 0);
    assert_eq!(Permissions::MANAGE_SERVER, 1 << 1);
    assert_eq!(Permissions::MANAGE_ROLES, 1 << 2);
    assert_eq!(Permissions::MANAGE_CHANNELS, 1 << 3);
    assert_eq!(Permissions::KICK_MEMBERS, 1 << 4);
    assert_eq!(Permissions::BAN_MEMBERS, 1 << 5);
    assert_eq!(Permissions::VIEW_CHANNEL, 1 << 16);
    assert_eq!(Permissions::SEND_MESSAGES, 1 << 17);
    assert_eq!(Permissions::READ_HISTORY, 1 << 18);
    assert_eq!(Permissions::MANAGE_MESSAGES, 1 << 19);
    assert_eq!(Permissions::CONNECT, 1 << 20);
    assert_eq!(Permissions::SPEAK, 1 << 21);
    assert_eq!(Permissions::MUTE_MEMBERS, 1 << 22);
    assert_eq!(Permissions::MOVE_MEMBERS, 1 << 23);
    assert!(Permissions(Permissions::ALL).contains(Permissions(Permissions::CHANNEL_SCOPED)));
}


#[test]
fn permission_sets_add_and_subtract() {
    let both = Permissions(Permissions::KICK_MEMBERS).union(Permissions(Permissions::BAN_MEMBERS));
    assert_eq!(both.0, (1 << 4) | (1 << 5));
    assert_eq!(both.without(Permissions(Permissions::KICK_MEMBERS)).0, 1 << 5);
    assert_eq!(both.intersect(Permissions(Permissions::KICK_MEMBERS)).0, 1 << 4);
    assert!(Permissions::default().is_empty());
    assert!(!both.is_empty());
}

#[test]
fn overwrites_leave_server_wide_bits_as_they_are() {
    let me = fp();
    let everything = Permissions(Permissions::ALL);
    let none_left = [deny(OverwriteTarget::Member(me), everything)];
    assert_eq!(
        resolve(&ladder(), &[1], me, false, Some(&none_left)),
        Permissions(Permissions::NONE)
    );
    let view = Permissions(Permissions::VIEW_CHANNEL);
    let only_view = [Overwrite {
        target: OverwriteTarget::Member(me),
        deny: everything,
        allow: view,
    }];
    assert_eq!(
        resolve(&ladder(), &[1], me, false, Some(&only_view)),
        Permissions(Permissions::KICK_MEMBERS | Permissions::VIEW_CHANNEL)
    );
}

#[test]
fn the_order_of_overwrites_does_not_matter() {
    let me = fp();
    let send = Permissions(Permissions::SEND_MESSAGES);
    let history = Permissions(Permissions::READ_HISTORY);
    let overwrites = [
        deny(OverwriteTarget::Role(EVERYONE_ROLE_ID), send),
        allow(OverwriteTarget::Role(1), send),
        deny(OverwriteTarget::Member(me), history),
    ];
    let expected = resolve(&ladder(), &[1], me, false, Some(&overwrites));
    assert!(expected.contains(send));
    assert!(!expected.contains(history));
    for order in [[0, 2, 1], [1, 0, 2], [1, 2, 0], [2, 0, 1], [2, 1, 0]] {
        let shuffled: Vec<Overwrite> = order.iter().map(|&i| overwrites[i].clone()).collect();
        assert_eq!(resolve(&ladder(), &[1], me, false, Some(&shuffled)), expected);
    }
}
