use frame_contrib::memberships::{GenericRank, NonFungiblesMemberships};

#[test]
fn ranks_stay_between_zero_and_a_hundred() {
    let r = GenericRank::min_rank().set(150);
    assert_eq!(r, GenericRank::max_rank());
    assert_eq!(r.get(), 100);
    assert_eq!(GenericRank::from(42u8).get(), 42);
    assert_eq!(GenericRank::from(42u8).promote_by(70).get(), 100);
    assert_eq!(GenericRank::from(42u8).demote_by(70).get(), 0);
    assert_eq!(GenericRank::admin(), GenericRank::max_rank());
}

#[test]
fn promoting_and_demoting_by_the_same_amount_cancel_out() {
    let r = GenericRank::from(40u8);
    assert_eq!(r.promote_by(25).demote_by(25), r);
    assert_eq!(r.demote_by(25).promote_by(25), r);
}

#[test]
fn ranks_add_and_subtract_with_caps() {
    let a = GenericRank::from(60u8);
    let b = GenericRank::from(50u8);
    assert_eq!((a + b).get(), 100);
    assert_eq!((b - a).get(), 0);
    assert_eq!((a - b).get(), 10);
    assert_eq!(a + GenericRank::from(0u8), a);
    assert_eq!(u32::from(a), 60);
    assert_eq!(u16::from(b), 50);
    assert_eq!(u8::from(b), 50);
}

#[test]
fn the_rank_total_follows_each_change() {
    let prev = GenericRank::from(10u8);
    assert_eq!(NonFungiblesMemberships::ranks_total_after_set(30, prev, GenericRank::from(25u8)), 45);
    assert_eq!(NonFungiblesMemberships::ranks_total_after_set(30, prev, GenericRank::from(0u8)), 20);
    assert_eq!(NonFungiblesMemberships::members_total_after_assign(3), 4);
    assert_eq!(NonFungiblesMemberships::members_total_after_release(3), 2);
}

#[test]
fn memberships_are_found_by_id_and_filtered_by_group() {
    let owned = vec![(1u32, 10u32), (2, 20), (1, 30)];
    assert_eq!(NonFungiblesMemberships::check_membership(&owned, 30), Some(1));
    assert_eq!(NonFungiblesMemberships::check_membership(&owned, 40), None);
    assert_eq!(NonFungiblesMemberships::memberships_of(&owned, Some(1)), vec![(1, 10), (1, 30)]);
    assert_eq!(NonFungiblesMemberships::memberships_of(&owned, None), owned);
    assert!(NonFungiblesMemberships::is_member_of(&owned, 2));
    assert!(!NonFungiblesMemberships::is_member_of(&owned, 3));
}

use frame_contrib::dispatch::DispatchError;
use frame_contrib::memberships::{Inspect, Manager, OnMembershipAssigned, OnMembershipReleased, WithHooks};
use std::cell::RefCell;

/// A store that accepts memberships of group 1 only.
struct Store;

impl Inspect<u64> for Store {
    type Group = u32;
    type Membership = u32;
    fn user_memberships(_: &u64, _: Option<u32>) -> Vec<(u32, u32)> {
        vec![]
    }
    fn check_membership(_: &u64, _: &u32) -> Option<u32> {
        None
    }
    fn members_total(_: &u32) -> u32 {
        0
    }
}

impl Manager<u64> for Store {
    fn assign(group: &u32, _: &u32, _: &u64) -> Result<(), DispatchError> {
        if *group == 1 {
            Ok(())
        } else {
            Err(DispatchError::Other("unknown group"))
        }
    }
    fn release(group: &u32, _: &u32) -> Result<(), DispatchError> {
        Self::assign(group, &0, &0)
    }
}

#[derive(Default)]
struct Log(RefCell<Vec<String>>);

impl OnMembershipAssigned<u64, u32, u32> for Log {
    fn on_membership_assigned(&self, who: u64, group: u32, m: u32) -> Result<(), DispatchError> {
        self.0.borrow_mut().push(format!("assigned {who} {group} {m}"));
        Ok(())
    }
}

impl OnMembershipReleased<u32, u32> for Log {
    fn on_membership_released(&self, group: u32, m: u32) -> Result<(), DispatchError> {
        self.0.borrow_mut().push(format!("released {group} {m}"));
        Ok(())
    }
}

#[test]
fn hooks_run_after_the_store_succeeds_only() {
    let log = Log::default();
    assert_eq!(WithHooks::<Store>::assign(&log, &1, &5, &9), Ok(()));
    assert_eq!(WithHooks::<Store>::assign(&log, &2, &5, &9), Err(DispatchError::Other("unknown group")));
    assert_eq!(WithHooks::<Store>::release::<u64, _>(&log, &1, &5), Ok(()));
    assert_eq!(*log.0.borrow(), vec!["assigned 9 1 5".to_string(), "released 1 5".to_string()]);
    assert_eq!(WithHooks::<Store>::assign(&(), &1, &5, &9), Ok(()));
}

#[test]
fn setting_a_rank_needs_a_membership() {
    assert_eq!(
        NonFungiblesMemberships::set_rank_plan(None, GenericRank::from(3u8), 10),
        Err(DispatchError::Other("Invalid membership"))
    );
    assert_eq!(
        NonFungiblesMemberships::set_rank_plan(Some(GenericRank::from(5u8)), GenericRank::from(3u8), 10),
        Ok((GenericRank::from(3u8), 8))
    );
}

use frame_contrib::memberships::{OnRankSet, Rank};

type MemberAccount = [u8; 32];

const MEMBER: MemberAccount = [0x10; 32];
const GROUP: u16 = 1;
const MEMBERSHIP: u32 = 1;

/// A membership store that accepts every change.
struct Accepting;

impl Inspect<MemberAccount> for Accepting {
    type Group = u16;
    type Membership = u32;
    fn user_memberships(_: &MemberAccount, _: Option<u16>) -> Vec<(u16, u32)> {
        vec![]
    }
    fn check_membership(_: &MemberAccount, _: &u32) -> Option<u16> {
        None
    }
    fn members_total(_: &u16) -> u32 {
        0
    }
}

impl Manager<MemberAccount> for Accepting {
    fn assign(_: &u16, _: &u32, _: &MemberAccount) -> Result<(), DispatchError> {
        Ok(())
    }
    fn release(_: &u16, _: &u32) -> Result<(), DispatchError> {
        Ok(())
    }
}

impl Rank<MemberAccount> for Accepting {
    fn rank_of(_: &u16, _: &u32) -> Option<GenericRank> {
        None
    }
    fn set_rank(_: &u16, _: &u32, _: GenericRank) -> Result<(), DispatchError> {
        Ok(())
    }
    fn ranks_total(_: &u16) -> u32 {
        0
    }
}

#[derive(Debug, PartialEq)]
enum Hook {
    MembershipAssigned(MemberAccount, u16, u32),
    MembershipReleased(u16, u32),
    RankSet(u16, u32, GenericRank),
}

/// The hooks called so far, at most four of them.
#[derive(Default)]
struct Hooks(RefCell<Vec<Hook>>);

impl Hooks {
    fn try_append(&self, hook: Hook) -> Result<(), DispatchError> {
        let mut hooks = self.0.borrow_mut();
        if hooks.len() >= 4 {
            return Err(DispatchError::Other("MaxHooks"));
        }
        hooks.push(hook);
        Ok(())
    }
}

impl OnMembershipAssigned<MemberAccount, u16, u32> for Hooks {
    fn on_membership_assigned(&self, who: MemberAccount, g: u16, m: u32) -> Result<(), DispatchError> {
        self.try_append(Hook::MembershipAssigned(who, g, m))
    }
}

impl OnMembershipReleased<u16, u32> for Hooks {
    fn on_membership_released(&self, g: u16, m: u32) -> Result<(), DispatchError> {
        self.try_append(Hook::MembershipReleased(g, m))
    }
}

impl OnRankSet<u16, u32> for Hooks {
    fn on_rank_set(&self, g: u16, m: u32, r: GenericRank) -> Result<(), DispatchError> {
        self.try_append(Hook::RankSet(g, m, r))
    }
}

#[test]
fn noop_hooks_by_default_works() {
    let hooks = Hooks::default();
    assert_eq!(WithHooks::<Accepting>::assign(&(), &GROUP, &MEMBERSHIP, &MEMBER), Ok(()));
    assert_eq!(
        WithHooks::<Accepting>::set_rank::<MemberAccount, _>(&(), &GROUP, &MEMBERSHIP, GenericRank::from(1u8)),
        Ok(())
    );
    assert_eq!(WithHooks::<Accepting>::release::<MemberAccount, _>(&(), &GROUP, &MEMBERSHIP), Ok(()));

    assert_eq!(*hooks.0.borrow(), vec![]);
}

#[test]
fn assigning_and_releasing_calls_hooks() {
    let hooks = Hooks::default();
    assert_eq!(WithHooks::<Accepting>::assign(&hooks, &GROUP, &MEMBERSHIP, &MEMBER), Ok(()));

    assert_eq!(*hooks.0.borrow(), vec![Hook::MembershipAssigned(MEMBER, GROUP, MEMBERSHIP)]);

    assert_eq!(WithHooks::<Accepting>::release::<MemberAccount, _>(&hooks, &GROUP, &MEMBERSHIP), Ok(()));

    assert_eq!(
        *hooks.0.borrow(),
        vec![
            Hook::MembershipAssigned(MEMBER, GROUP, MEMBERSHIP),
            Hook::MembershipReleased(GROUP, MEMBERSHIP)
        ]
    );
}

#[test]
fn setting_rank_calls_hooks() {
    let hooks = Hooks::default();
    assert_eq!(WithHooks::<Accepting>::assign(&hooks, &GROUP, &MEMBERSHIP, &MEMBER), Ok(()));

    assert_eq!(
        WithHooks::<Accepting>::set_rank::<MemberAccount, _>(&hooks, &GROUP, &MEMBERSHIP, GenericRank::from(1u8)),
        Ok(())
    );

    assert_eq!(
        *hooks.0.borrow(),
        vec![
            Hook::MembershipAssigned(MEMBER, GROUP, MEMBERSHIP),
            Hook::RankSet(GROUP, MEMBERSHIP, GenericRank::from(1u8))
        ]
    );
}
