//! Memberships of groups, with a rank from 0 to 100 for each member, kept as non-fungible
//! items: a group is a collection, a membership an item of it.

use vstd::prelude::*;

use crate::dispatch::DispatchError;

verus! {

/// The rank of a membership, from 0 to 100.
#[derive(Clone, Copy, Debug, Default, Eq, Ord, PartialEq, PartialOrd, Hash)]
pub struct GenericRank(u8);

/// The highest rank.
pub const MAX_RANK: u8 = 100;

/// `a + b`, capped at `cap`.
pub open spec fn capped_add(a: u8, b: u8, cap: u8) -> u8 {
    if a + b > cap {
        cap
    } else {
        (a + b) as u8
    }
}

/// `a - b`, or zero when `b` is larger.
pub open spec fn floored_sub(a: u8, b: u8) -> u8 {
    if a < b {
        0
    } else {
        (a - b) as u8
    }
}

/// The smaller of `n` and the highest rank.
pub open spec fn clamp_rank(n: u8) -> u8 {
    if n > MAX_RANK {
        MAX_RANK
    } else {
        n
    }
}

impl GenericRank {
    #[verifier::type_invariant]
    spec fn within_bounds(self) -> bool {
        self.0 <= MAX_RANK
    }

    /// The rank as a number.
    pub closed spec fn value(self) -> u8 {
        self.0
    }

    /// The lowest rank.
    pub fn min_rank() -> (r: Self)
        ensures
            r.value() == 0,
    {
        GenericRank(0)
    }

    /// The highest rank.
    pub fn max_rank() -> (r: Self)
        ensures
            r.value() == MAX_RANK,
    {
        GenericRank(MAX_RANK)
    }

    /// The rank of administrators: the highest.
    pub fn admin() -> (r: Self)
        ensures
            r.value() == MAX_RANK,
    {
        GenericRank(MAX_RANK)
    }

    /// The rank `n`, or the highest one when `n` is above it.
    pub fn set(self, n: u8) -> (r: Self)
        ensures
            r.value() == clamp_rank(n),
    {
        GenericRank(if n > MAX_RANK { MAX_RANK } else { n })
    }

    /// Raises the rank by `n`, up to the highest.
    pub fn promote_by(self, n: u8) -> (r: Self)
        requires
            n != 0,
        ensures
            r.value() == capped_add(self.value(), n, MAX_RANK),
    {
        proof {
            use_type_invariant(&self);
        }
        let raised = self.0.saturating_add(n);
        GenericRank(if raised > MAX_RANK { MAX_RANK } else { raised })
    }

    /// Lowers the rank by `n`, down to zero.
    pub fn demote_by(self, n: u8) -> (r: Self)
        requires
            n != 0,
        ensures
            r.value() == floored_sub(self.value(), n),
    {
        proof {
            use_type_invariant(&self);
        }
        GenericRank(self.0.saturating_sub(n))
    }

    /// The rank as a number.
    pub fn get(&self) -> (r: u8)
        ensures
            r == self.value(),
            r <= MAX_RANK,
    {
        proof {
            use_type_invariant(self);
        }
        self.0
    }
}

impl From<GenericRank> for u8 {
    fn from(value: GenericRank) -> (r: u8) {
        value.get()
    }
}

impl vstd::std_specs::convert::FromSpecImpl<GenericRank> for u8 {
    open spec fn obeys_from_spec() -> bool {
        true
    }

    open spec fn from_spec(value: GenericRank) -> u8 {
        value.value()
    }
}

impl From<GenericRank> for u16 {
    fn from(value: GenericRank) -> (r: u16) {
        value.get() as u16
    }
}

impl vstd::std_specs::convert::FromSpecImpl<GenericRank> for u16 {
    open spec fn obeys_from_spec() -> bool {
        true
    }

    open spec fn from_spec(value: GenericRank) -> u16 {
        value.value() as u16
    }
}

impl From<GenericRank> for u32 {
    fn from(value: GenericRank) -> (r: u32) {
        value.get() as u32
    }
}

impl vstd::std_specs::convert::FromSpecImpl<GenericRank> for u32 {
    open spec fn obeys_from_spec() -> bool {
        true
    }

    open spec fn from_spec(value: GenericRank) -> u32 {
        value.value() as u32
    }
}

impl From<u8> for GenericRank {
    fn from(value: u8) -> (r: GenericRank) {
        GenericRank::min_rank().set(value)
    }
}

/// The rank a number converts to.
pub closed spec fn rank_of_value(n: u8) -> GenericRank {
    GenericRank(clamp_rank(n))
}

impl vstd::std_specs::convert::FromSpecImpl<u8> for GenericRank {
    open spec fn obeys_from_spec() -> bool {
        true
    }

    open spec fn from_spec(value: u8) -> GenericRank {
        rank_of_value(value)
    }
}

/// The rank of `n`, once converted, has the value `n` capped at the highest rank.
pub proof fn lemma_rank_of_value(n: u8)
    ensures
        rank_of_value(n).value() == clamp_rank(n),
{
}

/// Two ranks with the same value are the same rank.
pub proof fn lemma_value_injective(a: GenericRank, b: GenericRank)
    requires
        a.value() == b.value(),
    ensures
        a == b,
{
}

impl core::ops::Add for GenericRank {
    type Output = GenericRank;

    /// Promotes by the value of `r`.
    fn add(self, r: GenericRank) -> (out: GenericRank) {
        if r.get() == 0 {
            return self;
        }
        self.promote_by(r.get())
    }
}

/// The rank `a + b` gives.
pub closed spec fn rank_sum(a: GenericRank, b: GenericRank) -> GenericRank {
    if b.value() == 0 {
        a
    } else {
        GenericRank(capped_add(a.value(), b.value(), MAX_RANK))
    }
}

impl vstd::std_specs::ops::AddSpecImpl for GenericRank {
    open spec fn obeys_add_spec() -> bool {
        true
    }

    open spec fn add_req(self, rhs: GenericRank) -> bool {
        true
    }

    open spec fn add_spec(self, rhs: GenericRank) -> GenericRank {
        rank_sum(self, rhs)
    }
}

impl core::ops::Sub for GenericRank {
    type Output = GenericRank;

    /// Demotes by the value of `r`.
    fn sub(self, r: GenericRank) -> (out: GenericRank) {
        if r.get() == 0 {
            return self;
        }
        self.demote_by(r.get())
    }
}

/// The rank `a - b` gives.
pub closed spec fn rank_difference(a: GenericRank, b: GenericRank) -> GenericRank {
    if b.value() == 0 {
        a
    } else {
        GenericRank(floored_sub(a.value(), b.value()))
    }
}

impl vstd::std_specs::ops::SubSpecImpl for GenericRank {
    open spec fn obeys_sub_spec() -> bool {
        true
    }

    open spec fn sub_req(self, rhs: GenericRank) -> bool {
        true
    }

    open spec fn sub_spec(self, rhs: GenericRank) -> GenericRank {
        rank_difference(self, rhs)
    }
}

/// What adding or subtracting ranks gives, by value.
pub proof fn lemma_rank_arithmetic(a: GenericRank, b: GenericRank)
    ensures
        b.value() == 0 ==> rank_sum(a, b) == a && rank_difference(a, b) == a,
        b.value() != 0 ==> rank_sum(a, b).value() == capped_add(a.value(), b.value(), MAX_RANK),
        b.value() != 0 ==> rank_difference(a, b).value() == floored_sub(a.value(), b.value()),
{
}

/// Promoting by `n` and then demoting by `n` gives the rank back, when the promotion did not
/// reach the cap.
pub proof fn lemma_promote_then_demote(value: u8, n: u8)
    requires
        n != 0,
        value + n <= MAX_RANK,
    ensures
        floored_sub(capped_add(value, n, MAX_RANK), n) == value,
{
}

/// Demoting by `n` and then promoting by `n` gives the rank back, when the demotion did not
/// reach zero.
pub proof fn lemma_demote_then_promote(value: u8, n: u8)
    requires
        n != 0,
        n <= value <= MAX_RANK,
    ensures
        capped_add(floored_sub(value, n), n, MAX_RANK) == value,
{
}

/// The sum of some ranks.
pub open spec fn ranks_sum(ranks: Seq<u8>) -> int
    decreases ranks.len(),
{
    if ranks.len() == 0 {
        0
    } else {
        ranks_sum(ranks.drop_last()) + ranks.last()
    }
}

/// The group total of ranks after one member's rank goes from `prev` to `new`.
pub open spec fn total_after_rank_change(prev_total: u32, prev: u8, new: u8) -> int {
    if new > prev {
        prev_total + (new - prev)
    } else {
        prev_total - (prev - new)
    }
}

proof fn lemma_ranks_sum_update(ranks: Seq<u8>, i: int, new: u8)
    requires
        0 <= i < ranks.len(),
    ensures
        ranks_sum(ranks.update(i, new)) == ranks_sum(ranks) - ranks[i] + new,
    decreases ranks.len(),
{
    let updated = ranks.update(i, new);
    if i == ranks.len() - 1 {
        assert(updated.drop_last() =~= ranks.drop_last());
    } else {
        assert(updated.drop_last() =~= ranks.drop_last().update(i, new));
        lemma_ranks_sum_update(ranks.drop_last(), i, new);
    }
}

/// A group keeps the total of its members' ranks: when that total is the sum of the ranks and
/// one member's rank changes, the total that `set_rank` writes is the sum of the new ranks.
pub proof fn lemma_rank_total_is_sum(ranks: Seq<u8>, i: int, new: u8)
    requires
        0 <= i < ranks.len(),
        0 <= ranks_sum(ranks) <= u32::MAX,
    ensures
        total_after_rank_change(ranks_sum(ranks) as u32, ranks[i], new) == ranks_sum(
            ranks.update(i, new),
        ),
{
    lemma_ranks_sum_update(ranks, i, new);
}

/// A membership held by an account: its group and its own id.
pub type GroupMembership = (u32, u32);

/// Memberships kept as non-fungible items. The item store itself is the runtime's: these
/// functions take what it holds and compute what the memberships' logic decides from it.
pub struct NonFungiblesMemberships;

/// The group of the first of `owned` that is the membership `m`.
pub open spec fn group_of_membership(owned: Seq<GroupMembership>, m: u32) -> Option<u32>
    decreases owned.len(),
{
    if owned.len() == 0 {
        None
    } else if owned[0].1 == m {
        Some(owned[0].0)
    } else {
        group_of_membership(owned.drop_first(), m)
    }
}

/// The memberships of `owned` in `group`, or all of them without a group.
pub open spec fn in_group(owned: Seq<GroupMembership>, maybe_group: Option<u32>) -> Seq<
    GroupMembership,
> {
    match maybe_group {
        Some(g) => owned.filter(|x: GroupMembership| x.0 == g),
        None => owned,
    }
}

impl NonFungiblesMemberships {
    /// The group of the membership `m` among those an account owns (in the order the item
    /// store lists them), if it owns it.
    pub fn check_membership(owned: &Vec<GroupMembership>, m: u32) -> (r: Option<u32>)
        ensures
            r == group_of_membership(owned@, m),
    {
        let mut i: usize = 0;
        assert(owned@.skip(0) =~= owned@);
        while i < owned.len()
            invariant
                0 <= i <= owned.len(),
                group_of_membership(owned@, m) == group_of_membership(owned@.skip(i as int), m),
            decreases owned.len() - i,
        {
            assert(owned@.skip(i as int).drop_first() =~= owned@.skip(i + 1));
            if owned[i].1 == m {
                return Some(owned[i].0);
            }
            i = i + 1;
        }
        None
    }

    /// The memberships an account owns, in `group` when one is given.
    pub fn memberships_of(owned: &Vec<GroupMembership>, maybe_group: Option<u32>) -> (r: Vec<
        GroupMembership,
    >)
        ensures
            r@ == in_group(owned@, maybe_group),
    {
        match maybe_group {
            None => {
                let mut out: Vec<GroupMembership> = Vec::new();
                let mut i: usize = 0;
                while i < owned.len()
                    invariant
                        0 <= i <= owned.len(),
                        out@ == owned@.take(i as int),
                    decreases owned.len() - i,
                {
                    out.push(owned[i]);
                    i = i + 1;
                    assert(out@ =~= owned@.take(i as int));
                }
                assert(owned@.take(owned@.len() as int) =~= owned@);
                out
            },
            Some(g) => {
                let mut out: Vec<GroupMembership> = Vec::new();
                let mut i: usize = 0;
                while i < owned.len()
                    invariant
                        0 <= i <= owned.len(),
                        out@ == owned@.take(i as int).filter(|x: GroupMembership| x.0 == g),
                    decreases owned.len() - i,
                {
                    proof {
                        let f = |x: GroupMembership| x.0 == g;
                        assert(owned@.take(i + 1).drop_last() =~= owned@.take(i as int));
                        owned@.take(i as int).lemma_filter_push(owned@[i as int], f);
                        assert(owned@.take(i as int).push(owned@[i as int]) =~= owned@.take(i + 1));
                    }
                    if owned[i].0 == g {
                        out.push(owned[i]);
                    }
                    i = i + 1;
                }
                assert(owned@.take(owned@.len() as int) =~= owned@);
                out
            },
        }
    }

    /// Whether an account is a member of `group`: whether it owns a membership of it.
    pub fn is_member_of(owned: &Vec<GroupMembership>, group: u32) -> (r: bool)
        ensures
            r <==> in_group(owned@, Some(group)).len() > 0,
    {
        let mine = Self::memberships_of(owned, Some(group));
        mine.len() > 0
    }

    /// The total of a group's member count after one more member is assigned.
    pub fn members_total_after_assign(count: u32) -> (r: u32)
        requires
            count < u32::MAX,
        ensures
            r == count + 1,
    {
        count + 1
    }

    /// The total of a group's member count after a member is released.
    pub fn members_total_after_release(count: u32) -> (r: u32)
        requires
            count > 0,
        ensures
            r == count - 1,
    {
        count - 1
    }

    /// The total of a group's ranks after a member's rank goes from `prev` to `new`.
    pub fn ranks_total_after_set(prev_total: u32, prev: GenericRank, new: GenericRank) -> (r: u32)
        requires
            0 <= total_after_rank_change(prev_total, prev.value(), new.value()) <= u32::MAX,
        ensures
            r == total_after_rank_change(prev_total, prev.value(), new.value()),
    {
        let p = prev.get();
        let n = new.get();
        if n > p {
            prev_total + (n - p) as u32
        } else {
            prev_total - (p - n) as u32
        }
    }
}

impl NonFungiblesMemberships {
    /// Setting the rank of a membership whose current rank is `prev` (`None` when it has none,
    /// which is not a membership) in a group whose ranks total `prev_total`: the rank and the
    /// total to write.
    pub fn set_rank_plan(prev: Option<GenericRank>, new: GenericRank, prev_total: u32) -> (r: Result<
        (GenericRank, u32),
        DispatchError,
    >)
        requires
            prev matches Some(p) ==> 0 <= total_after_rank_change(prev_total, p.value(), new.value()) <= u32::MAX,
        ensures
            match prev {
                None => r matches Err(DispatchError::Other(m)) && m@ == "Invalid membership"@,
                Some(p) => r == Ok::<(GenericRank, u32), DispatchError>(
                    (new, total_after_rank_change(prev_total, p.value(), new.value()) as u32),
                ),
            },
    {
        match prev {
            None => Err(DispatchError::Other("Invalid membership")),
            Some(p) => Ok((new, Self::ranks_total_after_set(prev_total, p, new))),
        }
    }
}

/// Reads memberships: implemented by each membership store.
pub trait Inspect<AccountId> {
    type Group;
    type Membership;

    /// The memberships of `who`, in `maybe_group` when one is given.
    fn user_memberships(who: &AccountId, maybe_group: Option<Self::Group>) -> Vec<
        (Self::Group, Self::Membership),
    >;

    /// The group of the membership `m`, if `who` owns it.
    fn check_membership(who: &AccountId, m: &Self::Membership) -> Option<Self::Group>;

    /// How many members a group has.
    fn members_total(group: &Self::Group) -> u32;
}

/// Assigns and releases memberships: implemented by each membership store.
pub trait Manager<AccountId>: Inspect<AccountId> {
    /// Moves an unclaimed membership of the manager group to `who`, in `group`.
    fn assign(group: &Self::Group, m: &Self::Membership, who: &AccountId) -> Result<(), DispatchError>;

    /// Releases a claimed membership of `group`.
    fn release(group: &Self::Group, m: &Self::Membership) -> Result<(), DispatchError>;
}

/// Ranks memberships: implemented by each membership store.
pub trait Rank<AccountId>: Inspect<AccountId> {
    /// The rank of a membership, if it has one.
    fn rank_of(group: &Self::Group, m: &Self::Membership) -> Option<GenericRank>;

    /// Sets the rank of a membership.
    fn set_rank(group: &Self::Group, m: &Self::Membership, rank: GenericRank) -> Result<(), DispatchError>;

    /// The sum of the ranks of all members of a group.
    fn ranks_total(group: &Self::Group) -> u32;
}

/// Lists memberships: implemented by each membership store.
pub trait InspectEnumerable<AccountId>: Inspect<AccountId> {
    /// The memberships of a group that no member holds yet.
    fn group_available_memberships(group: &Self::Group) -> Vec<Self::Membership>;

    /// The memberships of `who`, in `maybe_group` when one is given.
    fn memberships_of(who: &AccountId, maybe_group: Option<Self::Group>) -> Vec<(Self::Group, Self::Membership)>;
}

/// Keeps attributes of memberships, as encoded keys and values: implemented by each
/// membership store.
pub trait Attributes<AccountId>: Inspect<AccountId> {
    fn membership_attribute(g: &Self::Group, m: &Self::Membership, key: &[u8]) -> Option<Vec<u8>>;

    fn set_membership_attribute(
        g: &Self::Group,
        m: &Self::Membership,
        key: &[u8],
        value: &[u8],
    ) -> Result<(), DispatchError>;

    fn clear_membership_attribute(g: &Self::Group, m: &Self::Membership, key: &[u8]) -> Result<(), DispatchError>;
}

/// Acts when a membership was assigned.
pub trait OnMembershipAssigned<AccountId, Group, Membership> {
    fn on_membership_assigned(&self, who: AccountId, group: Group, membership: Membership) -> Result<(), DispatchError>;
}

/// Does nothing.
impl<A, G, M> OnMembershipAssigned<A, G, M> for () {
    fn on_membership_assigned(&self, who: A, group: G, membership: M) -> (r: Result<(), DispatchError>)
        ensures
            r is Ok,
    {
        Ok(())
    }
}

/// Acts when a membership was released.
pub trait OnMembershipReleased<Group, Membership> {
    fn on_membership_released(&self, group: Group, membership: Membership) -> Result<(), DispatchError>;
}

/// Does nothing.
impl<G, M> OnMembershipReleased<G, M> for () {
    fn on_membership_released(&self, group: G, membership: M) -> (r: Result<(), DispatchError>)
        ensures
            r is Ok,
    {
        Ok(())
    }
}

/// Acts when the rank of a membership was set.
pub trait OnRankSet<Group, Membership> {
    fn on_rank_set(&self, group: Group, membership: Membership, rank: GenericRank) -> Result<(), DispatchError>;
}

/// Does nothing.
impl<G, M> OnRankSet<G, M> for () {
    fn on_rank_set(&self, group: G, membership: M, rank: GenericRank) -> (r: Result<(), DispatchError>)
        ensures
            r is Ok,
    {
        Ok(())
    }
}

/// A membership store `T` whose changes call hooks: each hook runs after the store made its
/// change, and only then; an error of the store or of the hook is the call's.
pub struct WithHooks<T>(core::marker::PhantomData<T>);

impl<T> WithHooks<T> {
    /// Assigns a membership with the store, then calls the hook.
    pub fn assign<AccountId: Clone, H: OnMembershipAssigned<AccountId, T::Group, T::Membership>>(
        hook: &H,
        group: &T::Group,
        m: &T::Membership,
        who: &AccountId,
    ) -> (r: Result<(), DispatchError>) where T: Manager<AccountId>, T::Group: Clone, T::Membership: Clone
        ensures
            exists|s: Result<(), DispatchError>|
                #[trigger] call_ensures(T::assign, (group, m, who), s) && match s {
                    Err(e) => r == Err::<(), DispatchError>(e),
                    Ok(()) => exists|w: AccountId, g: T::Group, mm: T::Membership|
                        #[trigger] call_ensures(H::on_membership_assigned, (hook, w, g, mm), r) && cloned(*who, w)
                            && cloned(*group, g) && cloned(*m, mm),
                },
    {
        let s = T::assign(group, m, who);
        assert(call_ensures(T::assign, (group, m, who), s));
        match s {
            Err(e) => Err(e),
            Ok(()) => {
                let w = who.clone();
                let g = group.clone();
                let mm = m.clone();
                let r = hook.on_membership_assigned(w, g, mm);
                assert(call_ensures(H::on_membership_assigned, (hook, w, g, mm), r));
                r
            },
        }
    }

    /// Releases a membership with the store, then calls the hook.
    pub fn release<AccountId, H: OnMembershipReleased<T::Group, T::Membership>>(
        hook: &H,
        group: &T::Group,
        m: &T::Membership,
    ) -> (r: Result<(), DispatchError>) where T: Manager<AccountId>, T::Group: Clone, T::Membership: Clone
        ensures
            exists|s: Result<(), DispatchError>|
                #[trigger] call_ensures(T::release, (group, m), s) && match s {
                    Err(e) => r == Err::<(), DispatchError>(e),
                    Ok(()) => exists|g: T::Group, mm: T::Membership|
                        #[trigger] call_ensures(H::on_membership_released, (hook, g, mm), r) && cloned(*group, g)
                            && cloned(*m, mm),
                },
    {
        let s = T::release(group, m);
        assert(call_ensures(T::release, (group, m), s));
        match s {
            Err(e) => Err(e),
            Ok(()) => {
                let g = group.clone();
                let mm = m.clone();
                let r = hook.on_membership_released(g, mm);
                assert(call_ensures(H::on_membership_released, (hook, g, mm), r));
                r
            },
        }
    }

    /// Sets a rank with the store, then calls the hook.
    pub fn set_rank<AccountId, H: OnRankSet<T::Group, T::Membership>>(
        hook: &H,
        group: &T::Group,
        m: &T::Membership,
        rank: GenericRank,
    ) -> (r: Result<(), DispatchError>) where T: Rank<AccountId>, T::Group: Clone, T::Membership: Clone
        ensures
            exists|s: Result<(), DispatchError>|
                #[trigger] call_ensures(T::set_rank, (group, m, rank), s) && match s {
                    Err(e) => r == Err::<(), DispatchError>(e),
                    Ok(()) => exists|g: T::Group, mm: T::Membership|
                        #[trigger] call_ensures(H::on_rank_set, (hook, g, mm, rank), r) && cloned(*group, g)
                            && cloned(*m, mm),
                },
    {
        let s = T::set_rank(group, m, rank);
        assert(call_ensures(T::set_rank, (group, m, rank), s));
        match s {
            Err(e) => Err(e),
            Ok(()) => {
                let g = group.clone();
                let mm = m.clone();
                let r = hook.on_rank_set(g, mm, rank);
                assert(call_ensures(H::on_rank_set, (hook, g, mm, rank), r));
                r
            },
        }
    }
}

} // verus!
