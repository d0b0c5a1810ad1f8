//! Gas tanks: an allowance of weight that the holder of a membership item can spend on
//! transactions, renewed every period. The tank and the amount reserved for the transaction
//! being paid are attributes of the item; the runtime reads them from its item store, hands
//! them to these functions, and writes back what they leave.

use vstd::prelude::*;

use crate::authn::Get;
use crate::dispatch::DispatchError;
use crate::weight::{
    weight_checked_add, weight_checked_sub, weight_max, weight_saturating_sub, weight_zero, Weight,
};

verus! {

/// The gas a holder can spend: `used` of `capacity_per_period` since the block `since`, renewed
/// every `period` blocks. A tank with no capacity is unlimited.
#[derive(Clone, Copy, Debug, PartialEq, Eq, Structural)]
pub struct WeightTank {
    pub since: u64,
    pub used: Weight,
    pub period: Option<u64>,
    pub capacity_per_period: Option<Weight>,
}

impl WeightTank {
    /// A tank with nothing used yet, counting from the block `since`.
    pub fn new(capacity_per_period: Option<Weight>, since: u64, period: Option<u64>) -> (r: Self)
        ensures
            r == (WeightTank { since, used: weight_zero(), period, capacity_per_period }),
    {
        WeightTank { since, used: Weight::zero(), period, capacity_per_period }
    }
}

/// An item an account owns, as the gas tank sees it: whether the runtime's selector picks it,
/// its tank, and the gas reserved on it for the transaction being paid.
#[derive(Clone, Copy, Debug, PartialEq, Eq, Structural)]
pub struct TankItem {
    pub collection: u32,
    pub item: u32,
    pub selected: bool,
    pub tank: Option<WeightTank>,
    pub reserved: Option<Weight>,
}

/// What checking one item for `estimated` gas at `block` gives, and the item afterwards.
///
/// A tank whose period has passed is renewed first (and stays renewed even when the gas then
/// does not suffice); an unlimited tank has all the gas there is.
pub open spec fn check_item(t: TankItem, block: u64, estimated: Weight) -> (Option<Weight>, TankItem) {
    if !t.selected {
        (None, t)
    } else {
        match t.tank {
            None => (None, t),
            Some(tank) => match tank.capacity_per_period {
                None => (Some(weight_max()), t),
                Some(capacity) => {
                    let period = match tank.period {
                        Some(p) => p,
                        None => u64::MAX,
                    };
                    if block < tank.since {
                        (None, t)
                    } else if block - tank.since > period && block + period > u64::MAX {
                        (None, t)
                    } else {
                        let renewed = if block - tank.since > period {
                            WeightTank { since: (block + period) as u64, used: weight_zero(), ..tank }
                        } else {
                            tank
                        };
                        let t2 = TankItem { tank: Some(renewed), ..t };
                        match weight_checked_add(renewed.used, estimated) {
                            None => (None, t2),
                            Some(total) => match weight_checked_sub(capacity, total) {
                                None => (None, t2),
                                Some(remaining) => (
                                    Some(remaining),
                                    TankItem { reserved: Some(remaining), ..t2 },
                                ),
                            },
                        }
                    }
                },
            },
        }
    }
}

/// Checking the items from the `i`-th on: the first that has the gas answers, and each one
/// checked before it is left as checking it left it.
pub open spec fn check_from(items: Seq<TankItem>, i: int, block: u64, estimated: Weight) -> (
    Option<Weight>,
    Seq<TankItem>,
)
    decreases items.len() - i,
{
    if i < 0 || i >= items.len() {
        (None, items)
    } else {
        let (outcome, t2) = check_item(items[i], block, estimated);
        let items2 = items.update(i, t2);
        if outcome is Some {
            (outcome, items2)
        } else {
            check_from(items2, i + 1, block, estimated)
        }
    }
}

/// What burning `used` gas on one item, for a transaction that reserved `expected`, gives, and
/// the item afterwards. Only the item that holds the reservation is burnt on; the reservation
/// is then cleared, and a limited tank counts the gas as used.
pub open spec fn burn_item(t: TankItem, expected: Weight, used: Weight) -> (Option<Weight>, TankItem) {
    match t.reserved {
        None => (None, t),
        Some(r) => if r != expected {
            (None, t)
        } else {
            let cleared = TankItem { reserved: None, ..t };
            match t.tank {
                None => (None, cleared),
                Some(tank) => match tank.capacity_per_period {
                    None => (None, cleared),
                    Some(capacity) => match weight_checked_add(tank.used, used) {
                        None => (None, cleared),
                        Some(total) => {
                            let burnt = WeightTank { used: total, ..tank };
                            (
                                Some(weight_saturating_sub(capacity, total)),
                                TankItem { tank: Some(burnt), ..cleared },
                            )
                        },
                    },
                },
            }
        },
    }
}

/// Burning on the items from the `i`-th on: the first that answers stops it.
pub open spec fn burn_from(items: Seq<TankItem>, i: int, expected: Weight, used: Weight) -> (
    Option<Weight>,
    Seq<TankItem>,
)
    decreases items.len() - i,
{
    if i < 0 || i >= items.len() {
        (None, items)
    } else {
        let (outcome, t2) = burn_item(items[i], expected, used);
        let items2 = items.update(i, t2);
        if outcome is Some {
            (outcome, items2)
        } else {
            burn_from(items2, i + 1, expected, used)
        }
    }
}

/// The items after checking the first `i` of them.
pub open spec fn prefix_checked(items: Seq<TankItem>, i: int, block: u64, estimated: Weight) -> Seq<TankItem> {
    Seq::new(
        items.len(),
        |k: int|
            if k < i {
                check_item(items[k], block, estimated).1
            } else {
                items[k]
            },
    )
}

proof fn lemma_check_skips(items: Seq<TankItem>, i: int, block: u64, estimated: Weight)
    requires
        0 <= i <= items.len(),
        forall|k: int| 0 <= k < i ==> (#[trigger] check_item(items[k], block, estimated)).0 is None,
    ensures
        check_from(items, 0, block, estimated) == check_from(prefix_checked(items, i, block, estimated), i, block, estimated),
    decreases i,
{
    if i == 0 {
        assert(prefix_checked(items, 0, block, estimated) =~= items);
    } else {
        lemma_check_skips(items, i - 1, block, estimated);
        let p = prefix_checked(items, i - 1, block, estimated);
        assert(p[i - 1] == items[i - 1]);
        assert(check_item(items[i - 1], block, estimated).0 is None);
        assert(p.update(i - 1, check_item(p[i - 1], block, estimated).1) =~= prefix_checked(items, i, block, estimated));
    }
}

proof fn lemma_burn_skips(items: Seq<TankItem>, i: int, expected: Weight, used: Weight)
    requires
        0 <= i <= items.len(),
        forall|k: int| 0 <= k < i ==> (#[trigger] items[k]).reserved != Some(expected),
    ensures
        burn_from(items, 0, expected, used) == burn_from(items, i, expected, used),
    decreases i,
{
    if i > 0 {
        lemma_burn_skips(items, i - 1, expected, used);
        assert(items.update(i - 1, items[i - 1]) =~= items);
    }
}

/// Burning right after a check what the check estimated gives back what the check said
/// would be left: the first item that had the gas holds the reservation, and burning on it
/// leaves exactly that. (When the tank that answered is limited, and no item before it holds
/// a reservation of the same amount.)
pub proof fn lemma_burn_after_check(items: Seq<TankItem>, i: int, block: u64, estimated: Weight, left: Weight)
    requires
        0 <= i < items.len(),
        forall|k: int| 0 <= k < i ==> (#[trigger] check_item(items[k], block, estimated)).0 is None,
        forall|k: int| 0 <= k < i ==> (#[trigger] items[k]).reserved != Some(left),
        check_item(items[i], block, estimated).0 == Some(left),
        items[i].tank matches Some(t) && t.capacity_per_period is Some,
    ensures
        check_from(items, 0, block, estimated).0 == Some(left),
        burn_from(check_from(items, 0, block, estimated).1, 0, left, estimated).0 == Some(left),
{
    lemma_check_skips(items, i, block, estimated);
    let p = prefix_checked(items, i, block, estimated);
    let t_i = check_item(items[i], block, estimated).1;
    assert(p[i] == items[i]);
    let f = p.update(i, t_i);
    assert(check_from(items, 0, block, estimated) == (Some(left), f));
    assert forall|k: int| 0 <= k < i implies (#[trigger] f[k]).reserved != Some(left) by {
        assert(f[k] == check_item(items[k], block, estimated).1);
        assert(check_item(items[k], block, estimated).0 is None);
        assert(items[k].reserved != Some(left));
    }
    lemma_burn_skips(f, i, left, estimated);
    assert(f[i] == t_i);
    assert(t_i.reserved == Some(left));
}

/// What refuelling `gas` on a tank gives, and the tank afterwards.
pub open spec fn refuel_tank(selected: bool, tank: Option<WeightTank>, gas: Weight) -> (
    Weight,
    Option<WeightTank>,
) {
    if !selected {
        (weight_zero(), tank)
    } else {
        match tank {
            None => (weight_zero(), tank),
            Some(t) => match t.capacity_per_period {
                None => (weight_max(), tank),
                Some(capacity) => {
                    let refuelled = WeightTank { used: weight_saturating_sub(t.used, gas), ..t };
                    (weight_saturating_sub(capacity, refuelled.used), Some(refuelled))
                },
            },
        }
    }
}

/// Checking one item for `estimated` gas at `block`: an item the selector does not pick, or
/// with no tank, has no gas and stays; an unlimited tank has all the gas there is and stays.
/// A limited tank within its period has the gas exactly when what it used and the estimate
/// together fit in its capacity (in both dimensions); it then answers, and reserves on the
/// item, what the capacity leaves after both, and otherwise the item stays. A tank whose
/// period has passed counts nothing used: it has the gas exactly when the estimate fits.
pub proof fn lemma_check_item_answers(t: TankItem, block: u64, estimated: Weight)
    ensures
        !t.selected || t.tank is None ==> check_item(t, block, estimated) == (None::<Weight>, t),
        t.selected ==> match t.tank {
            None => true,
            Some(tank) => match tank.capacity_per_period {
                None => check_item(t, block, estimated) == (Some(Weight { ref_time: u64::MAX, proof_size: u64::MAX }), t),
                Some(c) => {
                    let period: int = match tank.period {
                        Some(p) => p as int,
                        None => u64::MAX as int,
                    };
                    let (answer, t2) = check_item(t, block, estimated);
                    let used = if tank.since <= block && block - tank.since > period {
                        Weight { ref_time: 0, proof_size: 0 }
                    } else {
                        tank.used
                    };
                    let fits = used.ref_time + estimated.ref_time <= c.ref_time && used.proof_size
                        + estimated.proof_size <= c.proof_size;
                    &&& block < tank.since ==> answer is None && t2 == t
                    &&& (tank.since <= block && (block - tank.since <= period || block + period <= u64::MAX)) ==> {
                        &&& (answer is Some <==> fits)
                        &&& answer matches Some(left) ==> left.ref_time == c.ref_time - used.ref_time - estimated.ref_time
                            && left.proof_size == c.proof_size - used.proof_size - estimated.proof_size
                            && t2.reserved == Some(left)
                        &&& t2.selected == t.selected && t2.collection == t.collection && t2.item == t.item
                        &&& t2.tank matches Some(tank2) && tank2.used == used && tank2.capacity_per_period == Some(c)
                            && tank2.period == tank.period
                        &&& block - tank.since <= period ==> t2.tank == t.tank && (answer is None ==> t2 == t)
                    }
                },
            },
        },
{
}

/// Burning `used` gas for a transaction that reserved `expected` only touches an item holding
/// that very reservation: it clears the reservation and, on a limited tank whose use does not
/// overflow, counts the gas as used and answers what its capacity leaves (nothing when it is
/// exceeded); any other item stays as it was and answers nothing.
pub proof fn lemma_burn_item_answers(t: TankItem, expected: Weight, used: Weight)
    ensures
        t.reserved != Some(expected) ==> burn_item(t, expected, used) == (None::<Weight>, t),
        t.reserved == Some(expected) ==> ({
            let (answer, t2) = burn_item(t, expected, used);
            &&& t2.reserved is None && t2.selected == t.selected && t2.collection == t.collection && t2.item == t.item
            &&& match t.tank {
                Some(tank) => match tank.capacity_per_period {
                    Some(c) => if tank.used.ref_time + used.ref_time <= u64::MAX && tank.used.proof_size + used.proof_size
                        <= u64::MAX {
                        let total_ref: int = tank.used.ref_time + used.ref_time;
                        let total_proof: int = tank.used.proof_size + used.proof_size;
                        &&& t2.tank matches Some(tank2) && tank2.used.ref_time == total_ref && tank2.used.proof_size
                            == total_proof && tank2.since == tank.since && tank2.period == tank.period
                            && tank2.capacity_per_period == Some(c)
                        &&& answer matches Some(left) && left.ref_time == (if c.ref_time <= total_ref { 0 } else {
                            c.ref_time - total_ref
                        }) && left.proof_size == (if c.proof_size <= total_proof { 0 } else { c.proof_size - total_proof })
                    } else {
                        answer is None && t2.tank == t.tank
                    },
                    None => answer is None && t2.tank == t.tank,
                },
                None => answer is None && t2.tank == t.tank,
            }
        }),
{
}

/// Refuelling gives gas back only to a tank the selector picks: an item it does not pick, or
/// one with no tank, gets nothing and stays as it was. A picked tank with a capacity has the
/// gas taken off what it used (down to nothing), keeps the rest of its fields, and gives what
/// is left of its capacity; a picked tank with no capacity stays and has all the gas there is.
pub proof fn lemma_refuel_only_selected(selected: bool, tank: Option<WeightTank>, gas: Weight)
    ensures
        !selected || tank is None ==> refuel_tank(selected, tank, gas) == (Weight { ref_time: 0, proof_size: 0 }, tank),
        selected ==> match tank {
            None => true,
            Some(t) => match t.capacity_per_period {
                None => refuel_tank(selected, tank, gas) == (Weight { ref_time: u64::MAX, proof_size: u64::MAX }, tank),
                Some(c) => {
                    let (left, after) = refuel_tank(selected, tank, gas);
                    let used_ref: int = if t.used.ref_time <= gas.ref_time { 0 } else { t.used.ref_time - gas.ref_time };
                    let used_proof: int = if t.used.proof_size <= gas.proof_size {
                        0
                    } else {
                        t.used.proof_size - gas.proof_size
                    };
                    &&& after matches Some(u)
                    &&& after->0.used.ref_time == used_ref && after->0.used.proof_size == used_proof
                    &&& after->0.since == t.since && after->0.period == t.period
                    &&& after->0.capacity_per_period == t.capacity_per_period
                    &&& left.ref_time == (if c.ref_time <= used_ref { 0 } else { c.ref_time - used_ref })
                    &&& left.proof_size == (if c.proof_size <= used_proof { 0 } else { c.proof_size - used_proof })
                },
            },
        },
{
}

/// Selects every item: the default selector of a gas tank.
pub struct Noop;

impl Get<Box<()>> for Noop {
    open spec fn value() -> Box<()> {
        Box::new(())
    }

    fn get() -> (r: Box<()>) {
        Box::new(())
    }
}

/// A gas tank kept on non-fungible items.
pub struct NonFungibleGasTank;

fn check_one(t: TankItem, block: u64, estimated: Weight) -> (r: (Option<Weight>, TankItem))
    ensures
        r == check_item(t, block, estimated),
{
    if !t.selected {
        return (None, t);
    }
    let tank = match t.tank {
        None => return (None, t),
        Some(tank) => tank,
    };
    let capacity = match tank.capacity_per_period {
        None => return (Some(Weight::max_value()), t),
        Some(c) => c,
    };
    let period = match tank.period {
        Some(p) => p,
        None => u64::MAX,
    };
    if block < tank.since {
        return (None, t);
    }
    let mut renewed = tank;
    if block - tank.since > period {
        match block.checked_add(period) {
            None => return (None, t),
            Some(since) => {
                renewed = WeightTank { since, used: Weight::zero(), ..tank };
            },
        }
    }
    let t2 = TankItem { tank: Some(renewed), ..t };
    let total = match renewed.used.checked_add(estimated) {
        None => return (None, t2),
        Some(total) => total,
    };
    match capacity.checked_sub(total) {
        None => (None, t2),
        Some(remaining) => (Some(remaining), TankItem { reserved: Some(remaining), ..t2 }),
    }
}

fn burn_one(t: TankItem, expected: Weight, used: Weight) -> (r: (Option<Weight>, TankItem))
    ensures
        r == burn_item(t, expected, used),
{
    let reserved = match t.reserved {
        None => return (None, t),
        Some(r) => r,
    };
    if reserved != expected {
        return (None, t);
    }
    let cleared = TankItem { reserved: None, ..t };
    let tank = match t.tank {
        None => return (None, cleared),
        Some(tank) => tank,
    };
    let capacity = match tank.capacity_per_period {
        None => return (None, cleared),
        Some(c) => c,
    };
    match tank.used.checked_add(used) {
        None => (None, cleared),
        Some(total) => {
            let burnt = WeightTank { used: total, ..tank };
            (Some(capacity.saturating_sub(total)), TankItem { tank: Some(burnt), ..cleared })
        },
    }
}

impl NonFungibleGasTank {
    /// Checks whether an account has `estimated` gas available, on the items it owns (in the
    /// order the item store lists them): the first selected item whose tank has it reserves
    /// the gas that would be left, and that is returned. `None` when no item has it.
    pub fn check_available_gas(items: &mut Vec<TankItem>, estimated: Weight, block: u64) -> (r:
        Option<Weight>)
        ensures
            (r, final(items)@) == check_from(old(items)@, 0, block, estimated),
    {
        let ghost start = items@;
        let mut i: usize = 0;
        while i < items.len()
            invariant
                0 <= i <= items@.len(),
                items@.len() == start.len(),
                start == old(items)@,
                check_from(start, 0, block, estimated) == check_from(items@, i as int, block, estimated),
            decreases items@.len() - i,
        {
            let (outcome, t2) = check_one(items[i], block, estimated);
            let ghost before = items@;
            items.set(i, t2);
            assert(items@ == before.update(i as int, t2));
            assert(check_from(before, i as int, block, estimated) == (if outcome is Some {
                (outcome, items@)
            } else {
                check_from(items@, i + 1, block, estimated)
            }));
            if outcome.is_some() {
                return outcome;
            }
            i = i + 1;
        }
        None
    }

    /// Burns the `used` gas of a transaction that reserved `expected`, on the item that holds
    /// that reservation, and returns what is left in its tank (zero when no item holds it or
    /// the tank is unlimited).
    pub fn burn_gas(items: &mut Vec<TankItem>, expected: Weight, used: Weight) -> (r: Weight)
        ensures
            ({
                let (outcome, after) = burn_from(old(items)@, 0, expected, used);
                &&& final(items)@ == after
                &&& r == match outcome {
                    Some(w) => w,
                    None => weight_zero(),
                }
            }),
    {
        let ghost start = items@;
        let mut i: usize = 0;
        while i < items.len()
            invariant
                0 <= i <= items@.len(),
                items@.len() == start.len(),
                start == old(items)@,
                burn_from(start, 0, expected, used) == burn_from(items@, i as int, expected, used),
            decreases items@.len() - i,
        {
            let (outcome, t2) = burn_one(items[i], expected, used);
            let ghost before = items@;
            items.set(i, t2);
            assert(items@ == before.update(i as int, t2));
            assert(burn_from(before, i as int, expected, used) == (if outcome is Some {
                (outcome, items@)
            } else {
                burn_from(items@, i + 1, expected, used)
            }));
            match outcome {
                Some(w) => return w,
                None => {},
            }
            i = i + 1;
        }
        Weight::zero()
    }

    /// Refills `gas` on a tank, and returns what it then holds: zero when the item is not
    /// selected or has no tank, all the gas there is when the tank is unlimited.
    pub fn refuel_gas(selected: bool, tank: &mut Option<WeightTank>, gas: Weight) -> (r: Weight)
        ensures
            (r, *final(tank)) == refuel_tank(selected, *old(tank), gas),
    {
        if !selected {
            return Weight::zero();
        }
        let t = match *tank {
            None => return Weight::zero(),
            Some(t) => t,
        };
        let capacity = match t.capacity_per_period {
            None => return Weight::max_value(),
            Some(c) => c,
        };
        let refuelled = WeightTank { used: t.used.saturating_sub(gas), ..t };
        *tank = Some(refuelled);
        capacity.saturating_sub(refuelled.used)
    }

    /// The tank made for an item at the block `now`, with an optional capacity per period.
    pub fn make_tank(capacity: Option<Weight>, periodicity: Option<u64>, now: u64) -> (r: WeightTank)
        ensures
            r == (WeightTank { since: now, used: weight_zero(), period: periodicity, capacity_per_period: capacity }),
    {
        WeightTank::new(capacity, now, periodicity)
    }
}

/// Burns gas from a tank to spend on transactions.
pub trait GasBurner {
    type AccountId;
    type Gas;

    /// The gas that would be left after burning `estimated`, or `None` when there is not
    /// enough.
    fn check_available_gas(who: &Self::AccountId, estimated: &Self::Gas) -> Option<Self::Gas>;

    /// Spends as much gas as possible, returning what is left in the tank.
    fn burn_gas(who: &Self::AccountId, expected: &Self::Gas, used: &Self::Gas) -> Self::Gas;
}

/// Fuels a tank with gas to spend on later transactions.
pub trait GasFueler {
    type TankId;
    type Gas;

    /// Refills as much gas as possible, returning what the tank then holds.
    fn refuel_gas(id: &Self::TankId, gas: &Self::Gas) -> Self::Gas;
}

/// A tank that both burns and fuels gas.
pub trait GasTank: GasBurner + GasFueler {}

/// Creates tanks.
pub trait MakeTank {
    type TankId;
    type Gas;
    type BlockNumber;

    /// Creates a tank with an optional capacity and an optional period after which it is
    /// renewed.
    fn make_tank(
        id: &Self::TankId,
        capacity: Option<Self::Gas>,
        periodicity: Option<Self::BlockNumber>,
    ) -> Result<(), DispatchError>;
}

} // verus!
