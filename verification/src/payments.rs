//! Payments held in escrow: a sender pays a beneficiary through the pallet, which holds the
//! amount (and the fees and an incentive) until the payment is released, cancelled, refunded,
//! or resolved after a dispute.
//!
//! The balances of the assets are kept in a ledger of free and held amounts per asset and
//! account; every call either applies all its asset operations or none of them.

use std::collections::HashMap;
use vstd::prelude::*;

verus! {

broadcast use vstd::std_specs::hash::group_hash_axioms;

pub type AccountId = u64;

pub type AssetId = u32;

pub type Balance = u128;

pub type PaymentId = u32;

pub type BlockNumber = u64;

/// A party of a payment.
#[derive(Clone, Copy, Debug, PartialEq, Eq, Structural)]
pub enum Role {
    Sender,
    Beneficiary,
}

/// Where a payment stands.
#[derive(Clone, Copy, Debug, PartialEq, Eq, Structural)]
pub enum PaymentState {
    /// Paid and held, waiting for release.
    Created,
    /// Disputed, waiting for a resolver.
    NeedsReview,
    /// The sender asked for a refund, which is cancelled at `cancel_block` unless disputed.
    RefundRequested { cancel_block: BlockNumber },
    /// Transferred to the beneficiary.
    Transferred,
    /// Settled.
    Finished,
    /// Requested by the beneficiary, waiting for the sender to pay.
    PaymentRequested,
}

/// How a resolver decided a dispute: in favour of whom, and the share (a percentage) that the
/// beneficiary gets.
#[derive(Clone, Copy, Debug, PartialEq, Eq, Structural)]
pub struct DisputeResult {
    pub percent_beneficiary: u8,
    pub in_favor_of: Role,
}

/// A fee: who gets it, how much, and whether it is charged even in a dispute.
pub type Fee = (AccountId, Balance, bool);

/// The fees each party pays.
#[derive(Clone, Debug, PartialEq, Eq)]
pub struct Fees {
    pub sender_pays: Vec<Fee>,
    pub beneficiary_pays: Vec<Fee>,
}

/// A payment: what is paid, to whom, the incentive held from each party in case of a dispute,
/// its state, and its fees.
#[derive(Debug, PartialEq, Eq)]
pub struct PaymentDetail {
    pub asset: AssetId,
    pub amount: Balance,
    pub beneficiary: AccountId,
    pub incentive_amount: Balance,
    pub state: PaymentState,
    pub fees: Fees,
}

/// Why a call failed: the pallet's own errors, and those of the arithmetic, the assets and the
/// scheduler that it passes on.
#[derive(Clone, Copy, Debug, PartialEq, Eq, Structural)]
pub enum Error {
    InvalidPayment,
    PaymentAlreadyReleased,
    PaymentAlreadyInProcess,
    InvalidAction,
    PaymentNeedsReview,
    MathError,
    RefundNotRequested,
    DisputePeriodNotPassed,
    RefundQueueFull,
    ReleaseFailed,
    TransferFailed,
    NonExistentStorageValue,
    NoPaymentIdAvailable,
    InvalidBeneficiary,
    /// An arithmetic overflow.
    Overflow,
    /// An arithmetic underflow.
    Underflow,
    /// An account has not the free balance to hold.
    FundsUnavailable,
    /// A refund cancellation is already scheduled for the payment.
    FailedToSchedule,
    /// No refund cancellation is scheduled for the payment.
    NotFound,
}

/// Why funds are held by the pallet.
#[derive(Clone, Copy, Debug, PartialEq, Eq, Structural)]
pub enum HoldReason {
    TransferPayment,
}

/// What a successful call reports.
#[derive(Clone, Debug, PartialEq, Eq)]
pub enum Event {
    PaymentCreated { payment_id: PaymentId, asset: AssetId, amount: Balance, remark: Option<Vec<u8>> },
    PaymentReleased { payment_id: PaymentId },
    PaymentCancelled { payment_id: PaymentId },
    PaymentCreatorRequestedRefund { payment_id: PaymentId, expiry: BlockNumber },
    PaymentRefunded { payment_id: PaymentId },
    PaymentRefundDisputed { payment_id: PaymentId },
    PaymentRequestCreated { payment_id: PaymentId },
    PaymentRequestCompleted { payment_id: PaymentId },
    PaymentDisputeResolved { payment_id: PaymentId },
}

/// `x * parts / 100`, rounded down, with `parts` capped at 100: a percentage of an amount.
pub open spec fn percent_of(parts: u8, x: u128) -> u128 {
    let p: int = if parts > 100 {
        100
    } else {
        parts as int
    };
    (x * p / 100) as u128
}

/// Calls `sp_arithmetic::Percent::from_parts(parts).mul_floor(x)`: the percentage is capped at
/// 100 parts, and the product is rounded down, exactly (the source multiplies by parts of the
/// remainder separately, so nothing overflows).
#[verifier::external_body]
fn percent_mul_floor(parts: u8, x: u128) -> (r: u128)
    ensures
        r == percent_of(parts, x),
{
    sp_arithmetic::Percent::from_parts(parts).mul_floor(x)
}

/// What a percentage of an amount is never more than the amount.
pub proof fn lemma_percent_of_bounded(parts: u8, x: u128)
    ensures
        percent_of(parts, x) <= x,
{
    let p: int = if parts > 100 {
        100
    } else {
        parts as int
    };
    assert(x * p <= x * 100) by (nonlinear_arith)
        requires
            0 <= p <= 100,
            x >= 0,
    ;
    assert(x * p / 100 <= x) by (nonlinear_arith)
        requires
            0 <= x * p <= x * 100,
    ;
}

/// The sum of `a` and `b`, capped at the largest balance.
pub open spec fn sat_add_balance(a: u128, b: u128) -> u128 {
    if a + b > u128::MAX {
        u128::MAX
    } else {
        (a + b) as u128
    }
}

/// The totals of the mandatory fees and of the optional ones.
pub open spec fn fee_totals(fees: Seq<Fee>) -> (int, int)
    decreases fees.len(),
{
    if fees.len() == 0 {
        (0, 0)
    } else {
        let (m, o) = fee_totals(fees.drop_last());
        let f = fees.last();
        if f.2 {
            (m + f.1, o)
        } else {
            (m, o + f.1)
        }
    }
}

/// The fees that are charged: all of them, or only the mandatory ones in a dispute.
pub open spec fn charged_fees(fees: Seq<Fee>, is_dispute: bool) -> Seq<Fee> {
    fees.filter(|f: Fee| !is_dispute || f.2)
}

/// The summary of a party's fees: those charged, the total of the mandatory ones and that of
/// the optional ones; `None` when a total overflows.
pub open spec fn fee_summary(fees: Seq<Fee>, is_dispute: bool) -> Option<(Seq<Fee>, u128, u128)> {
    let (m, o) = fee_totals(fees);
    if m > u128::MAX || o > u128::MAX {
        None
    } else {
        Some((charged_fees(fees, is_dispute), m as u128, o as u128))
    }
}

proof fn lemma_fee_totals_nonneg(fees: Seq<Fee>)
    ensures
        fee_totals(fees).0 >= 0,
        fee_totals(fees).1 >= 0,
    decreases fees.len(),
{
    if fees.len() > 0 {
        lemma_fee_totals_nonneg(fees.drop_last());
    }
}

impl Fees {
    /// The fees that a party pays.
    pub open spec fn of_role(&self, role: Role) -> Seq<Fee> {
        match role {
            Role::Sender => self.sender_pays@,
            Role::Beneficiary => self.beneficiary_pays@,
        }
    }

    /// The fees that a party pays: those charged (all of them, or only the mandatory ones in a
    /// dispute), the total of its mandatory fees and the total of its optional ones.
    pub fn summary_for(&self, role: Role, is_dispute: bool) -> (r: Result<(Vec<Fee>, Balance, Balance), Error>)
        ensures
            match fee_summary(self.of_role(role), is_dispute) {
                None => r == Err::<(Vec<Fee>, Balance, Balance), Error>(Error::Overflow),
                Some((list, m, o)) => r matches Ok(t) && t.0@ == list && t.1 == m && t.2 == o,
            },
    {
        let fees = match role {
            Role::Sender => &self.sender_pays,
            Role::Beneficiary => &self.beneficiary_pays,
        };
        let ghost pred = |f: Fee| !is_dispute || f.2;
        let mut charged: Vec<Fee> = Vec::new();
        let mut mandatory: u128 = 0;
        let mut optional: u128 = 0;
        let mut overflow = false;
        let mut i: usize = 0;
        while i < fees.len()
            invariant
                0 <= i <= fees@.len(),
                fees@ == self.of_role(role),
                pred == (|f: Fee| !is_dispute || f.2),
                charged@ == fees@.take(i as int).filter(pred),
                !overflow ==> mandatory == fee_totals(fees@.take(i as int)).0 && optional
                    == fee_totals(fees@.take(i as int)).1,
                overflow ==> (fee_totals(fees@.take(i as int)).0 > u128::MAX || fee_totals(
                    fees@.take(i as int),
                ).1 > u128::MAX),
            decreases fees@.len() - i,
        {
            let f = fees[i];
            proof {
                let prefix = fees@.take(i as int);
                let next = fees@.take(i + 1);
                assert(next.drop_last() =~= prefix);
                assert(next.last() == f);
                prefix.lemma_filter_push(f, pred);
                assert(prefix.push(f) =~= next);
                lemma_fee_totals_nonneg(prefix);
            }
            if pred_holds(is_dispute, f) {
                charged.push(f);
            }
            if !overflow {
                if f.2 {
                    match mandatory.checked_add(f.1) {
                        Some(m) => mandatory = m,
                        None => overflow = true,
                    }
                } else {
                    match optional.checked_add(f.1) {
                        Some(o) => optional = o,
                        None => overflow = true,
                    }
                }
            }
            i = i + 1;
        }
        assert(fees@.take(fees@.len() as int) =~= fees@);
        if overflow {
            Err(Error::Overflow)
        } else {
            Ok((charged, mandatory, optional))
        }
    }
}

fn pred_holds(is_dispute: bool, f: Fee) -> (r: bool)
    ensures
        r == (!is_dispute || f.2),
{
    !is_dispute || f.2
}

/// The free and held balance of an account in an asset.
#[derive(Clone, Copy, Debug, PartialEq, Eq, Structural)]
pub struct Balances {
    pub free: Balance,
    pub held: Balance,
}

/// A movement of an asset.
#[derive(Clone, Copy, Debug, PartialEq, Eq, Structural)]
pub enum AssetOp {
    /// Moves `amount` of `who`'s free balance to its held balance.
    Hold { asset: AssetId, who: AccountId, amount: Balance },
    /// Moves `amount` of `who`'s held balance back to its free balance, exactly.
    Release { asset: AssetId, who: AccountId, amount: Balance },
    /// Moves `amount` of free balance from one account to another, leaving the payer at least
    /// `keep` (the asset's minimum balance for a keep-alive transfer, nothing otherwise).
    Transfer { asset: AssetId, from: AccountId, to: AccountId, amount: Balance, keep: Balance },
    /// Moves `amount` of free balance from one account to the held balance of another, leaving
    /// the payer at least `keep` free.
    TransferAndHold { asset: AssetId, from: AccountId, to: AccountId, amount: Balance, keep: Balance },
}

/// A step of a plan: an asset operation, with the error the call ends with when it fails, or
/// a condition, with the error the call ends with when it does not hold.
#[derive(Clone, Copy, Debug, PartialEq, Eq, Structural)]
pub enum Step {
    Apply(AssetOp, Error),
    Require(bool, Error),
}

/// Where the balances of an account in an asset are kept.
pub open spec fn ledger_key(asset: AssetId, who: AccountId) -> u128 {
    (asset * 0x1_0000_0000_0000_0000 + who) as u128
}

fn ledger_key_of(asset: AssetId, who: AccountId) -> (r: u128)
    ensures
        r == ledger_key(asset, who),
{
    (asset as u128) * 0x1_0000_0000_0000_0000u128 + (who as u128)
}

/// Different accounts or assets have their balances in different places.
pub proof fn lemma_ledger_key_injective(a1: AssetId, w1: AccountId, a2: AssetId, w2: AccountId)
    requires
        ledger_key(a1, w1) == ledger_key(a2, w2),
    ensures
        a1 == a2 && w1 == w2,
{
}

/// The balances of an account in an asset; zero when it has none.
pub open spec fn balances_of(m: Map<u128, Balances>, asset: AssetId, who: AccountId) -> Balances {
    let k = ledger_key(asset, who);
    if m.contains_key(k) {
        m[k]
    } else {
        Balances { free: 0, held: 0 }
    }
}

/// The ledger after an operation, or `None` when the operation fails: a debit fails when the
/// balance does not suffice (a transfer also when it would leave the payer less than it must
/// keep), a credit when it would overflow.
pub open spec fn apply_op(m: Map<u128, Balances>, op: AssetOp) -> Option<Map<u128, Balances>> {
    match op {
        AssetOp::Hold { asset, who, amount } => {
            let b = balances_of(m, asset, who);
            if b.free < amount || b.held + amount > u128::MAX {
                None
            } else {
                Some(
                    m.insert(
                        ledger_key(asset, who),
                        Balances { free: (b.free - amount) as u128, held: (b.held + amount) as u128 },
                    ),
                )
            }
        },
        AssetOp::Release { asset, who, amount } => {
            let b = balances_of(m, asset, who);
            if b.held < amount || b.free + amount > u128::MAX {
                None
            } else {
                Some(
                    m.insert(
                        ledger_key(asset, who),
                        Balances { free: (b.free + amount) as u128, held: (b.held - amount) as u128 },
                    ),
                )
            }
        },
        AssetOp::Transfer { asset, from, to, amount, keep } => {
            let bf = balances_of(m, asset, from);
            if bf.free < amount || bf.free - amount < keep {
                None
            } else if from == to {
                Some(m)
            } else {
                let m1 = m.insert(
                    ledger_key(asset, from),
                    Balances { free: (bf.free - amount) as u128, held: bf.held },
                );
                let bt = balances_of(m1, asset, to);
                if bt.free + amount > u128::MAX {
                    None
                } else {
                    Some(
                        m1.insert(
                            ledger_key(asset, to),
                            Balances { free: (bt.free + amount) as u128, held: bt.held },
                        ),
                    )
                }
            }
        },
        AssetOp::TransferAndHold { asset, from, to, amount, keep } => {
            let bf = balances_of(m, asset, from);
            if bf.free < amount || bf.free - amount < keep {
                None
            } else {
                let m1 = m.insert(
                    ledger_key(asset, from),
                    Balances { free: (bf.free - amount) as u128, held: bf.held },
                );
                let bt = balances_of(m1, asset, to);
                if bt.held + amount > u128::MAX {
                    None
                } else {
                    Some(
                        m1.insert(
                            ledger_key(asset, to),
                            Balances { free: bt.free, held: (bt.held + amount) as u128 },
                        ),
                    )
                }
            }
        },
    }
}

/// The ledger after the steps from the `i`-th on, or the error of the first that fails.
pub open spec fn run_steps(m: Map<u128, Balances>, steps: Seq<Step>, i: int) -> Result<
    Map<u128, Balances>,
    Error,
>
    decreases steps.len() - i,
{
    if i < 0 || i >= steps.len() {
        Ok(m)
    } else {
        match steps[i] {
            Step::Apply(op, e) => match apply_op(m, op) {
                None => Err(e),
                Some(m2) => run_steps(m2, steps, i + 1),
            },
            Step::Require(ok, e) => if ok {
                run_steps(m, steps, i + 1)
            } else {
                Err(e)
            },
        }
    }
}

fn get_balances(ledger: &HashMap<u128, Balances>, asset: AssetId, who: AccountId) -> (r: Balances)
    ensures
        r == balances_of(ledger@, asset, who),
{
    let k = ledger_key_of(asset, who);
    match ledger.get(&k) {
        Some(b) => *b,
        None => Balances { free: 0, held: 0 },
    }
}

fn apply_one(ledger: &mut HashMap<u128, Balances>, op: AssetOp) -> (r: bool)
    ensures
        match apply_op(old(ledger)@, op) {
            Some(m) => r && final(ledger)@ == m,
            None => !r,
        },
{
    match op {
        AssetOp::Hold { asset, who, amount } => {
            let b = get_balances(ledger, asset, who);
            if b.free < amount || b.held > u128::MAX - amount {
                return false;
            }
            ledger.insert(ledger_key_of(asset, who), Balances { free: b.free - amount, held: b.held + amount });
            true
        },
        AssetOp::Release { asset, who, amount } => {
            let b = get_balances(ledger, asset, who);
            if b.held < amount || b.free > u128::MAX - amount {
                return false;
            }
            ledger.insert(ledger_key_of(asset, who), Balances { free: b.free + amount, held: b.held - amount });
            true
        },
        AssetOp::Transfer { asset, from, to, amount, keep } => {
            let bf = get_balances(ledger, asset, from);
            if bf.free < amount || bf.free - amount < keep {
                return false;
            }
            if from == to {
                return true;
            }
            ledger.insert(ledger_key_of(asset, from), Balances { free: bf.free - amount, held: bf.held });
            let bt = get_balances(ledger, asset, to);
            if bt.free > u128::MAX - amount {
                return false;
            }
            ledger.insert(ledger_key_of(asset, to), Balances { free: bt.free + amount, held: bt.held });
            true
        },
        AssetOp::TransferAndHold { asset, from, to, amount, keep } => {
            let bf = get_balances(ledger, asset, from);
            if bf.free < amount || bf.free - amount < keep {
                return false;
            }
            ledger.insert(ledger_key_of(asset, from), Balances { free: bf.free - amount, held: bf.held });
            let bt = get_balances(ledger, asset, to);
            if bt.held > u128::MAX - amount {
                return false;
            }
            ledger.insert(ledger_key_of(asset, to), Balances { free: bt.free, held: bt.held + amount });
            true
        },
    }
}

/// Runs a plan on a ledger: all of it, or, when a step fails, none of it.
fn run_plan(ledger: &mut HashMap<u128, Balances>, steps: &Vec<Step>) -> (r: Result<(), Error>)
    ensures
        match run_steps(old(ledger)@, steps@, 0) {
            Ok(m) => r is Ok && final(ledger)@ == m,
            Err(e) => r == Err::<(), Error>(e) && final(ledger)@ == old(ledger)@,
        },
{
    let mut work = ledger.clone();
    let mut i: usize = 0;
    while i < steps.len()
        invariant
            0 <= i <= steps@.len(),
            run_steps(old(ledger)@, steps@, 0) == run_steps(work@, steps@, i as int),
            ledger@ == old(ledger)@,
        decreases steps@.len() - i,
    {
        match steps[i] {
            Step::Apply(op, e) => {
                if !apply_one(&mut work, op) {
                    return Err(e);
                }
            },
            Step::Require(ok, e) => {
                if !ok {
                    return Err(e);
                }
            },
        }
        i = i + 1;
    }
    *ledger = work;
    Ok(())
}

/// The transfers of the charged fees of `account`, in order: all of them, or only the
/// mandatory ones in a dispute. Each keeps `account` alive: it leaves at least `keep` free.
pub open spec fn fee_steps(account: AccountId, asset: AssetId, fees: Seq<Fee>, is_dispute: bool, keep: Balance) -> Seq<
    Step,
>
    decreases fees.len(),
{
    if fees.len() == 0 {
        Seq::empty()
    } else {
        let prev = fee_steps(account, asset, fees.drop_last(), is_dispute, keep);
        let f = fees.last();
        if !is_dispute || f.2 {
            prev.push(
                Step::Apply(
                    AssetOp::Transfer { asset, from: account, to: f.0, amount: f.1, keep },
                    Error::TransferFailed,
                ),
            )
        } else {
            prev
        }
    }
}

fn push_fee_steps(
    steps: &mut Vec<Step>,
    account: AccountId,
    asset: AssetId,
    fees: &Vec<Fee>,
    is_dispute: bool,
    keep: Balance,
)
    ensures
        final(steps)@ == old(steps)@ + fee_steps(account, asset, fees@, is_dispute, keep),
{
    let mut i: usize = 0;
    while i < fees.len()
        invariant
            0 <= i <= fees@.len(),
            steps@ == old(steps)@ + fee_steps(account, asset, fees@.take(i as int), is_dispute, keep),
        decreases fees@.len() - i,
    {
        let f = fees[i];
        proof {
            assert(fees@.take(i + 1).drop_last() =~= fees@.take(i as int));
        }
        if !is_dispute || f.2 {
            steps.push(
                Step::Apply(
                    AssetOp::Transfer { asset, from: account, to: f.0, amount: f.1, keep },
                    Error::TransferFailed,
                ),
            );
        }
        i = i + 1;
        proof {
            assert(steps@ =~= old(steps)@ + fee_steps(account, asset, fees@.take(i as int), is_dispute, keep));
        }
    }
    assert(fees@.take(fees@.len() as int) =~= fees@);
}

/// What the sender has held for a payment: its fees and the incentive.
pub open spec fn sender_hold(p: PaymentDetail, mandatory: u128, optional: u128) -> u128 {
    sat_add_balance(sat_add_balance(mandatory, p.incentive_amount), optional)
}

/// The steps of settling a payment: the holds are released, the fees transferred (keeping
/// each payer alive with at least `keep`, the asset's minimum balance), and, after a dispute,
/// the incentive and the shares moved as the resolver decided.
pub open spec fn settle_steps(
    sender: AccountId,
    beneficiary: AccountId,
    p: PaymentDetail,
    dispute: Option<(DisputeResult, AccountId)>,
    keep: Balance,
) -> Seq<Step> {
    let is_dispute = dispute is Some;
    match fee_summary(p.fees.sender_pays@, is_dispute) {
        None => seq![Step::Require(false, Error::Overflow)],
        Some((sl, sm, so)) => {
            let release_sender = Step::Apply(
                AssetOp::Release { asset: p.asset, who: sender, amount: sender_hold(p, sm, so) },
                Error::ReleaseFailed,
            );
            seq![release_sender] + match fee_summary(p.fees.beneficiary_pays@, is_dispute) {
                None => seq![Step::Require(false, Error::Overflow)],
                Some((bl, bm, bo)) => {
                    let release_b = if is_dispute {
                        sat_add_balance(p.amount, p.incentive_amount)
                    } else {
                        p.amount
                    };
                    let head = seq![
                        Step::Apply(
                            AssetOp::Release { asset: p.asset, who: beneficiary, amount: release_b },
                            Error::ReleaseFailed,
                        ),
                    ] + fee_steps(sender, p.asset, sl, is_dispute, keep) + fee_steps(
                        beneficiary,
                        p.asset,
                        bl,
                        is_dispute,
                        keep,
                    );
                    head + match dispute {
                        None => Seq::empty(),
                        Some((result, resolver)) => dispute_steps(
                            sender,
                            beneficiary,
                            p,
                            result,
                            resolver,
                            bm,
                            bo,
                        ),
                    }
                },
            }
        },
    }
}

/// The moves after a dispute: the losing party pays the incentive to the resolver, and the
/// beneficiary pays the sender its share.
pub open spec fn dispute_steps(
    sender: AccountId,
    beneficiary: AccountId,
    p: PaymentDetail,
    result: DisputeResult,
    resolver: AccountId,
    bm: u128,
    bo: u128,
) -> Seq<Step> {
    let share = percent_of(result.percent_beneficiary, p.amount);
    match result.in_favor_of {
        Role::Sender => seq![
            Step::Apply(
                AssetOp::Transfer { asset: p.asset, from: beneficiary, to: resolver, amount: p.incentive_amount, keep: 0 },
                Error::TransferFailed,
            ),
            Step::Apply(
                AssetOp::Transfer { asset: p.asset, from: beneficiary, to: sender, amount: share, keep: 0 },
                Error::TransferFailed,
            ),
        ],
        Role::Beneficiary => seq![
            Step::Apply(
                AssetOp::Transfer { asset: p.asset, from: sender, to: resolver, amount: p.incentive_amount, keep: 0 },
                Error::TransferFailed,
            ),
            Step::Apply(
                AssetOp::Transfer {
                    asset: p.asset,
                    from: beneficiary,
                    to: sender,
                    amount: (p.amount - share) as u128, keep: 0,
                },
                Error::TransferFailed,
            ),
            Step::Require(bm + bo <= u128::MAX, Error::Overflow),
            Step::Require(share + p.incentive_amount <= u128::MAX, Error::Underflow),
            Step::Require(share + p.incentive_amount >= bm, Error::Underflow),
        ],
    }
}

fn build_settle_steps(
    sender: AccountId,
    beneficiary: AccountId,
    p: &PaymentDetail,
    dispute: Option<(DisputeResult, AccountId)>,
    keep: Balance,
) -> (r: Vec<Step>)
    ensures
        r@ == settle_steps(sender, beneficiary, *p, dispute, keep),
{
    let is_dispute = dispute.is_some();
    let mut steps: Vec<Step> = Vec::new();
    let (sl, sm, so) = match p.fees.summary_for(Role::Sender, is_dispute) {
        Err(e) => {
            steps.push(Step::Require(false, e));
            assert(steps@ =~= settle_steps(sender, beneficiary, *p, dispute, keep));
            return steps;
        },
        Ok(t) => t,
    };
    let hold = sat_add(sat_add(sm, p.incentive_amount), so);
    steps.push(
        Step::Apply(AssetOp::Release { asset: p.asset, who: sender, amount: hold }, Error::ReleaseFailed),
    );
    let ghost first = steps@;
    let (bl, bm, bo) = match p.fees.summary_for(Role::Beneficiary, is_dispute) {
        Err(e) => {
            steps.push(Step::Require(false, e));
            assert(steps@ =~= settle_steps(sender, beneficiary, *p, dispute, keep));
            return steps;
        },
        Ok(t) => t,
    };
    let release_b = if is_dispute {
        sat_add(p.amount, p.incentive_amount)
    } else {
        p.amount
    };
    steps.push(
        Step::Apply(
            AssetOp::Release { asset: p.asset, who: beneficiary, amount: release_b },
            Error::ReleaseFailed,
        ),
    );
    push_fee_steps(&mut steps, sender, p.asset, &sl, is_dispute, keep);
    push_fee_steps(&mut steps, beneficiary, p.asset, &bl, is_dispute, keep);
    match dispute {
        None => {},
        Some((result, resolver)) => {
            let share = percent_mul_floor(result.percent_beneficiary, p.amount);
            proof {
                lemma_percent_of_bounded(result.percent_beneficiary, p.amount);
            }
            match result.in_favor_of {
                Role::Sender => {
                    steps.push(
                        Step::Apply(
                            AssetOp::Transfer {
                                asset: p.asset,
                                from: beneficiary,
                                to: resolver,
                                amount: p.incentive_amount, keep: 0,
                            },
                            Error::TransferFailed,
                        ),
                    );
                    steps.push(
                        Step::Apply(
                            AssetOp::Transfer { asset: p.asset, from: beneficiary, to: sender, amount: share, keep: 0 },
                            Error::TransferFailed,
                        ),
                    );
                },
                Role::Beneficiary => {
                    steps.push(
                        Step::Apply(
                            AssetOp::Transfer {
                                asset: p.asset,
                                from: sender,
                                to: resolver,
                                amount: p.incentive_amount, keep: 0,
                            },
                            Error::TransferFailed,
                        ),
                    );
                    steps.push(
                        Step::Apply(
                            AssetOp::Transfer {
                                asset: p.asset,
                                from: beneficiary,
                                to: sender,
                                amount: p.amount - share, keep: 0,
                            },
                            Error::TransferFailed,
                        ),
                    );
                    steps.push(Step::Require(bo <= u128::MAX - bm, Error::Overflow));
                    steps.push(Step::Require(share <= u128::MAX - p.incentive_amount, Error::Underflow));
                    let ok = share > u128::MAX - p.incentive_amount || share + p.incentive_amount >= bm;
                    steps.push(Step::Require(ok, Error::Underflow));
                },
            }
        },
    }
    assert(steps@ =~= settle_steps(sender, beneficiary, *p, dispute, keep));
    steps
}

fn sat_add(a: u128, b: u128) -> (r: u128)
    ensures
        r == sat_add_balance(a, b),
{
    if a > u128::MAX - b {
        u128::MAX
    } else {
        a + b
    }
}

/// The steps that hold a new payment: the sender's fees and incentive are held, and the
/// amount moves to the beneficiary's held balance, keeping the sender alive with at least
/// `keep` (the asset's minimum balance) free.
pub open spec fn reserve_steps(sender: AccountId, p: PaymentDetail, keep: Balance) -> Seq<Step> {
    match fee_summary(p.fees.sender_pays@, false) {
        None => seq![Step::Require(false, Error::Overflow)],
        Some((_, m, o)) => seq![
            Step::Apply(
                AssetOp::Hold { asset: p.asset, who: sender, amount: sender_hold(p, m, o) },
                Error::FundsUnavailable,
            ),
            Step::Apply(
                AssetOp::TransferAndHold { asset: p.asset, from: sender, to: p.beneficiary, amount: p.amount, keep },
                Error::FundsUnavailable,
            ),
        ],
    }
}

/// The steps that cancel a payment: the holds are released and the amount goes back to the
/// sender.
pub open spec fn cancel_steps(sender: AccountId, p: PaymentDetail) -> Seq<Step> {
    match fee_summary(p.fees.sender_pays@, false) {
        None => seq![Step::Require(false, Error::Overflow)],
        Some((_, m, o)) => seq![
            Step::Apply(
                AssetOp::Release { asset: p.asset, who: sender, amount: sender_hold(p, m, o) },
                Error::ReleaseFailed,
            ),
            Step::Apply(
                AssetOp::Release { asset: p.asset, who: p.beneficiary, amount: p.amount },
                Error::ReleaseFailed,
            ),
            Step::Apply(
                AssetOp::Transfer { asset: p.asset, from: p.beneficiary, to: sender, amount: p.amount, keep: 0 },
                Error::TransferFailed,
            ),
        ],
    }
}

/// The checks on what the beneficiary gets once its fees are paid: the fees add up, and do not
/// exceed the amount.
pub open spec fn beneficiary_checks(p: PaymentDetail) -> Seq<Step> {
    match fee_summary(p.fees.beneficiary_pays@, false) {
        None => seq![Step::Require(false, Error::Overflow)],
        Some((_, m, o)) => seq![
            Step::Require(m + o <= u128::MAX, Error::Overflow),
            Step::Require(p.amount >= m + o, Error::Underflow),
        ],
    }
}

fn build_reserve_steps(sender: AccountId, p: &PaymentDetail, keep: Balance) -> (r: Vec<Step>)
    ensures
        r@ == reserve_steps(sender, *p, keep),
{
    let mut steps: Vec<Step> = Vec::new();
    match p.fees.summary_for(Role::Sender, false) {
        Err(e) => steps.push(Step::Require(false, e)),
        Ok((_, m, o)) => {
            let hold = sat_add(sat_add(m, p.incentive_amount), o);
            steps.push(Step::Apply(AssetOp::Hold { asset: p.asset, who: sender, amount: hold }, Error::FundsUnavailable));
            steps.push(
                Step::Apply(
                    AssetOp::TransferAndHold { asset: p.asset, from: sender, to: p.beneficiary, amount: p.amount, keep },
                    Error::FundsUnavailable,
                ),
            );
        },
    }
    assert(steps@ =~= reserve_steps(sender, *p, keep));
    steps
}

fn build_cancel_steps(sender: AccountId, p: &PaymentDetail) -> (r: Vec<Step>)
    ensures
        r@ == cancel_steps(sender, *p),
{
    let mut steps: Vec<Step> = Vec::new();
    match p.fees.summary_for(Role::Sender, false) {
        Err(e) => steps.push(Step::Require(false, e)),
        Ok((_, m, o)) => {
            let hold = sat_add(sat_add(m, p.incentive_amount), o);
            steps.push(Step::Apply(AssetOp::Release { asset: p.asset, who: sender, amount: hold }, Error::ReleaseFailed));
            steps.push(
                Step::Apply(AssetOp::Release { asset: p.asset, who: p.beneficiary, amount: p.amount }, Error::ReleaseFailed),
            );
            steps.push(
                Step::Apply(
                    AssetOp::Transfer { asset: p.asset, from: p.beneficiary, to: sender, amount: p.amount, keep: 0 },
                    Error::TransferFailed,
                ),
            );
        },
    }
    assert(steps@ =~= cancel_steps(sender, *p));
    steps
}

fn push_beneficiary_checks(steps: &mut Vec<Step>, p: &PaymentDetail)
    ensures
        final(steps)@ == old(steps)@ + beneficiary_checks(*p),
{
    match p.fees.summary_for(Role::Beneficiary, false) {
        Err(e) => {
            steps.push(Step::Require(false, e));
        },
        Ok((_, m, o)) => {
            let fits = m <= u128::MAX - o;
            steps.push(Step::Require(fits, Error::Overflow));
            let covered = fits && p.amount >= m + o;
            steps.push(Step::Require(covered, Error::Underflow));
        },
    }
    assert(steps@ =~= old(steps)@ + beneficiary_checks(*p));
}

/// The parameters of the pallet: the percentage of the amount held as incentive from each
/// party, the number of blocks a refund request waits before the payment is cancelled, and
/// the longest remark an event carries.
#[derive(Clone, Copy, Debug, PartialEq, Eq, Structural)]
pub struct PaymentsConfig {
    pub incentive_percentage: u8,
    pub cancel_buffer_block_length: BlockNumber,
    pub max_remark_length: u32,
}

/// The state of the pallet: the payments by sender and id, the parties of each payment id, the
/// refund cancellations scheduled by payment id, and the ledger. A scheduled cancellation of
/// payment `id` is the call `cancel(id)`, recorded with the block it is dispatched at and the
/// account it is dispatched as (signed by the payment's beneficiary).
pub struct PaymentsView {
    pub payments: Map<u128, PaymentDetail>,
    pub parties: Map<PaymentId, (AccountId, AccountId)>,
    pub scheduled: Map<PaymentId, (BlockNumber, AccountId)>,
    pub ledger: Map<u128, Balances>,
    /// The minimum balance of each asset whose minimum is not zero.
    pub min_balances: Map<AssetId, Balance>,
    pub config: PaymentsConfig,
}

/// The minimum balance of an asset: what a keep-alive transfer leaves its payer at least.
pub open spec fn min_balance_of(v: PaymentsView, asset: AssetId) -> Balance {
    if v.min_balances.contains_key(asset) {
        v.min_balances[asset]
    } else {
        0
    }
}

/// Where a payment is kept: by its sender, then by its id.
pub open spec fn payment_key(sender: AccountId, id: PaymentId) -> u128 {
    (sender * 0x1_0000_0000 + id) as u128
}

fn payment_key_of(sender: AccountId, id: PaymentId) -> (r: u128)
    ensures
        r == payment_key(sender, id),
{
    (sender as u128) * 0x1_0000_0000u128 + (id as u128)
}

/// The payment of `sender` with id `id`, if any.
pub open spec fn lookup(v: PaymentsView, sender: AccountId, id: PaymentId) -> Option<PaymentDetail> {
    let k = payment_key(sender, id);
    if v.payments.contains_key(k) {
        Some(v.payments[k])
    } else {
        None
    }
}

/// The payment in another state.
pub open spec fn with_state(p: PaymentDetail, state: PaymentState) -> PaymentDetail {
    PaymentDetail { state, ..p }
}

/// The first `max` bytes of a remark.
pub open spec fn truncated(remark: Option<Vec<u8>>, max: u32) -> Option<Seq<u8>> {
    match remark {
        None => None,
        Some(r) => Some(if r@.len() <= max { r@ } else { r@.take(max as int) }),
    }
}

/// What a call does to the pallet: its state afterwards and the event it reports, or the
/// error it fails with (and then it changes nothing).
pub type Outcome = Result<(PaymentsView, Event), Error>;

/// The payment a call records, with the id the runtime generated for the parties and the fees
/// it applies: a payment may only replace a request of the same sender and id.
pub open spec fn new_payment(
    v: PaymentsView,
    sender: AccountId,
    beneficiary: AccountId,
    asset: AssetId,
    amount: Balance,
    state: PaymentState,
    generated: Option<PaymentId>,
    fees: Fees,
) -> Result<(PaymentId, PaymentDetail), Error> {
    match generated {
        None => Err(Error::NoPaymentIdAvailable),
        Some(id) => {
            let k = payment_key(sender, id);
            if v.payments.contains_key(k) && v.payments[k].state != PaymentState::PaymentRequested {
                Err(Error::PaymentAlreadyInProcess)
            } else {
                Ok(
                    (
                        id,
                        PaymentDetail {
                            asset,
                            amount,
                            beneficiary,
                            incentive_amount: percent_of(v.config.incentive_percentage, amount),
                            state,
                            fees,
                        },
                    ),
                )
            }
        },
    }
}

/// The pallet with a payment recorded, and its parties.
pub open spec fn recorded(v: PaymentsView, sender: AccountId, id: PaymentId, p: PaymentDetail) -> PaymentsView {
    PaymentsView {
        payments: v.payments.insert(payment_key(sender, id), p),
        parties: v.parties.insert(id, (sender, p.beneficiary)),
        ..v
    }
}

/// A payment from `sender` to `beneficiary`: recorded as created, with the sender's fees and
/// incentive and the amount held.
pub open spec fn create_spec(
    v: PaymentsView,
    sender: AccountId,
    asset: AssetId,
    amount: Balance,
    beneficiary: AccountId,
    generated: Option<PaymentId>,
    fees: Fees,
) -> Result<(PaymentsView, PaymentId), Error> {
    match new_payment(v, sender, beneficiary, asset, amount, PaymentState::Created, generated, fees) {
        Err(e) => Err(e),
        Ok((id, p)) => match run_steps(v.ledger, reserve_steps(sender, p, min_balance_of(v, p.asset)) + beneficiary_checks(p), 0) {
            Err(e) => Err(e),
            Ok(l) => Ok((PaymentsView { ledger: l, ..recorded(v, sender, id, p) }, id)),
        },
    }
}

/// Releasing a created payment to its beneficiary.
pub open spec fn release_spec(v: PaymentsView, sender: AccountId, id: PaymentId) -> Outcome {
    match lookup(v, sender, id) {
        None => Err(Error::InvalidPayment),
        Some(p) => if p.state != PaymentState::Created {
            Err(Error::InvalidAction)
        } else {
            match run_steps(
                v.ledger,
                settle_steps(sender, p.beneficiary, p, None, min_balance_of(v, p.asset)) + beneficiary_checks(p),
                0,
            ) {
                Err(e) => Err(e),
                Ok(l) => Ok(
                    (
                        PaymentsView {
                            ledger: l,
                            payments: v.payments.insert(payment_key(sender, id), with_state(p, PaymentState::Finished)),
                            ..v
                        },
                        Event::PaymentReleased { payment_id: id },
                    ),
                ),
            }
        },
    }
}

/// The sender asking for the refund of a created payment, which is cancelled after the buffer
/// unless the beneficiary disputes it.
pub open spec fn request_refund_spec(v: PaymentsView, sender: AccountId, id: PaymentId, now: BlockNumber) -> Outcome {
    match lookup(v, sender, id) {
        None => Err(Error::InvalidPayment),
        Some(p) => if p.state != PaymentState::Created {
            Err(Error::InvalidAction)
        } else if now + v.config.cancel_buffer_block_length > u64::MAX {
            Err(Error::MathError)
        } else if v.scheduled.contains_key(id) {
            Err(Error::FailedToSchedule)
        } else {
            let cancel_block = (now + v.config.cancel_buffer_block_length) as u64;
            Ok(
                (
                    PaymentsView {
                        payments: v.payments.insert(
                            payment_key(sender, id),
                            with_state(p, PaymentState::RefundRequested { cancel_block }),
                        ),
                        scheduled: v.scheduled.insert(id, (cancel_block, p.beneficiary)),
                        ..v
                    },
                    Event::PaymentCreatorRequestedRefund { payment_id: id, expiry: cancel_block },
                ),
            )
        },
    }
}

/// The sender paying a payment (a request of the beneficiary, or any other): fees, amount and
/// the beneficiary's fees are transferred.
pub open spec fn accept_and_pay_spec(v: PaymentsView, sender: AccountId, id: PaymentId) -> Outcome {
    if !v.parties.contains_key(id) {
        Err(Error::NonExistentStorageValue)
    } else {
        let beneficiary = v.parties[id].1;
        match lookup(v, sender, id) {
            None => Err(Error::InvalidPayment),
            Some(p) => match fee_summary(p.fees.sender_pays@, false) {
                None => Err(Error::Overflow),
                Some((sl, _, _)) => match fee_summary(p.fees.beneficiary_pays@, false) {
                    None => Err(Error::Overflow),
                    Some((bl, _, _)) => {
                        let keep = min_balance_of(v, p.asset);
                        let steps = fee_steps(sender, p.asset, sl, false, keep) + seq![
                            Step::Apply(
                                AssetOp::Transfer { asset: p.asset, from: sender, to: beneficiary, amount: p.amount, keep: 0 },
                                Error::TransferFailed,
                            ),
                        ] + fee_steps(beneficiary, p.asset, bl, false, keep) + beneficiary_checks(p);
                        match run_steps(v.ledger, steps, 0) {
                            Err(e) => Err(e),
                            Ok(l) => Ok(
                                (
                                    PaymentsView {
                                        ledger: l,
                                        payments: v.payments.insert(
                                            payment_key(sender, id),
                                            with_state(p, PaymentState::Finished),
                                        ),
                                        ..v
                                    },
                                    Event::PaymentRequestCompleted { payment_id: id },
                                ),
                            ),
                        }
                    },
                },
            },
        }
    }
}

/// The beneficiary cancelling a created payment, or one whose refund was requested: the holds
/// are released, the amount goes back to the sender, and the payment is forgotten.
pub open spec fn cancel_spec(v: PaymentsView, caller: AccountId, id: PaymentId) -> Outcome {
    if !v.parties.contains_key(id) {
        Err(Error::NonExistentStorageValue)
    } else {
        let (sender, beneficiary) = v.parties[id];
        if caller != beneficiary {
            Err(Error::InvalidBeneficiary)
        } else {
            match lookup(v, sender, id) {
                None => Err(Error::InvalidPayment),
                Some(p) => {
                    let event = match p.state {
                        PaymentState::Created => Some(Event::PaymentCancelled { payment_id: id }),
                        PaymentState::RefundRequested { .. } => Some(Event::PaymentRefunded { payment_id: id }),
                        _ => None,
                    };
                    match event {
                        None => Err(Error::InvalidAction),
                        Some(ev) => match run_steps(v.ledger, cancel_steps(sender, p), 0) {
                            Err(e) => Err(e),
                            Ok(l) => Ok(
                                (
                                    PaymentsView {
                                        ledger: l,
                                        payments: v.payments.remove(payment_key(sender, id)),
                                        parties: v.parties.remove(id),
                                        ..v
                                    },
                                    ev,
                                ),
                            ),
                        },
                    }
                },
            }
        }
    }
}

/// The beneficiary disputing a refund request before it is carried out: it holds its own
/// incentive, the payment awaits review, and the scheduled cancellation is called off.
pub open spec fn dispute_refund_spec(v: PaymentsView, caller: AccountId, id: PaymentId, now: BlockNumber) -> Outcome {
    if !v.parties.contains_key(id) {
        Err(Error::NonExistentStorageValue)
    } else {
        let (sender, beneficiary) = v.parties[id];
        if caller != beneficiary {
            Err(Error::InvalidBeneficiary)
        } else {
            match lookup(v, sender, id) {
                None => Err(Error::InvalidPayment),
                Some(p) => match p.state {
                    PaymentState::RefundRequested { cancel_block } => if cancel_block <= now {
                        Err(Error::InvalidAction)
                    } else {
                        match apply_op(
                            v.ledger,
                            AssetOp::Hold { asset: p.asset, who: caller, amount: p.incentive_amount },
                        ) {
                            None => Err(Error::FundsUnavailable),
                            Some(l) => if !v.scheduled.contains_key(id) {
                                Err(Error::NotFound)
                            } else {
                                Ok(
                                    (
                                        PaymentsView {
                                            ledger: l,
                                            payments: v.payments.insert(
                                                payment_key(sender, id),
                                                with_state(p, PaymentState::NeedsReview),
                                            ),
                                            scheduled: v.scheduled.remove(id),
                                            ..v
                                        },
                                        Event::PaymentRefundDisputed { payment_id: id },
                                    ),
                                )
                            },
                        }
                    },
                    _ => Err(Error::InvalidAction),
                },
            }
        }
    }
}

/// The beneficiary requesting a payment from `sender`, which the sender then accepts and pays.
pub open spec fn request_payment_spec(
    v: PaymentsView,
    caller: AccountId,
    sender: AccountId,
    asset: AssetId,
    amount: Balance,
    generated: Option<PaymentId>,
    fees: Fees,
) -> Outcome {
    match new_payment(v, sender, caller, asset, amount, PaymentState::PaymentRequested, generated, fees) {
        Err(e) => Err(e),
        Ok((id, p)) => Ok((recorded(v, sender, id, p), Event::PaymentRequestCreated { payment_id: id })),
    }
}

/// A resolver settling a payment under review as it decided.
pub open spec fn resolve_dispute_spec(
    v: PaymentsView,
    resolver: AccountId,
    id: PaymentId,
    result: DisputeResult,
) -> Outcome {
    if !v.parties.contains_key(id) {
        Err(Error::NonExistentStorageValue)
    } else {
        let (sender, beneficiary) = v.parties[id];
        match lookup(v, sender, id) {
            None => Err(Error::InvalidPayment),
            Some(p) => if p.state != PaymentState::NeedsReview {
                Err(Error::InvalidAction)
            } else {
                match run_steps(
                    v.ledger,
                    settle_steps(sender, beneficiary, p, Some((result, resolver)), min_balance_of(v, p.asset)),
                    0,
                ) {
                    Err(e) => Err(e),
                    Ok(l) => Ok(
                        (
                            PaymentsView {
                                ledger: l,
                                payments: v.payments.insert(payment_key(sender, id), with_state(p, PaymentState::Finished)),
                                ..v
                            },
                            Event::PaymentDisputeResolved { payment_id: id },
                        ),
                    ),
                }
            },
        }
    }
}

/// The state after a call: the new one, or the old one when it failed.
pub open spec fn after(v: PaymentsView, r: Outcome) -> PaymentsView {
    match r {
        Ok((v2, _)) => v2,
        Err(_) => v,
    }
}

/// The event of a call, or its error.
pub open spec fn reported(r: Outcome) -> Result<Event, Error> {
    match r {
        Ok((_, e)) => Ok(e),
        Err(e) => Err(e),
    }
}

/// What the runtime is told of a change of a payment's status: a payment was created, the
/// sender was charged, a payment was cancelled, or it was released; the last two carry the
/// beneficiary's fees and the amount it is left with.
#[derive(Clone, Copy, Debug, PartialEq, Eq, Structural)]
pub enum Notification {
    Created { payment_id: PaymentId },
    ChargeSuccess { payment_id: PaymentId, fees: Balance, resulting_amount: Balance },
    Cancelled { payment_id: PaymentId },
    Released { payment_id: PaymentId, fees: Balance, resulting_amount: Balance },
}

/// `a - b`, or zero when `b` is larger.
pub open spec fn sat_sub_balance(a: u128, b: u128) -> u128 {
    if a < b {
        0
    } else {
        (a - b) as u128
    }
}

/// The beneficiary's fees of a payment outside a dispute (mandatory and optional), and what
/// it keeps of the amount once they are paid. On the calls that notify them the fees add up
/// and do not exceed the amount (the plan checks it), so nothing saturates there.
pub open spec fn beneficiary_share(p: PaymentDetail) -> (u128, u128) {
    match fee_summary(p.fees.beneficiary_pays@, false) {
        Some((_, m, o)) => (sat_add_balance(m, o), sat_sub_balance(p.amount, sat_add_balance(m, o))),
        None => (0, 0),
    }
}

/// The notification of the release of payment `id` to its beneficiary.
pub open spec fn released_notice(id: PaymentId, p: PaymentDetail) -> Notification {
    Notification::Released { payment_id: id, fees: beneficiary_share(p).0, resulting_amount: beneficiary_share(p).1 }
}

/// The notification that the sender was charged for payment `id`.
pub open spec fn charged_notice(id: PaymentId, p: PaymentDetail) -> Notification {
    Notification::ChargeSuccess {
        payment_id: id,
        fees: beneficiary_share(p).0,
        resulting_amount: beneficiary_share(p).1,
    }
}

/// What settling a dispute notifies: when the beneficiary won, the release, with its fees in
/// the dispute (mandatory and optional) and its share plus the incentive, less its mandatory
/// fees (the plan checks that this neither overflows nor underflows).
pub open spec fn dispute_notices(id: PaymentId, p: PaymentDetail, result: DisputeResult) -> Seq<Notification> {
    match result.in_favor_of {
        Role::Sender => Seq::empty(),
        Role::Beneficiary => match fee_summary(p.fees.beneficiary_pays@, true) {
            None => Seq::empty(),
            Some((_, m, o)) => seq![
                Notification::Released {
                    payment_id: id,
                    fees: sat_add_balance(m, o),
                    resulting_amount: sat_sub_balance(
                        sat_add_balance(percent_of(result.percent_beneficiary, p.amount), p.incentive_amount),
                        m,
                    ),
                },
            ],
        },
    }
}

/// The notifications of a call: those given when it succeeded, none when it failed.
pub open spec fn on_success(r: Outcome, n: Seq<Notification>) -> Seq<Notification> {
    match r {
        Ok(_) => n,
        Err(_) => Seq::empty(),
    }
}

/// The notifications of the payment `id` of `sender`, made by `f` from the stored payment.
pub open spec fn of_payment(
    v: PaymentsView,
    sender: AccountId,
    id: PaymentId,
    f: spec_fn(PaymentDetail) -> Seq<Notification>,
) -> Seq<Notification> {
    match lookup(v, sender, id) {
        Some(p) => f(p),
        None => Seq::empty(),
    }
}

/// What releasing a payment notifies.
pub open spec fn release_notices(v: PaymentsView, sender: AccountId, id: PaymentId) -> Seq<Notification> {
    on_success(release_spec(v, sender, id), of_payment(v, sender, id, |p: PaymentDetail| seq![released_notice(id, p)]))
}

/// What paying a payment notifies: the charge, then the release.
pub open spec fn accept_and_pay_notices(v: PaymentsView, sender: AccountId, id: PaymentId) -> Seq<Notification> {
    on_success(
        accept_and_pay_spec(v, sender, id),
        of_payment(v, sender, id, |p: PaymentDetail| seq![charged_notice(id, p), released_notice(id, p)]),
    )
}

/// What cancelling a payment notifies.
pub open spec fn cancel_notices(v: PaymentsView, caller: AccountId, id: PaymentId) -> Seq<Notification> {
    on_success(cancel_spec(v, caller, id), seq![Notification::Cancelled { payment_id: id }])
}

/// What resolving a dispute notifies.
pub open spec fn resolve_dispute_notices(
    v: PaymentsView,
    resolver: AccountId,
    id: PaymentId,
    result: DisputeResult,
) -> Seq<Notification> {
    on_success(
        resolve_dispute_spec(v, resolver, id, result),
        if v.parties.contains_key(id) {
            of_payment(v, v.parties[id].0, id, |p: PaymentDetail| dispute_notices(id, p, result))
        } else {
            Seq::empty()
        },
    )
}

/// What creating a payment (or requesting one) notifies: its creation, with its id.
pub open spec fn created_notices(r: Result<(PaymentsView, PaymentId), Error>) -> Seq<Notification> {
    match r {
        Ok((_, id)) => seq![Notification::Created { payment_id: id }],
        Err(_) => Seq::empty(),
    }
}

/// What requesting a payment notifies.
pub open spec fn request_payment_notices(
    v: PaymentsView,
    caller: AccountId,
    sender: AccountId,
    asset: AssetId,
    amount: Balance,
    generated: Option<PaymentId>,
    fees: Fees,
) -> Seq<Notification> {
    match new_payment(v, sender, caller, asset, amount, PaymentState::PaymentRequested, generated, fees) {
        Ok((id, _)) => seq![Notification::Created { payment_id: id }],
        Err(_) => Seq::empty(),
    }
}

fn sat_sub(a: u128, b: u128) -> (r: u128)
    ensures
        r == sat_sub_balance(a, b),
{
    if a < b {
        0
    } else {
        a - b
    }
}

fn share_of_beneficiary(p: &PaymentDetail) -> (r: (Balance, Balance))
    ensures
        r == beneficiary_share(*p),
{
    match p.fees.summary_for(Role::Beneficiary, false) {
        Err(_) => (0, 0),
        Ok((_, m, o)) => {
            let fees = sat_add(m, o);
            (fees, sat_sub(p.amount, fees))
        },
    }
}

fn notices_of_dispute(id: PaymentId, p: &PaymentDetail, result: DisputeResult) -> (r: Vec<Notification>)
    ensures
        r@ == dispute_notices(id, *p, result),
{
    let mut out: Vec<Notification> = Vec::new();
    match result.in_favor_of {
        Role::Sender => {},
        Role::Beneficiary => match p.fees.summary_for(Role::Beneficiary, true) {
            Err(_) => {},
            Ok((_, m, o)) => {
                let share = percent_mul_floor(result.percent_beneficiary, p.amount);
                out.push(
                    Notification::Released {
                        payment_id: id,
                        fees: sat_add(m, o),
                        resulting_amount: sat_sub(sat_add(share, p.incentive_amount), m),
                    },
                );
            },
        },
    }
    assert(out@ =~= dispute_notices(id, *p, result));
    out
}

/// The escrow pallet. Its ledger is the library's own model of the runtime's assets: free and
/// held balances per asset and account, with holds, releases and transfers that fail when the
/// balance does not cover them, and a minimum balance per asset that the keep-alive transfers
/// (the fees, and the amount moved to the beneficiary's hold) leave their payer. Account
/// reaping, dust and the receiver's minimum are not modelled; the scheduler is a map from
/// payment id to the block and the signing account of the `cancel` it dispatches. What the
/// contracts state holds of this model.
pub struct Payments {
    payments: HashMap<u128, PaymentDetail>,
    parties: HashMap<PaymentId, (AccountId, AccountId)>,
    scheduled: HashMap<PaymentId, (BlockNumber, AccountId)>,
    ledger: HashMap<u128, Balances>,
    min_balances: HashMap<AssetId, Balance>,
    config: PaymentsConfig,
    notices: Vec<Notification>,
}

impl View for Payments {
    type V = PaymentsView;

    closed spec fn view(&self) -> PaymentsView {
        PaymentsView {
            payments: self.payments@,
            parties: self.parties@,
            scheduled: self.scheduled@,
            ledger: self.ledger@,
            min_balances: self.min_balances@,
            config: self.config,
        }
    }
}

impl Payments {
    /// The notifications made so far and not yet taken, oldest first.
    pub closed spec fn notified(&self) -> Seq<Notification> {
        self.notices@
    }

    /// Takes the notifications made so far, oldest first, for the runtime to pass on.
    pub fn take_notifications(&mut self) -> (r: Vec<Notification>)
        ensures
            r@ == old(self).notified(),
            final(self).notified() == Seq::<Notification>::empty(),
            final(self)@ == old(self)@,
    {
        let mut taken: Vec<Notification> = Vec::new();
        core::mem::swap(&mut taken, &mut self.notices);
        taken
    }

    /// Passes the notifications made so far on to the runtime's status hooks `H`, oldest
    /// first, and forgets them.
    pub fn notify_hooks<H: OnPaymentStatusChanged<PaymentId, Balance>>(&mut self)
        ensures
            final(self).notified() == Seq::<Notification>::empty(),
            final(self)@ == old(self)@,
    {
        let notes = self.take_notifications();
        let mut i: usize = 0;
        while i < notes.len()
            invariant
                0 <= i <= notes@.len(),
            decreases notes@.len() - i,
        {
            match notes[i] {
                Notification::Created { payment_id } => H::on_payment_created(&payment_id),
                Notification::ChargeSuccess { payment_id, fees, resulting_amount } => {
                    H::on_payment_charge_success(&payment_id, fees, resulting_amount)
                },
                Notification::Cancelled { payment_id } => H::on_payment_cancelled(&payment_id),
                Notification::Released { payment_id, fees, resulting_amount } => {
                    H::on_payment_released(&payment_id, fees, resulting_amount)
                },
            }
            i = i + 1;
        }
    }

    /// An empty pallet, over the given ledger.
    pub fn new(config: PaymentsConfig, ledger: HashMap<u128, Balances>) -> (r: Self)
        ensures
            r.notified() == Seq::<Notification>::empty(),
            r@.payments == Map::<u128, PaymentDetail>::empty(),
            r@.parties == Map::<PaymentId, (AccountId, AccountId)>::empty(),
            r@.scheduled == Map::<PaymentId, (BlockNumber, AccountId)>::empty(),
            r@.ledger == ledger@,
            r@.min_balances == Map::<AssetId, Balance>::empty(),
            r@.config == config,
    {
        Payments {
            payments: HashMap::new(),
            parties: HashMap::new(),
            scheduled: HashMap::new(),
            ledger,
            min_balances: HashMap::new(),
            config,
            notices: Vec::new(),
        }
    }

    /// The balances of an account in an asset.
    pub fn balances(&self, asset: AssetId, who: AccountId) -> (r: Balances)
        ensures
            r == balances_of(self@.ledger, asset, who),
    {
        get_balances(&self.ledger, asset, who)
    }

    /// The minimum balance of an asset.
    pub fn min_balance(&self, asset: AssetId) -> (r: Balance)
        ensures
            r == min_balance_of(self@, asset),
    {
        match self.min_balances.get(&asset) {
            Some(m) => *m,
            None => 0,
        }
    }

    /// Sets the minimum balance of an asset, as the runtime's asset registry has it.
    pub fn set_min_balance(&mut self, asset: AssetId, min: Balance)
        ensures
            final(self)@ == (PaymentsView { min_balances: old(self)@.min_balances.insert(asset, min), ..old(self)@ }),
            final(self).notified() == old(self).notified(),
    {
        self.min_balances.insert(asset, min);
    }

    /// The payment of `sender` with id `id`, if any.
    pub fn payment(&self, sender: AccountId, id: PaymentId) -> (r: Option<&PaymentDetail>)
        ensures
            r matches Some(p) ==> lookup(self@, sender, id) == Some(*p),
            r is None ==> lookup(self@, sender, id) is None,
    {
        self.payments.get(&payment_key_of(sender, id))
    }

    /// The parties of the payment `id`, if any.
    pub fn parties(&self, id: PaymentId) -> (r: Option<(AccountId, AccountId)>)
        ensures
            r == (if self@.parties.contains_key(id) {
                Some(self@.parties[id])
            } else {
                None
            }),
    {
        match self.parties.get(&id) {
            Some(p) => Some(*p),
            None => None,
        }
    }

    /// The block at which the refund of payment `id` is carried out, if one is scheduled.
    pub fn scheduled_cancel(&self, id: PaymentId) -> (r: Option<BlockNumber>)
        ensures
            r == (if self@.scheduled.contains_key(id) {
                Some(self@.scheduled[id].0)
            } else {
                None
            }),
    {
        match self.scheduled.get(&id) {
            Some(b) => Some(b.0),
            None => None,
        }
    }

    /// The scheduled cancellation of payment `id`, if any: the block it is dispatched at, and
    /// the account it is signed by.
    pub fn scheduled_call(&self, id: PaymentId) -> (r: Option<(BlockNumber, AccountId)>)
        ensures
            r == (if self@.scheduled.contains_key(id) {
                Some(self@.scheduled[id])
            } else {
                None
            }),
    {
        match self.scheduled.get(&id) {
            Some(b) => Some(*b),
            None => None,
        }
    }

    fn set_state(&mut self, k: u128, state: PaymentState)
        requires
            old(self)@.payments.contains_key(k),
        ensures
            final(self)@ == (PaymentsView {
                payments: old(self)@.payments.insert(k, with_state(old(self)@.payments[k], state)),
                ..old(self)@
            }),
            final(self).notified() == old(self).notified(),
    {
        let removed = self.payments.remove(&k);
        match removed {
            Some(p) => {
                let updated = PaymentDetail { state, ..p };
                self.payments.insert(k, updated);
            },
            None => {},
        }
        assert(self.payments@ =~= old(self)@.payments.insert(k, with_state(old(self)@.payments[k], state)));
    }

    fn prepare_payment(
        &self,
        sender: AccountId,
        beneficiary: AccountId,
        asset: AssetId,
        amount: Balance,
        state: PaymentState,
        generated: Option<PaymentId>,
        fees: Fees,
    ) -> (r: Result<(PaymentId, PaymentDetail), Error>)
        ensures
            r == new_payment(self@, sender, beneficiary, asset, amount, state, generated, fees),
    {
        let id = match generated {
            None => return Err(Error::NoPaymentIdAvailable),
            Some(id) => id,
        };
        let k = payment_key_of(sender, id);
        match self.payments.get(&k) {
            Some(existing) => {
                if existing.state != PaymentState::PaymentRequested {
                    return Err(Error::PaymentAlreadyInProcess);
                }
            },
            None => {},
        }
        let incentive_amount = percent_mul_floor(self.config.incentive_percentage, amount);
        Ok((id, PaymentDetail { asset, amount, beneficiary, incentive_amount, state, fees }))
    }

    fn record(&mut self, sender: AccountId, id: PaymentId, p: PaymentDetail)
        ensures
            final(self)@ == recorded(old(self)@, sender, id, p),
            final(self).notified() == old(self).notified(),
    {
        let beneficiary = p.beneficiary;
        self.payments.insert(payment_key_of(sender, id), p);
        self.parties.insert(id, (sender, beneficiary));
    }

    /// Creates a payment from `sender` to `beneficiary` of `amount` of `asset`, with the id
    /// the runtime generated and the fees it applies, and holds the amount, the sender's fees
    /// and its incentive. The event carries the remark, cut to the longest the pallet keeps.
    pub fn create(
        &mut self,
        sender: AccountId,
        asset: AssetId,
        amount: Balance,
        beneficiary: AccountId,
        generated: Option<PaymentId>,
        fees: Fees,
        remark: Option<Vec<u8>>,
    ) -> (r: Result<Event, Error>)
        ensures
            match create_spec(old(self)@, sender, asset, amount, beneficiary, generated, fees) {
                Ok((v2, id)) => final(self)@ == v2 && (r matches Ok(Event::PaymentCreated { payment_id, asset: a, amount: am, remark: rm })
                    && payment_id == id && a == asset && am == amount && remark_view(rm) == truncated(
                    remark,
                    old(self)@.config.max_remark_length,
                )),
                Err(e) => r == Err::<Event, Error>(e) && final(self)@ == old(self)@,
            },
            final(self).notified() == old(self).notified() + created_notices(
                create_spec(old(self)@, sender, asset, amount, beneficiary, generated, fees),
            ),
    {
        let (id, p) = match self.prepare_payment(sender, beneficiary, asset, amount, PaymentState::Created, generated, fees) {
            Err(e) => return Err(e),
            Ok(t) => t,
        };
        let keep = self.min_balance(p.asset);
        let mut steps = build_reserve_steps(sender, &p, keep);
        push_beneficiary_checks(&mut steps, &p);
        match run_plan(&mut self.ledger, &steps) {
            Err(e) => return Err(e),
            Ok(()) => {},
        }
        self.record(sender, id, p);
        self.notices.push(Notification::Created { payment_id: id });
        let rm = truncate_remark(&remark, self.config.max_remark_length);
        Ok(Event::PaymentCreated { payment_id: id, asset, amount, remark: rm })
    }

    /// Releases a created payment of `sender` to its beneficiary.
    pub fn release(&mut self, sender: AccountId, id: PaymentId) -> (r: Result<Event, Error>)
        ensures
            r == reported(release_spec(old(self)@, sender, id)),
            final(self)@ == after(old(self)@, release_spec(old(self)@, sender, id)),
            final(self).notified() == old(self).notified() + release_notices(old(self)@, sender, id),
    {
        let k = payment_key_of(sender, id);
        let p = match self.payments.get(&k) {
            None => return Err(Error::InvalidPayment),
            Some(p) => p,
        };
        if p.state != PaymentState::Created {
            return Err(Error::InvalidAction);
        }
        let (fees, resulting_amount) = share_of_beneficiary(p);
        let keep = self.min_balance(p.asset);
        let mut steps = build_settle_steps(sender, p.beneficiary, p, None, keep);
        push_beneficiary_checks(&mut steps, p);
        match run_plan(&mut self.ledger, &steps) {
            Err(e) => return Err(e),
            Ok(()) => {},
        }
        self.set_state(k, PaymentState::Finished);
        self.notices.push(Notification::Released { payment_id: id, fees, resulting_amount });
        Ok(Event::PaymentReleased { payment_id: id })
    }

    /// The sender of a created payment asks for a refund, carried out after the buffer at
    /// block `now`.
    pub fn request_refund(&mut self, sender: AccountId, id: PaymentId, now: BlockNumber) -> (r: Result<Event, Error>)
        ensures
            r == reported(request_refund_spec(old(self)@, sender, id, now)),
            final(self)@ == after(old(self)@, request_refund_spec(old(self)@, sender, id, now)),
            final(self).notified() == old(self).notified(),
    {
        let k = payment_key_of(sender, id);
        let p = match self.payments.get(&k) {
            None => return Err(Error::InvalidPayment),
            Some(p) => p,
        };
        if p.state != PaymentState::Created {
            return Err(Error::InvalidAction);
        }
        let cancel_block = match now.checked_add(self.config.cancel_buffer_block_length) {
            None => return Err(Error::MathError),
            Some(b) => b,
        };
        if self.scheduled.contains_key(&id) {
            return Err(Error::FailedToSchedule);
        }
        let beneficiary = p.beneficiary;
        self.scheduled.insert(id, (cancel_block, beneficiary));
        self.set_state(k, PaymentState::RefundRequested { cancel_block });
        Ok(Event::PaymentCreatorRequestedRefund { payment_id: id, expiry: cancel_block })
    }

    /// The sender pays the payment `id`: its fees, the amount to the beneficiary, and the
    /// beneficiary's fees. The payment's state is not checked: as in the pallet this follows,
    /// a payment that was not requested (one created, or already finished) is paid again.
    pub fn accept_and_pay(&mut self, sender: AccountId, id: PaymentId) -> (r: Result<Event, Error>)
        ensures
            r == reported(accept_and_pay_spec(old(self)@, sender, id)),
            final(self)@ == after(old(self)@, accept_and_pay_spec(old(self)@, sender, id)),
            final(self).notified() == old(self).notified() + accept_and_pay_notices(old(self)@, sender, id),
    {
        let beneficiary = match self.parties.get(&id) {
            None => return Err(Error::NonExistentStorageValue),
            Some(parties) => parties.1,
        };
        let k = payment_key_of(sender, id);
        let p = match self.payments.get(&k) {
            None => return Err(Error::InvalidPayment),
            Some(p) => p,
        };
        let (fees, resulting_amount) = share_of_beneficiary(p);
        let (sl, _, _) = match p.fees.summary_for(Role::Sender, false) {
            Err(e) => return Err(e),
            Ok(t) => t,
        };
        let (bl, _, _) = match p.fees.summary_for(Role::Beneficiary, false) {
            Err(e) => return Err(e),
            Ok(t) => t,
        };
        let keep = self.min_balance(p.asset);
        let mut steps: Vec<Step> = Vec::new();
        push_fee_steps(&mut steps, sender, p.asset, &sl, false, keep);
        steps.push(
            Step::Apply(
                AssetOp::Transfer { asset: p.asset, from: sender, to: beneficiary, amount: p.amount, keep: 0 },
                Error::TransferFailed,
            ),
        );
        push_fee_steps(&mut steps, beneficiary, p.asset, &bl, false, keep);
        push_beneficiary_checks(&mut steps, p);
        assert(steps@ =~= fee_steps(sender, p.asset, sl@, false, keep) + seq![
            Step::Apply(
                AssetOp::Transfer { asset: p.asset, from: sender, to: beneficiary, amount: p.amount, keep: 0 },
                Error::TransferFailed,
            ),
        ] + fee_steps(beneficiary, p.asset, bl@, false, keep) + beneficiary_checks(*p));
        match run_plan(&mut self.ledger, &steps) {
            Err(e) => return Err(e),
            Ok(()) => {},
        }
        self.set_state(k, PaymentState::Finished);
        self.notices.push(Notification::ChargeSuccess { payment_id: id, fees, resulting_amount });
        self.notices.push(Notification::Released { payment_id: id, fees, resulting_amount });
        Ok(Event::PaymentRequestCompleted { payment_id: id })
    }

    /// The beneficiary `caller` cancels a created payment, or one whose refund was requested:
    /// the amount goes back to the sender, and the payment is forgotten.
    pub fn cancel(&mut self, caller: AccountId, id: PaymentId) -> (r: Result<Event, Error>)
        ensures
            r == reported(cancel_spec(old(self)@, caller, id)),
            final(self)@ == after(old(self)@, cancel_spec(old(self)@, caller, id)),
            final(self).notified() == old(self).notified() + cancel_notices(old(self)@, caller, id),
    {
        let (sender, beneficiary) = match self.parties.get(&id) {
            None => return Err(Error::NonExistentStorageValue),
            Some(parties) => *parties,
        };
        if caller != beneficiary {
            return Err(Error::InvalidBeneficiary);
        }
        let k = payment_key_of(sender, id);
        let p = match self.payments.get(&k) {
            None => return Err(Error::InvalidPayment),
            Some(p) => p,
        };
        let event = match p.state {
            PaymentState::Created => Event::PaymentCancelled { payment_id: id },
            PaymentState::RefundRequested { .. } => Event::PaymentRefunded { payment_id: id },
            _ => return Err(Error::InvalidAction),
        };
        let steps = build_cancel_steps(sender, p);
        match run_plan(&mut self.ledger, &steps) {
            Err(e) => return Err(e),
            Ok(()) => {},
        }
        self.payments.remove(&k);
        self.parties.remove(&id);
        self.notices.push(Notification::Cancelled { payment_id: id });
        Ok(event)
    }

    /// The scheduler at block `now`: a cancellation of payment `id` that is due is taken off
    /// the schedule and dispatched, signed by the account it was scheduled with; what the
    /// `cancel` gives is returned (its failure does not put the task back). `None` when no
    /// cancellation of `id` is due.
    pub fn run_scheduled_cancel(&mut self, id: PaymentId, now: BlockNumber) -> (r: Option<Result<Event, Error>>)
        ensures
            !(old(self)@.scheduled.contains_key(id) && old(self)@.scheduled[id].0 <= now) ==> r is None
                && final(self)@ == old(self)@ && final(self).notified() == old(self).notified(),
            old(self)@.scheduled.contains_key(id) && old(self)@.scheduled[id].0 <= now ==> {
                let v1 = PaymentsView { scheduled: old(self)@.scheduled.remove(id), ..old(self)@ };
                let caller = old(self)@.scheduled[id].1;
                &&& r == Some(reported(cancel_spec(v1, caller, id)))
                &&& final(self)@ == after(v1, cancel_spec(v1, caller, id))
                &&& final(self).notified() == old(self).notified() + cancel_notices(v1, caller, id)
            },
    {
        let (at, caller) = match self.scheduled.get(&id) {
            None => return None,
            Some(task) => *task,
        };
        if at > now {
            return None;
        }
        self.scheduled.remove(&id);
        Some(self.cancel(caller, id))
    }

    /// The beneficiary `caller` disputes a refund request before it is carried out (at block
    /// `now`): it holds its incentive, and the payment awaits review.
    pub fn dispute_refund(&mut self, caller: AccountId, id: PaymentId, now: BlockNumber) -> (r: Result<Event, Error>)
        ensures
            r == reported(dispute_refund_spec(old(self)@, caller, id, now)),
            final(self)@ == after(old(self)@, dispute_refund_spec(old(self)@, caller, id, now)),
            final(self).notified() == old(self).notified(),
    {
        let (sender, beneficiary) = match self.parties.get(&id) {
            None => return Err(Error::NonExistentStorageValue),
            Some(parties) => *parties,
        };
        if caller != beneficiary {
            return Err(Error::InvalidBeneficiary);
        }
        let k = payment_key_of(sender, id);
        let p = match self.payments.get(&k) {
            None => return Err(Error::InvalidPayment),
            Some(p) => p,
        };
        match p.state {
            PaymentState::RefundRequested { cancel_block } => {
                if cancel_block <= now {
                    return Err(Error::InvalidAction);
                }
            },
            _ => return Err(Error::InvalidAction),
        }
        let hold = AssetOp::Hold { asset: p.asset, who: caller, amount: p.incentive_amount };
        let mut work = self.ledger.clone();
        if !apply_one(&mut work, hold) {
            return Err(Error::FundsUnavailable);
        }
        if !self.scheduled.contains_key(&id) {
            return Err(Error::NotFound);
        }
        self.ledger = work;
        self.scheduled.remove(&id);
        self.set_state(k, PaymentState::NeedsReview);
        Ok(Event::PaymentRefundDisputed { payment_id: id })
    }

    /// The beneficiary `caller` requests a payment from `sender`, with the id the runtime
    /// generated and the fees it applies.
    pub fn request_payment(
        &mut self,
        caller: AccountId,
        sender: AccountId,
        asset: AssetId,
        amount: Balance,
        generated: Option<PaymentId>,
        fees: Fees,
    ) -> (r: Result<Event, Error>)
        ensures
            r == reported(request_payment_spec(old(self)@, caller, sender, asset, amount, generated, fees)),
            final(self)@ == after(
                old(self)@,
                request_payment_spec(old(self)@, caller, sender, asset, amount, generated, fees),
            ),
            final(self).notified() == old(self).notified() + request_payment_notices(
                old(self)@,
                caller,
                sender,
                asset,
                amount,
                generated,
                fees,
            ),
    {
        let (id, p) = match self.prepare_payment(
            sender,
            caller,
            asset,
            amount,
            PaymentState::PaymentRequested,
            generated,
            fees,
        ) {
            Err(e) => return Err(e),
            Ok(t) => t,
        };
        self.record(sender, id, p);
        self.notices.push(Notification::Created { payment_id: id });
        Ok(Event::PaymentRequestCreated { payment_id: id })
    }

    /// A resolver settles a payment under review as it decided.
    pub fn resolve_dispute(&mut self, resolver: AccountId, id: PaymentId, result: DisputeResult) -> (r: Result<Event, Error>)
        ensures
            r == reported(resolve_dispute_spec(old(self)@, resolver, id, result)),
            final(self)@ == after(old(self)@, resolve_dispute_spec(old(self)@, resolver, id, result)),
            final(self).notified() == old(self).notified() + resolve_dispute_notices(old(self)@, resolver, id, result),
    {
        let (sender, beneficiary) = match self.parties.get(&id) {
            None => return Err(Error::NonExistentStorageValue),
            Some(parties) => *parties,
        };
        let k = payment_key_of(sender, id);
        let p = match self.payments.get(&k) {
            None => return Err(Error::InvalidPayment),
            Some(p) => p,
        };
        if p.state != PaymentState::NeedsReview {
            return Err(Error::InvalidAction);
        }
        let notes = notices_of_dispute(id, p, result);
        let keep = self.min_balance(p.asset);
        let steps = build_settle_steps(sender, beneficiary, p, Some((result, resolver)), keep);
        match run_plan(&mut self.ledger, &steps) {
            Err(e) => return Err(e),
            Ok(()) => {},
        }
        self.set_state(k, PaymentState::Finished);
        let ghost before = self.notices@;
        let ghost settled = self@;
        let mut i: usize = 0;
        while i < notes.len()
            invariant
                0 <= i <= notes@.len(),
                self.notices@ == before + notes@.take(i as int),
                self@ == settled,
            decreases notes@.len() - i,
        {
            proof {
                assert(notes@.take(i + 1) =~= notes@.take(i as int).push(notes@[i as int]));
            }
            self.notices.push(notes[i]);
            i = i + 1;
        }
        assert(notes@.take(notes@.len() as int) =~= notes@);
        Ok(Event::PaymentDisputeResolved { payment_id: id })
    }
}

/// The view of a remark.
pub open spec fn remark_view(r: Option<Vec<u8>>) -> Option<Seq<u8>> {
    match r {
        Some(v) => Some(v@),
        None => None,
    }
}

fn truncate_remark(remark: &Option<Vec<u8>>, max: u32) -> (r: Option<Vec<u8>>)
    ensures
        remark_view(r) == truncated(*remark, max),
{
    match remark {
        None => None,
        Some(bytes) => {
            let mut out: Vec<u8> = Vec::new();
            let mut i: usize = 0;
            while i < bytes.len() && (i as u64) < (max as u64)
                invariant
                    0 <= i <= bytes@.len(),
                    i <= max,
                    out@ == bytes@.take(i as int),
                decreases bytes@.len() - i,
            {
                out.push(bytes[i]);
                i = i + 1;
                assert(out@ =~= bytes@.take(i as int));
            }
            proof {
                if bytes@.len() <= max {
                    assert(bytes@.take(bytes@.len() as int) =~= bytes@);
                }
            }
            Some(out)
        },
    }
}

/// Running two plans one after the other is running the first, then the second on what it
/// left.
proof fn lemma_run_steps_concat(m: Map<u128, Balances>, a: Seq<Step>, b: Seq<Step>, i: int)
    requires
        0 <= i <= a.len(),
    ensures
        run_steps(m, a + b, i) == match run_steps(m, a, i) {
            Err(e) => Err(e),
            Ok(m2) => run_steps(m2, b, 0),
        },
    decreases a.len() - i,
{
    if i == a.len() {
        lemma_run_steps_shift(m, a, b, 0);
    } else {
        match a[i] {
            Step::Apply(op, e) => match apply_op(m, op) {
                None => {},
                Some(m2) => lemma_run_steps_concat(m2, a, b, i + 1),
            },
            Step::Require(ok, e) => if ok {
                lemma_run_steps_concat(m, a, b, i + 1);
            },
        }
    }
}

proof fn lemma_run_steps_shift(m: Map<u128, Balances>, a: Seq<Step>, b: Seq<Step>, j: int)
    requires
        0 <= j <= b.len(),
    ensures
        run_steps(m, a + b, a.len() + j) == run_steps(m, b, j),
    decreases b.len() - j,
{
    if j < b.len() {
        assert((a + b)[a.len() + j] == b[j]);
        match b[j] {
            Step::Apply(op, e) => match apply_op(m, op) {
                None => {},
                Some(m2) => lemma_run_steps_shift(m2, a, b, j + 1),
            },
            Step::Require(ok, e) => if ok {
                lemma_run_steps_shift(m, a, b, j + 1);
            },
        }
    }
}

/// Cancelling a payment gives every account back the balances it had before the payment was
/// made: the holds of the sender and of the beneficiary are released, and the amount returns
/// to the sender. (When the two parties are different, the beneficiary's free balance must
/// be able to take the amount back before it returns.)
#[verifier::spinoff_prover]
#[verifier::rlimit(60)]
pub proof fn lemma_cancel_undoes_reserve(m: Map<u128, Balances>, sender: AccountId, p: PaymentDetail, keep: Balance)
    requires
        run_steps(m, reserve_steps(sender, p, keep), 0) is Ok,
        sender != p.beneficiary ==> balances_of(m, p.asset, p.beneficiary).free + p.amount <= u128::MAX,
    ensures
        run_steps(run_steps(m, reserve_steps(sender, p, keep), 0)->Ok_0, cancel_steps(sender, p), 0) matches Ok(
            m3,
        ) && forall|a: AssetId, w: AccountId| #[trigger] balances_of(m3, a, w) == balances_of(m, a, w),
{
    reveal_with_fuel(run_steps, 4);
    if sender == p.beneficiary {
        lemma_cancel_undoes_self_reserve(m, sender, p, keep);
        return;
    }
    let (_, mand, opt) = fee_summary(p.fees.sender_pays@, false)->0;
    let hold = sender_hold(p, mand, opt);
    let ks = ledger_key(p.asset, sender);
    let kb = ledger_key(p.asset, p.beneficiary);
    assert(ks != kb) by {
        if ks == kb {
            lemma_ledger_key_injective(p.asset, sender, p.asset, p.beneficiary);
        }
    }
    let s0 = balances_of(m, p.asset, sender);
    let b0 = balances_of(m, p.asset, p.beneficiary);
    let m1 = apply_op(m, AssetOp::Hold { asset: p.asset, who: sender, amount: hold })->0;
    let m2 = apply_op(
        m1,
        AssetOp::TransferAndHold { asset: p.asset, from: sender, to: p.beneficiary, amount: p.amount, keep },
    )->0;
    assert(run_steps(m, reserve_steps(sender, p, keep), 0) == Ok::<Map<u128, Balances>, Error>(m2));
    assert(balances_of(m2, p.asset, sender) == Balances {
        free: (s0.free - hold - p.amount) as u128,
        held: (s0.held + hold) as u128,
    });
    assert(balances_of(m2, p.asset, p.beneficiary) == Balances {
        free: b0.free,
        held: (b0.held + p.amount) as u128,
    });
    let m3 = apply_op(m2, AssetOp::Release { asset: p.asset, who: sender, amount: hold })->0;
    let m4 = apply_op(m3, AssetOp::Release { asset: p.asset, who: p.beneficiary, amount: p.amount })->0;
    let m5 = apply_op(
        m4,
        AssetOp::Transfer { asset: p.asset, from: p.beneficiary, to: sender, amount: p.amount, keep: 0 },
    )->0;
    assert(run_steps(m2, cancel_steps(sender, p), 0) == Ok::<Map<u128, Balances>, Error>(m5));
    assert forall|a: AssetId, w: AccountId| #[trigger] balances_of(m5, a, w) == balances_of(m, a, w) by {
        let k = ledger_key(a, w);
        if k == ks {
            lemma_ledger_key_injective(a, w, p.asset, sender);
        } else if k == kb {
            lemma_ledger_key_injective(a, w, p.asset, p.beneficiary);
        }
    }
}

/// The case of `lemma_cancel_undoes_reserve` where the sender pays itself.
#[verifier::spinoff_prover]
#[verifier::rlimit(60)]
proof fn lemma_cancel_undoes_self_reserve(m: Map<u128, Balances>, sender: AccountId, p: PaymentDetail, keep: Balance)
    requires
        sender == p.beneficiary,
        run_steps(m, reserve_steps(sender, p, keep), 0) is Ok,
    ensures
        run_steps(run_steps(m, reserve_steps(sender, p, keep), 0)->Ok_0, cancel_steps(sender, p), 0) matches Ok(
            m3,
        ) && forall|a: AssetId, w: AccountId| #[trigger] balances_of(m3, a, w) == balances_of(m, a, w),
{
    reveal_with_fuel(run_steps, 4);
    let (_, mand, opt) = fee_summary(p.fees.sender_pays@, false)->0;
    let hold = sender_hold(p, mand, opt);
    let ks = ledger_key(p.asset, sender);
    let s0 = balances_of(m, p.asset, sender);
    let m1 = apply_op(m, AssetOp::Hold { asset: p.asset, who: sender, amount: hold })->0;
    let m2 = apply_op(
        m1,
        AssetOp::TransferAndHold { asset: p.asset, from: sender, to: p.beneficiary, amount: p.amount, keep },
    )->0;
    assert(run_steps(m, reserve_steps(sender, p, keep), 0) == Ok::<Map<u128, Balances>, Error>(m2));
    assert(balances_of(m2, p.asset, sender) == Balances {
        free: (s0.free - hold - p.amount) as u128,
        held: (s0.held + hold + p.amount) as u128,
    });
    let m3 = apply_op(m2, AssetOp::Release { asset: p.asset, who: sender, amount: hold })->0;
    let m4 = apply_op(m3, AssetOp::Release { asset: p.asset, who: p.beneficiary, amount: p.amount })->0;
    assert(balances_of(m4, p.asset, sender) == s0);
    assert(run_steps(m2, cancel_steps(sender, p), 0) == Ok::<Map<u128, Balances>, Error>(m4));
    assert forall|a: AssetId, w: AccountId| #[trigger] balances_of(m4, a, w) == balances_of(m, a, w) by {
        let k = ledger_key(a, w);
        if k == ks {
            lemma_ledger_key_injective(a, w, p.asset, sender);
        }
    }
}

/// A payment that its beneficiary cancels right after it was made leaves every account with
/// the balances it had before, and leaves no trace of the payment. (When the two parties are
/// different, the beneficiary's free balance must be able to take the amount back before it
/// returns.)
#[verifier::spinoff_prover]
#[verifier::rlimit(40)]
pub proof fn lemma_cancel_after_create(
    v: PaymentsView,
    sender: AccountId,
    asset: AssetId,
    amount: Balance,
    beneficiary: AccountId,
    id: PaymentId,
    fees: Fees,
)
    requires
        sender != beneficiary ==> balances_of(v.ledger, asset, beneficiary).free + amount <= u128::MAX,
        create_spec(v, sender, asset, amount, beneficiary, Some(id), fees) is Ok,
    ensures
        cancel_spec(create_spec(v, sender, asset, amount, beneficiary, Some(id), fees)->Ok_0.0, beneficiary, id) matches Ok(
            (v3, ev),
        ) && ev == (Event::PaymentCancelled { payment_id: id }) && !v3.parties.contains_key(id)
            && !v3.payments.contains_key(payment_key(sender, id)) && forall|a: AssetId, w: AccountId| #[trigger]
            balances_of(v3.ledger, a, w) == balances_of(v.ledger, a, w),
{
    reveal_with_fuel(run_steps, 3);
    let p = new_payment(v, sender, beneficiary, asset, amount, PaymentState::Created, Some(id), fees)->Ok_0.1;
    lemma_run_steps_concat(v.ledger, reserve_steps(sender, p, min_balance_of(v, asset)), beneficiary_checks(p), 0);
    let m2 = run_steps(v.ledger, reserve_steps(sender, p, min_balance_of(v, asset)), 0)->Ok_0;
    assert(run_steps(m2, beneficiary_checks(p), 0) == Ok::<Map<u128, Balances>, Error>(m2));
    lemma_cancel_undoes_reserve(v.ledger, sender, p, min_balance_of(v, asset));
    let v2 = create_spec(v, sender, asset, amount, beneficiary, Some(id), fees)->Ok_0.0;
    assert(v2.parties[id] == (sender, beneficiary));
    assert(lookup(v2, sender, id) == Some(p));
}

/// A plan that ends with the beneficiary checks succeeds only when the beneficiary's fees add
/// up and do not exceed the amount: what is notified of the beneficiary's share is then exactly
/// the sum of its fees and the amount less that sum.
pub proof fn lemma_checked_share_is_exact(m: Map<u128, Balances>, head: Seq<Step>, p: PaymentDetail)
    requires
        run_steps(m, head + beneficiary_checks(p), 0) is Ok,
    ensures
        fee_summary(p.fees.beneficiary_pays@, false) matches Some((_, fm, fo)) && fm + fo <= u128::MAX && p.amount
            >= fm + fo && beneficiary_share(p) == ((fm + fo) as u128, (p.amount - (fm + fo)) as u128),
{
    lemma_run_steps_concat(m, head, beneficiary_checks(p), 0);
    reveal_with_fuel(run_steps, 3);
}

/// A release that succeeds notifies the beneficiary's exact fees and what it keeps.
pub proof fn lemma_release_share_is_exact(v: PaymentsView, sender: AccountId, id: PaymentId)
    requires
        release_spec(v, sender, id) is Ok,
    ensures
        lookup(v, sender, id) matches Some(p) && fee_summary(p.fees.beneficiary_pays@, false) matches Some(
            (_, fm, fo),
        ) && fm + fo <= u128::MAX && p.amount >= fm + fo && beneficiary_share(p) == (
            (fm + fo) as u128,
            (p.amount - (fm + fo)) as u128,
        ),
{
    let p = lookup(v, sender, id)->0;
    lemma_checked_share_is_exact(v.ledger, settle_steps(sender, p.beneficiary, p, None, min_balance_of(v, p.asset)), p);
}

/// A payment paid by its sender notifies the beneficiary's exact fees and what it keeps.
pub proof fn lemma_accept_and_pay_share_is_exact(v: PaymentsView, sender: AccountId, id: PaymentId)
    requires
        accept_and_pay_spec(v, sender, id) is Ok,
    ensures
        lookup(v, sender, id) matches Some(p) && fee_summary(p.fees.beneficiary_pays@, false) matches Some(
            (_, fm, fo),
        ) && fm + fo <= u128::MAX && p.amount >= fm + fo && beneficiary_share(p) == (
            (fm + fo) as u128,
            (p.amount - (fm + fo)) as u128,
        ),
{
    let beneficiary = v.parties[id].1;
    let p = lookup(v, sender, id)->0;
    let sl = (fee_summary(p.fees.sender_pays@, false)->0).0;
    let bl = (fee_summary(p.fees.beneficiary_pays@, false)->0).0;
    let keep = min_balance_of(v, p.asset);
    let head = fee_steps(sender, p.asset, sl, false, keep) + seq![
        Step::Apply(
            AssetOp::Transfer { asset: p.asset, from: sender, to: beneficiary, amount: p.amount, keep: 0 },
            Error::TransferFailed,
        ),
    ] + fee_steps(beneficiary, p.asset, bl, false, keep);
    lemma_checked_share_is_exact(v.ledger, head, p);
}

/// A dispute won by the beneficiary that is resolved notifies its exact fees, and its share
/// plus the incentive less its mandatory fees, exactly: the plan checks that nothing saturates.
#[verifier::spinoff_prover]
pub proof fn lemma_dispute_share_is_exact(v: PaymentsView, resolver: AccountId, id: PaymentId, result: DisputeResult)
    requires
        resolve_dispute_spec(v, resolver, id, result) is Ok,
        result.in_favor_of == Role::Beneficiary,
    ensures
        v.parties.contains_key(id),
        lookup(v, v.parties[id].0, id) matches Some(p) && fee_summary(p.fees.beneficiary_pays@, true) matches Some(
            (_, fm, fo),
        ) && fm + fo <= u128::MAX && percent_of(result.percent_beneficiary, p.amount) + p.incentive_amount
            <= u128::MAX && percent_of(result.percent_beneficiary, p.amount) + p.incentive_amount >= fm
            && dispute_notices(id, p, result) == seq![
            Notification::Released {
                payment_id: id,
                fees: (fm + fo) as u128,
                resulting_amount: (percent_of(result.percent_beneficiary, p.amount) + p.incentive_amount
                    - fm) as u128,
            },
        ],
{
    let (sender, beneficiary) = v.parties[id];
    let p = lookup(v, sender, id)->0;
    let dispute = Some((result, resolver));
    let keep = min_balance_of(v, p.asset);
    let plan = settle_steps(sender, beneficiary, p, dispute, keep);
    assert(run_steps(v.ledger, plan, 0) is Ok);
    assert(fee_summary(p.fees.sender_pays@, true) is Some) by {
        reveal_with_fuel(run_steps, 2);
    }
    assert(fee_summary(p.fees.beneficiary_pays@, true) is Some) by {
        if fee_summary(p.fees.beneficiary_pays@, true) is None {
            let (_, sm0, so0) = fee_summary(p.fees.sender_pays@, true)->0;
            let rs = Step::Apply(
                AssetOp::Release { asset: p.asset, who: sender, amount: sender_hold(p, sm0, so0) },
                Error::ReleaseFailed,
            );
            assert(plan =~= seq![rs] + seq![Step::Require(false, Error::Overflow)]);
            reveal_with_fuel(run_steps, 3);
        }
    }
    let (sl, sm, so) = fee_summary(p.fees.sender_pays@, true)->0;
    let (bl, bm, bo) = fee_summary(p.fees.beneficiary_pays@, true)->0;
    let release_sender = Step::Apply(
        AssetOp::Release { asset: p.asset, who: sender, amount: sender_hold(p, sm, so) },
        Error::ReleaseFailed,
    );
    let head = seq![
        Step::Apply(
            AssetOp::Release { asset: p.asset, who: beneficiary, amount: sat_add_balance(p.amount, p.incentive_amount) },
            Error::ReleaseFailed,
        ),
    ] + fee_steps(sender, p.asset, sl, true, keep) + fee_steps(beneficiary, p.asset, bl, true, keep);
    let tail = dispute_steps(sender, beneficiary, p, result, resolver, bm, bo);
    assert(settle_steps(sender, beneficiary, p, dispute, keep) =~= (seq![release_sender] + head) + tail);
    lemma_run_steps_concat(v.ledger, seq![release_sender] + head, tail, 0);
    let m2 = run_steps(v.ledger, seq![release_sender] + head, 0)->Ok_0;
    reveal_with_fuel(run_steps, 6);
    assert(run_steps(m2, tail, 0) is Ok);
}

/// Whether every step is a transfer of free balances, or a condition.
pub open spec fn only_transfers(steps: Seq<Step>) -> bool {
    forall|i: int| 0 <= i < steps.len() ==> (#[trigger] steps[i] matches Step::Apply(AssetOp::Transfer { .. }, _)
        || steps[i] is Require)
}

proof fn lemma_fee_steps_only_transfers(account: AccountId, asset: AssetId, fees: Seq<Fee>, is_dispute: bool, keep: Balance)
    ensures
        only_transfers(fee_steps(account, asset, fees, is_dispute, keep)),
    decreases fees.len(),
{
    if fees.len() > 0 {
        lemma_fee_steps_only_transfers(account, asset, fees.drop_last(), is_dispute, keep);
    }
}

/// Transfers move free balances only: what every account holds stays.
proof fn lemma_transfers_keep_holds(m: Map<u128, Balances>, steps: Seq<Step>, i: int)
    requires
        0 <= i <= steps.len(),
        only_transfers(steps),
        run_steps(m, steps, i) is Ok,
    ensures
        forall|a: AssetId, w: AccountId| #[trigger] balances_of(run_steps(m, steps, i)->Ok_0, a, w).held
            == balances_of(m, a, w).held,
    decreases steps.len() - i,
{
    if i < steps.len() {
        match steps[i] {
            Step::Apply(op, e) => {
                let m2 = apply_op(m, op)->0;
                assert forall|a: AssetId, w: AccountId| #[trigger] balances_of(m2, a, w).held == balances_of(
                    m,
                    a,
                    w,
                ).held by {
                    match op {
                        AssetOp::Transfer { asset, from, to, amount, keep } => {
                            let k = ledger_key(a, w);
                            if k == ledger_key(asset, from) {
                                lemma_ledger_key_injective(a, w, asset, from);
                            }
                            if k == ledger_key(asset, to) {
                                lemma_ledger_key_injective(a, w, asset, to);
                            }
                        },
                        _ => {},
                    }
                }
                lemma_transfers_keep_holds(m2, steps, i + 1);
            },
            Step::Require(ok, e) => {
                lemma_transfers_keep_holds(m, steps, i + 1);
            },
        }
    }
}

/// Releasing a payment right after it was made leaves nothing held for it: the sender and the
/// beneficiary hold again what they held before the payment (when they are different accounts,
/// and whenever the release goes through).
#[verifier::spinoff_prover]
#[verifier::rlimit(60)]
pub proof fn lemma_release_frees_the_holds(
    v: PaymentsView,
    sender: AccountId,
    asset: AssetId,
    amount: Balance,
    beneficiary: AccountId,
    id: PaymentId,
    fees: Fees,
)
    requires
        sender != beneficiary,
        create_spec(v, sender, asset, amount, beneficiary, Some(id), fees) is Ok,
        release_spec(create_spec(v, sender, asset, amount, beneficiary, Some(id), fees)->Ok_0.0, sender, id) is Ok,
    ensures
        ({
            let v3 = release_spec(create_spec(v, sender, asset, amount, beneficiary, Some(id), fees)->Ok_0.0, sender, id)->Ok_0.0;
            &&& balances_of(v3.ledger, asset, sender).held == balances_of(v.ledger, asset, sender).held
            &&& balances_of(v3.ledger, asset, beneficiary).held == balances_of(v.ledger, asset, beneficiary).held
        }),
{
    reveal_with_fuel(run_steps, 3);
    let keep = min_balance_of(v, asset);
    let p = new_payment(v, sender, beneficiary, asset, amount, PaymentState::Created, Some(id), fees)->Ok_0.1;
    let v2 = create_spec(v, sender, asset, amount, beneficiary, Some(id), fees)->Ok_0.0;
    assert(lookup(v2, sender, id) == Some(p));
    lemma_run_steps_concat(v.ledger, reserve_steps(sender, p, keep), beneficiary_checks(p), 0);
    let m2 = run_steps(v.ledger, reserve_steps(sender, p, keep), 0)->Ok_0;
    assert(run_steps(m2, beneficiary_checks(p), 0) == Ok::<Map<u128, Balances>, Error>(m2));
    assert(v2.ledger == m2);
    let (_, sm, so) = fee_summary(p.fees.sender_pays@, false)->0;
    let (sl, _, _) = fee_summary(p.fees.sender_pays@, false)->0;
    let (bl, _, _) = fee_summary(p.fees.beneficiary_pays@, false)->0;
    let hold = sender_hold(p, sm, so);
    let ks = ledger_key(asset, sender);
    let kb = ledger_key(asset, beneficiary);
    assert(ks != kb) by {
        if ks == kb {
            lemma_ledger_key_injective(asset, sender, asset, beneficiary);
        }
    }
    // After the reserve: the sender holds `hold` more, the beneficiary `amount` more.
    let r1 = apply_op(v.ledger, AssetOp::Hold { asset, who: sender, amount: hold })->0;
    assert(m2 == apply_op(r1, AssetOp::TransferAndHold { asset, from: sender, to: beneficiary, amount, keep })->0);
    assert(balances_of(m2, asset, sender).held == balances_of(v.ledger, asset, sender).held + hold);
    assert(balances_of(m2, asset, beneficiary).held == balances_of(v.ledger, asset, beneficiary).held + amount);
    // The release: the two releases, then transfers only.
    let settle = settle_steps(sender, beneficiary, p, None, keep);
    let rel_s = Step::Apply(AssetOp::Release { asset, who: sender, amount: hold }, Error::ReleaseFailed);
    let rel_b = Step::Apply(AssetOp::Release { asset, who: beneficiary, amount }, Error::ReleaseFailed);
    let transfers = fee_steps(sender, asset, sl, false, keep) + fee_steps(beneficiary, asset, bl, false, keep);
    let tail = transfers + beneficiary_checks(p);
    assert(settle + beneficiary_checks(p) =~= seq![rel_s, rel_b] + tail);
    lemma_run_steps_concat(m2, seq![rel_s, rel_b], tail, 0);
    let m3 = apply_op(m2, AssetOp::Release { asset, who: sender, amount: hold })->0;
    let m4 = apply_op(m3, AssetOp::Release { asset, who: beneficiary, amount })->0;
    assert(run_steps(m2, seq![rel_s, rel_b], 0) == Ok::<Map<u128, Balances>, Error>(m4));
    assert(balances_of(m4, asset, sender).held == balances_of(v.ledger, asset, sender).held);
    assert(balances_of(m4, asset, beneficiary).held == balances_of(v.ledger, asset, beneficiary).held);
    lemma_release_tail_only_transfers(sender, beneficiary, asset, sl, bl, p, keep);
    lemma_transfers_keep_holds(m4, tail, 0);
}

/// The steps of a release after its two releases of holds move free balances only.
proof fn lemma_release_tail_only_transfers(
    sender: AccountId,
    beneficiary: AccountId,
    asset: AssetId,
    sl: Seq<Fee>,
    bl: Seq<Fee>,
    p: PaymentDetail,
    keep: Balance,
)
    ensures
        only_transfers(fee_steps(sender, asset, sl, false, keep) + fee_steps(beneficiary, asset, bl, false, keep) + beneficiary_checks(p)),
{
    let fs = fee_steps(sender, asset, sl, false, keep);
    let fb = fee_steps(beneficiary, asset, bl, false, keep);
    let tail = fs + fb + beneficiary_checks(p);
    lemma_fee_steps_only_transfers(sender, asset, sl, false, keep);
    lemma_fee_steps_only_transfers(beneficiary, asset, bl, false, keep);
    assert forall|i: int| 0 <= i < tail.len() implies (#[trigger] tail[i] matches Step::Apply(
        AssetOp::Transfer { .. },
        _,
    ) || tail[i] is Require) by {
        if i < fs.len() {
            assert(tail[i] == fs[i]);
        } else if i < fs.len() + fb.len() {
            assert(tail[i] == fb[i - fs.len()]);
        } else {
            assert(tail[i] == beneficiary_checks(p)[i - fs.len() - fb.len()]);
        }
    }
}

/// Generates the id of a payment between two parties: implemented by the runtime.
pub trait GeneratePaymentId<AccountId> {
    type PaymentId;

    fn generate(sender: &AccountId, beneficiary: &AccountId) -> Option<Self::PaymentId>;
}

/// Applies the fees of a payment: implemented by the runtime.
pub trait FeeHandler {
    fn apply_fees(
        asset: &AssetId,
        sender: &AccountId,
        beneficiary: &AccountId,
        amount: &Balance,
        remark: Option<&[u8]>,
    ) -> Fees;
}

/// Notified of the changes of the status of payments: implemented by the runtime.
pub trait OnPaymentStatusChanged<Id, Balance: Copy> {
    fn on_payment_created(id: &Id);

    fn on_payment_charge_success(id: &Id, fees: Balance, resulting_amount: Balance);

    fn on_payment_cancelled(id: &Id);

    fn on_payment_released(id: &Id, fees: Balance, resulting_amount: Balance);
}

/// Nobody is notified.
impl<Id, B: Copy> OnPaymentStatusChanged<Id, B> for () {
    fn on_payment_created(id: &Id) {
    }

    fn on_payment_charge_success(id: &Id, fees: B, resulting_amount: B) {
    }

    fn on_payment_cancelled(id: &Id) {
    }

    fn on_payment_released(id: &Id, fees: B, resulting_amount: B) {
    }
}

impl Payments {
    /// Creates a payment as `create` does, with the id that `G` generates for the parties and
    /// the fees that `F` applies: what they return is the runtime's, so the result is `create`'s
    /// on some id and fees, and what follows holds whatever they returned.
    pub fn pay<G: GeneratePaymentId<AccountId, PaymentId = PaymentId>, F: FeeHandler>(
        &mut self,
        sender: AccountId,
        beneficiary: AccountId,
        asset: AssetId,
        amount: Balance,
        remark: Option<Vec<u8>>,
    ) -> (r: Result<Event, Error>)
        ensures
            r is Err ==> final(self)@ == old(self)@,
            r matches Ok(Event::PaymentCreated { payment_id, .. }) ==> final(self)@.parties.contains_key(
                payment_id,
            ) && final(self)@.parties[payment_id] == (sender, beneficiary),
            r matches Ok(Event::PaymentCreated { payment_id, .. }) ==> final(self).notified() == old(
                self,
            ).notified().push(Notification::Created { payment_id }),
            r is Err ==> final(self).notified() == old(self).notified(),
            exists|generated: Option<PaymentId>, fees: Fees|
                #![trigger create_spec(old(self)@, sender, asset, amount, beneficiary, generated, fees)]
                match create_spec(old(self)@, sender, asset, amount, beneficiary, generated, fees) {
                    Ok((v2, id)) => final(self)@ == v2 && (r matches Ok(
                        Event::PaymentCreated { payment_id, asset: a, amount: am, remark: rm },
                    ) && payment_id == id && a == asset && am == amount && remark_view(rm) == truncated(
                        remark,
                        old(self)@.config.max_remark_length,
                    )),
                    Err(e) => r == Err::<Event, Error>(e) && final(self)@ == old(self)@,
                },
    {
        let generated = G::generate(&sender, &beneficiary);
        let fees = match &remark {
            Some(bytes) => F::apply_fees(&asset, &sender, &beneficiary, &amount, Some(bytes.as_slice())),
            None => F::apply_fees(&asset, &sender, &beneficiary, &amount, None),
        };
        let r = self.create(sender, asset, amount, beneficiary, generated, fees, remark);
        r
    }
}

/// A payment, as other pallets see it.
pub struct Payment<AccountId, Asset, Balance> {
    beneficiary: AccountId,
    asset: Asset,
    amount: Balance,
}

impl<AccountId, Asset, Balance: Copy> Payment<AccountId, Asset, Balance> {
    pub closed spec fn spec_beneficiary(&self) -> AccountId {
        self.beneficiary
    }

    pub closed spec fn spec_asset(&self) -> Asset {
        self.asset
    }

    pub closed spec fn spec_amount(&self) -> Balance {
        self.amount
    }

    pub fn new(beneficiary: AccountId, asset: Asset, amount: Balance) -> (r: Self)
        ensures
            r.spec_beneficiary() == beneficiary,
            r.spec_asset() == asset,
            r.spec_amount() == amount,
    {
        Payment { beneficiary, asset, amount }
    }

    pub fn beneficiary(&self) -> (r: &AccountId)
        ensures
            *r == self.spec_beneficiary(),
    {
        &self.beneficiary
    }

    pub fn asset(&self) -> (r: &Asset)
        ensures
            *r == self.spec_asset(),
    {
        &self.asset
    }

    pub fn amount(&self) -> (r: Balance)
        ensures
            r == self.spec_amount(),
    {
        self.amount
    }
}

impl Payments {
    /// The payment `id`, as other pallets see it: its beneficiary, asset and amount.
    pub fn details(&self, id: PaymentId) -> (r: Option<Payment<AccountId, AssetId, Balance>>)
        ensures
            match r {
                None => !self@.parties.contains_key(id) || lookup(self@, self@.parties[id].0, id) is None,
                Some(d) => self@.parties.contains_key(id) && (lookup(self@, self@.parties[id].0, id) matches Some(
                    p,
                ) && d.spec_beneficiary() == self@.parties[id].1 && d.spec_asset() == p.asset
                    && d.spec_amount() == p.amount),
            },
    {
        let (sender, beneficiary) = match self.parties.get(&id) {
            None => return None,
            Some(parties) => *parties,
        };
        match self.payments.get(&payment_key_of(sender, id)) {
            None => None,
            Some(p) => Some(Payment::new(beneficiary, p.asset, p.amount)),
        }
    }
}

/// The sum of the fees of a list, added one by one and capped at the largest balance,
/// starting from `start`.
pub open spec fn fees_sum_from(start: u128, fees: Seq<Fee>) -> u128
    decreases fees.len(),
{
    if fees.len() == 0 {
        start
    } else {
        sat_add_balance(fees_sum_from(start, fees.drop_last()), fees.last().1)
    }
}

fn sum_fees(start: Balance, fees: &Vec<Fee>) -> (r: Balance)
    ensures
        r == fees_sum_from(start, fees@),
{
    let mut total = start;
    let mut i: usize = 0;
    while i < fees.len()
        invariant
            0 <= i <= fees@.len(),
            total == fees_sum_from(start, fees@.take(i as int)),
        decreases fees@.len() - i,
    {
        proof {
            assert(fees@.take(i + 1).drop_last() =~= fees@.take(i as int));
        }
        total = sat_add(total, fees[i].1);
        i = i + 1;
    }
    assert(fees@.take(fees@.len() as int) =~= fees@);
    total
}

impl Payments {
    /// What the sender of a payment of `amount` pays beyond the amount, with the fees the
    /// runtime applies: the incentive and all its fees.
    pub fn sender_costs(&self, fees: &Fees, amount: Balance) -> (r: Balance)
        ensures
            r == fees_sum_from(percent_of(self@.config.incentive_percentage, amount), fees.sender_pays@),
    {
        let incentive = percent_mul_floor(self.config.incentive_percentage, amount);
        sum_fees(incentive, &fees.sender_pays)
    }

    /// What the beneficiary of a payment pays, with the fees the runtime applies: all its fees.
    pub fn beneficiary_costs(fees: &Fees) -> (r: Balance)
        ensures
            r == fees_sum_from(0, fees.beneficiary_pays@),
    {
        sum_fees(0, &fees.beneficiary_pays)
    }
}

/// Reads payments: implemented by payment pallets.
pub trait Inspect<AccountId> {
    type Id;
    type AssetId;
    type Balance;

    /// The details of a payment.
    fn details(id: Self::Id) -> Option<Payment<AccountId, Self::AssetId, Self::Balance>>;
}

/// Creates payments: implemented by payment pallets.
pub trait Mutate<AccountId>: Inspect<AccountId> {
    /// Creates a payment, with the encoded details as its remark.
    fn create(
        creator: &AccountId,
        asset: Self::AssetId,
        amount: Self::Balance,
        beneficiary: &AccountId,
        details: Option<Vec<u8>>,
    ) -> Result<Self::Id, Error>;
}


/// The free balance of an account in an asset.
pub open spec fn free_of(m: Map<u128, Balances>, asset: AssetId, who: AccountId) -> int {
    balances_of(m, asset, who).free as int
}

/// The held balance of an account in an asset.
pub open spec fn held_of(m: Map<u128, Balances>, asset: AssetId, who: AccountId) -> int {
    balances_of(m, asset, who).held as int
}

/// Whether some of `fees` go to `who`.
pub open spec fn pays_to(fees: Seq<Fee>, who: AccountId) -> bool {
    exists|i: int| 0 <= i < fees.len() && (#[trigger] fees[i]).0 == who
}

/// The sum of the fees that are charged: all of them, or only the mandatory ones in a dispute.
pub open spec fn charged_total(fees: Seq<Fee>, is_dispute: bool) -> int
    decreases fees.len(),
{
    if fees.len() == 0 {
        0
    } else {
        charged_total(fees.drop_last(), is_dispute) + if !is_dispute || fees.last().2 {
            fees.last().1 as int
        } else {
            0
        }
    }
}

proof fn lemma_charged_in_dispute_is_mandatory(fees: Seq<Fee>)
    ensures
        charged_total(fees, true) == fee_totals(fees).0,
    decreases fees.len(),
{
    if fees.len() > 0 {
        lemma_charged_in_dispute_is_mandatory(fees.drop_last());
    }
}

proof fn lemma_charged_total_filter(fees: Seq<Fee>, is_dispute: bool)
    ensures
        charged_total(charged_fees(fees, is_dispute), is_dispute) == charged_total(fees, is_dispute),
    decreases fees.len(),
{
    reveal(Seq::filter);
    if fees.len() > 0 {
        lemma_charged_total_filter(fees.drop_last(), is_dispute);
        let sub = charged_fees(fees.drop_last(), is_dispute);
        let x = fees.last();
        assert(sub.push(x).drop_last() =~= sub);
    }
}

proof fn lemma_charged_outside_dispute_is_all(fees: Seq<Fee>)
    ensures
        charged_total(fees, false) == fee_totals(fees).0 + fee_totals(fees).1,
    decreases fees.len(),
{
    if fees.len() > 0 {
        lemma_charged_outside_dispute_is_all(fees.drop_last());
    }
}

/// The fees that are charged go to no one the whole list does not pay.
proof fn lemma_charged_pays_to(fees: Seq<Fee>, is_dispute: bool)
    ensures
        forall|w: AccountId| #[trigger] pays_to(charged_fees(fees, is_dispute), w) ==> pays_to(fees, w),
{
    let c = charged_fees(fees, is_dispute);
    assert forall|w: AccountId| #[trigger] pays_to(c, w) implies pays_to(fees, w) by {
        let i = choose|i: int| 0 <= i < c.len() && (#[trigger] c[i]).0 == w;
        assert(c.contains(c[i]));
        fees.lemma_filter_contains_rev(|f: Fee| !is_dispute || f.2, c[i]);
        let j = choose|j: int| 0 <= j < fees.len() && fees[j] == c[i];
        assert(fees[j].0 == w);
    }
}

/// What a transfer between two accounts does to their free balances; the rest of the ledger
/// stays.
proof fn lemma_transfer_effect(m: Map<u128, Balances>, asset: AssetId, from: AccountId, to: AccountId, amount: Balance, keep: Balance)
    requires
        from != to,
        apply_op(m, AssetOp::Transfer { asset, from, to, amount, keep }) is Some,
    ensures
        ({
            let m2 = apply_op(m, AssetOp::Transfer { asset, from, to, amount, keep })->0;
            &&& free_of(m2, asset, from) == free_of(m, asset, from) - amount
            &&& held_of(m2, asset, from) == held_of(m, asset, from)
            &&& free_of(m2, asset, to) == free_of(m, asset, to) + amount
            &&& held_of(m2, asset, to) == held_of(m, asset, to)
            &&& forall|w: AccountId| w != from && w != to ==> #[trigger] balances_of(m2, asset, w) == balances_of(m, asset, w)
        }),
{
    let kf = ledger_key(asset, from);
    let kt = ledger_key(asset, to);
    assert(kf != kt) by {
        if kf == kt {
            lemma_ledger_key_injective(asset, from, asset, to);
        }
    }
    let m2 = apply_op(m, AssetOp::Transfer { asset, from, to, amount, keep })->0;
    assert forall|w: AccountId| w != from && w != to implies #[trigger] balances_of(m2, asset, w) == balances_of(m, asset, w) by {
        let k = ledger_key(asset, w);
        if k == kf {
            lemma_ledger_key_injective(asset, w, asset, from);
        }
        if k == kt {
            lemma_ledger_key_injective(asset, w, asset, to);
        }
    }
}

/// What releasing a hold does to an account; the rest of the ledger stays.
proof fn lemma_release_effect(m: Map<u128, Balances>, asset: AssetId, who: AccountId, amount: Balance)
    requires
        apply_op(m, AssetOp::Release { asset, who, amount }) is Some,
    ensures
        ({
            let m2 = apply_op(m, AssetOp::Release { asset, who, amount })->0;
            &&& free_of(m2, asset, who) == free_of(m, asset, who) + amount
            &&& held_of(m2, asset, who) == held_of(m, asset, who) - amount
            &&& forall|w: AccountId| w != who ==> #[trigger] balances_of(m2, asset, w) == balances_of(m, asset, w)
        }),
{
    let kw = ledger_key(asset, who);
    let m2 = apply_op(m, AssetOp::Release { asset, who, amount })->0;
    assert forall|w: AccountId| w != who implies #[trigger] balances_of(m2, asset, w) == balances_of(m, asset, w) by {
        if ledger_key(asset, w) == kw {
            lemma_ledger_key_injective(asset, w, asset, who);
        }
    }
}

/// One step run on its own.
proof fn lemma_run_one(m: Map<u128, Balances>, s: Step)
    ensures
        run_steps(m, seq![s], 0) == match s {
            Step::Apply(op, e) => match apply_op(m, op) {
                None => Err(e),
                Some(m2) => Ok(m2),
            },
            Step::Require(ok, e) => if ok {
                Ok(m)
            } else {
                Err(e)
            },
        },
{
    reveal_with_fuel(run_steps, 2);
}

/// Paying the fees of `account` takes what is charged from its free balance, and changes no
/// account that is neither the payer nor a recipient.
proof fn lemma_fee_steps_effect(m: Map<u128, Balances>, account: AccountId, asset: AssetId, fees: Seq<Fee>, is_dispute: bool, keep: Balance)
    requires
        run_steps(m, fee_steps(account, asset, fees, is_dispute, keep), 0) is Ok,
        !pays_to(fees, account),
    ensures
        ({
            let m2 = run_steps(m, fee_steps(account, asset, fees, is_dispute, keep), 0)->Ok_0;
            &&& free_of(m2, asset, account) == free_of(m, asset, account) - charged_total(fees, is_dispute)
            &&& held_of(m2, asset, account) == held_of(m, asset, account)
            &&& forall|w: AccountId| w != account && !pays_to(fees, w) ==> #[trigger] balances_of(m2, asset, w) == balances_of(m, asset, w)
        }),
    decreases fees.len(),
{
    if fees.len() == 0 {
        reveal_with_fuel(run_steps, 1);
    } else {
        let init = fees.drop_last();
        let f = fees.last();
        let prev = fee_steps(account, asset, init, is_dispute, keep);
        assert forall|i: int| 0 <= i < init.len() implies (#[trigger] init[i]).0 != account by {
            assert(fees[i] == init[i]);
        }
        assert forall|w: AccountId| pays_to(init, w) implies pays_to(fees, w) by {
            let i = choose|i: int| 0 <= i < init.len() && (#[trigger] init[i]).0 == w;
            assert(fees[i] == init[i]);
        }
        assert(fees[fees.len() - 1] == f);
        if !is_dispute || f.2 {
            let st = Step::Apply(AssetOp::Transfer { asset, from: account, to: f.0, amount: f.1, keep }, Error::TransferFailed);
            assert(fee_steps(account, asset, fees, is_dispute, keep) == prev + seq![st]);
            lemma_run_steps_concat(m, prev, seq![st], 0);
            lemma_fee_steps_effect(m, account, asset, init, is_dispute, keep);
            let m1 = run_steps(m, prev, 0)->Ok_0;
            lemma_run_one(m1, st);
            assert(f.0 != account);
            lemma_transfer_effect(m1, asset, account, f.0, f.1, keep);
        } else {
            assert(fee_steps(account, asset, fees, is_dispute, keep) == prev);
            lemma_fee_steps_effect(m, account, asset, init, is_dispute, keep);
        }
    }
}

/// Releasing both holds and paying both parties' fees: what it does to the sender, the
/// beneficiary, and any other account that gets no fee.
#[verifier::spinoff_prover]
proof fn lemma_settle_head(
    m0: Map<u128, Balances>,
    a: AssetId,
    sender: AccountId,
    beneficiary: AccountId,
    hold: Balance,
    release_b: Balance,
    sl: Seq<Fee>,
    bl: Seq<Fee>,
    is_dispute: bool,
    keep: Balance,
)
    requires
        sender != beneficiary,
        !pays_to(sl, sender) && !pays_to(sl, beneficiary),
        !pays_to(bl, sender) && !pays_to(bl, beneficiary),
        run_steps(
            m0,
            ((seq![
                Step::Apply(AssetOp::Release { asset: a, who: sender, amount: hold }, Error::ReleaseFailed),
            ] + seq![
                Step::Apply(AssetOp::Release { asset: a, who: beneficiary, amount: release_b }, Error::ReleaseFailed),
            ]) + fee_steps(sender, a, sl, is_dispute, keep)) + fee_steps(beneficiary, a, bl, is_dispute, keep),
            0,
        ) is Ok,
    ensures
        ({
            let m4 = run_steps(
                m0,
                ((seq![
                    Step::Apply(AssetOp::Release { asset: a, who: sender, amount: hold }, Error::ReleaseFailed),
                ] + seq![
                    Step::Apply(AssetOp::Release { asset: a, who: beneficiary, amount: release_b }, Error::ReleaseFailed),
                ]) + fee_steps(sender, a, sl, is_dispute, keep)) + fee_steps(beneficiary, a, bl, is_dispute, keep),
                0,
            )->Ok_0;
            &&& free_of(m4, a, sender) == free_of(m0, a, sender) + hold - charged_total(sl, is_dispute)
            &&& held_of(m4, a, sender) == held_of(m0, a, sender) - hold
            &&& free_of(m4, a, beneficiary) == free_of(m0, a, beneficiary) + release_b - charged_total(bl, is_dispute)
            &&& held_of(m4, a, beneficiary) == held_of(m0, a, beneficiary) - release_b
            &&& forall|w: AccountId| w != sender && w != beneficiary && !pays_to(sl, w) && !pays_to(bl, w)
                ==> #[trigger] balances_of(m4, a, w) == balances_of(m0, a, w)
        }),
{
    let rs = Step::Apply(AssetOp::Release { asset: a, who: sender, amount: hold }, Error::ReleaseFailed);
    let rb = Step::Apply(AssetOp::Release { asset: a, who: beneficiary, amount: release_b }, Error::ReleaseFailed);
    let fs = fee_steps(sender, a, sl, is_dispute, keep);
    let fb = fee_steps(beneficiary, a, bl, is_dispute, keep);
    let p1 = seq![rs] + seq![rb];
    let p2 = p1 + fs;
    lemma_run_steps_concat(m0, p2, fb, 0);
    lemma_run_steps_concat(m0, p1, fs, 0);
    lemma_run_steps_concat(m0, seq![rs], seq![rb], 0);
    lemma_run_one(m0, rs);
    let m1 = apply_op(m0, AssetOp::Release { asset: a, who: sender, amount: hold })->0;
    lemma_run_one(m1, rb);
    lemma_release_effect(m0, a, sender, hold);
    lemma_release_effect(m1, a, beneficiary, release_b);
    let m2 = apply_op(m1, AssetOp::Release { asset: a, who: beneficiary, amount: release_b })->0;
    assert(run_steps(m0, p1, 0) == Ok::<Map<u128, Balances>, Error>(m2));
    lemma_fee_steps_effect(m2, sender, a, sl, is_dispute, keep);
    let m3 = run_steps(m2, fs, 0)->Ok_0;
    lemma_fee_steps_effect(m3, beneficiary, a, bl, is_dispute, keep);
}

/// The moves of a dispute between three different parties: the loser pays the resolver the
/// incentive, and the beneficiary pays the sender the percentage of the amount when the sender
/// won, or the rest of the amount after its share when it won.
#[verifier::spinoff_prover]
proof fn lemma_dispute_tail(
    m4: Map<u128, Balances>,
    sender: AccountId,
    beneficiary: AccountId,
    p: PaymentDetail,
    result: DisputeResult,
    resolver: AccountId,
    bm: u128,
    bo: u128,
)
    requires
        sender != beneficiary && sender != resolver && beneficiary != resolver,
        run_steps(m4, dispute_steps(sender, beneficiary, p, result, resolver, bm, bo), 0) is Ok,
    ensures
        ({
            let a = p.asset;
            let l = run_steps(m4, dispute_steps(sender, beneficiary, p, result, resolver, bm, bo), 0)->Ok_0;
            let share = percent_of(result.percent_beneficiary, p.amount) as int;
            &&& free_of(l, a, resolver) == free_of(m4, a, resolver) + p.incentive_amount
            &&& held_of(l, a, resolver) == held_of(m4, a, resolver)
            &&& held_of(l, a, sender) == held_of(m4, a, sender)
            &&& held_of(l, a, beneficiary) == held_of(m4, a, beneficiary)
            &&& result.in_favor_of == Role::Sender ==> {
                &&& free_of(l, a, sender) == free_of(m4, a, sender) + share
                &&& free_of(l, a, beneficiary) == free_of(m4, a, beneficiary) - p.incentive_amount - share
            }
            &&& result.in_favor_of == Role::Beneficiary ==> {
                &&& free_of(l, a, sender) == free_of(m4, a, sender) - p.incentive_amount + (p.amount - share)
                &&& free_of(l, a, beneficiary) == free_of(m4, a, beneficiary) - (p.amount - share)
            }
        }),
{
    let a = p.asset;
    let tail = dispute_steps(sender, beneficiary, p, result, resolver, bm, bo);
    let share = percent_of(result.percent_beneficiary, p.amount);
    lemma_percent_of_bounded(result.percent_beneficiary, p.amount);
    let t0 = tail[0];
    let t1 = tail[1];
    let rest = tail.subrange(2, tail.len() as int);
    assert(tail =~= seq![t0] + (seq![t1] + rest));
    lemma_run_steps_concat(m4, seq![t0], seq![t1] + rest, 0);
    lemma_run_one(m4, t0);
    match result.in_favor_of {
        Role::Sender => {
            lemma_transfer_effect(m4, a, beneficiary, resolver, p.incentive_amount, 0);
            let m5 = apply_op(m4, AssetOp::Transfer { asset: a, from: beneficiary, to: resolver, amount: p.incentive_amount, keep: 0 })->0;
            assert(seq![t1] + rest =~= seq![t1]);
            lemma_run_one(m5, t1);
            lemma_transfer_effect(m5, a, beneficiary, sender, share, 0);
        },
        Role::Beneficiary => {
            lemma_transfer_effect(m4, a, sender, resolver, p.incentive_amount, 0);
            let m5 = apply_op(m4, AssetOp::Transfer { asset: a, from: sender, to: resolver, amount: p.incentive_amount, keep: 0 })->0;
            lemma_run_steps_concat(m5, seq![t1], rest, 0);
            lemma_run_one(m5, t1);
            lemma_transfer_effect(m5, a, beneficiary, sender, (p.amount - share) as u128, 0);
            let m6 = apply_op(m5, AssetOp::Transfer { asset: a, from: beneficiary, to: sender, amount: (p.amount - share) as u128, keep: 0 })->0;
            reveal_with_fuel(run_steps, 4);
            assert(run_steps(m6, rest, 0) == Ok::<Map<u128, Balances>, Error>(m6));
        },
    }
}

/// Resolving a dispute settles the payment between three different parties (none of them a
/// recipient of the fees): each party's hold is released (the sender's fees and incentive, the
/// beneficiary's amount and incentive) and each pays its mandatory fees; the losing party
/// pays the resolver the incentive, and the beneficiary pays the sender the rest of the amount
/// after its share when it won, or the percentage of the amount when the sender won.
#[verifier::spinoff_prover]
#[verifier::rlimit(80)]
pub proof fn lemma_resolve_dispute_moves(v: PaymentsView, resolver: AccountId, id: PaymentId, result: DisputeResult)
    requires
        resolve_dispute_spec(v, resolver, id, result) is Ok,
        v.parties.contains_key(id),
        ({
            let (sender, beneficiary) = v.parties[id];
            &&& sender != beneficiary && sender != resolver && beneficiary != resolver
            &&& lookup(v, sender, id) matches Some(p) && {
                let sf = p.fees.sender_pays@;
                let bf = p.fees.beneficiary_pays@;
                &&& !pays_to(sf, sender) && !pays_to(sf, beneficiary) && !pays_to(sf, resolver)
                &&& !pays_to(bf, sender) && !pays_to(bf, beneficiary) && !pays_to(bf, resolver)
            }
        }),
    ensures
        ({
            let (sender, beneficiary) = v.parties[id];
            let p = lookup(v, sender, id)->0;
            let a = p.asset;
            let l0 = v.ledger;
            let l = resolve_dispute_spec(v, resolver, id, result)->Ok_0.0.ledger;
            let sm = fee_totals(p.fees.sender_pays@).0;
            let so = fee_totals(p.fees.sender_pays@).1;
            let bm = fee_totals(p.fees.beneficiary_pays@).0;
            let hold = sender_hold(p, sm as u128, so as u128);
            let share = percent_of(result.percent_beneficiary, p.amount);
            let w = resolve_dispute_spec(v, resolver, id, result)->Ok_0;
            &&& p.state == PaymentState::NeedsReview
            &&& w.1 == Event::PaymentDisputeResolved { payment_id: id }
            &&& lookup(w.0, sender, id) == Some(PaymentDetail { state: PaymentState::Finished, ..p })
            &&& w.0.parties == v.parties && w.0.scheduled == v.scheduled
            &&& sm <= u128::MAX && so <= u128::MAX
            &&& held_of(l, a, sender) == held_of(l0, a, sender) - hold
            &&& held_of(l, a, beneficiary) == held_of(l0, a, beneficiary) - sat_add_balance(p.amount, p.incentive_amount)
            &&& free_of(l, a, resolver) == free_of(l0, a, resolver) + p.incentive_amount
            &&& held_of(l, a, resolver) == held_of(l0, a, resolver)
            &&& result.in_favor_of == Role::Sender ==> {
                &&& free_of(l, a, sender) == free_of(l0, a, sender) + hold - sm + share
                &&& free_of(l, a, beneficiary) == free_of(l0, a, beneficiary) + sat_add_balance(p.amount, p.incentive_amount)
                    - bm - p.incentive_amount - share
            }
            &&& result.in_favor_of == Role::Beneficiary ==> {
                &&& free_of(l, a, sender) == free_of(l0, a, sender) + hold - sm - p.incentive_amount + (p.amount - share)
                &&& free_of(l, a, beneficiary) == free_of(l0, a, beneficiary) + sat_add_balance(p.amount, p.incentive_amount)
                    - bm - (p.amount - share)
            }
        }),
{
    let (sender, beneficiary) = v.parties[id];
    let p = lookup(v, sender, id)->0;
    let a = p.asset;
    let keep = min_balance_of(v, p.asset);
    let dispute = Some((result, resolver));
    let plan = settle_steps(sender, beneficiary, p, dispute, keep);
    assert(run_steps(v.ledger, plan, 0) is Ok);
    assert(fee_summary(p.fees.sender_pays@, true) is Some) by {
        reveal_with_fuel(run_steps, 2);
    }
    assert(fee_summary(p.fees.beneficiary_pays@, true) is Some) by {
        if fee_summary(p.fees.beneficiary_pays@, true) is None {
            let (_, sm0, so0) = fee_summary(p.fees.sender_pays@, true)->0;
            let rs = Step::Apply(
                AssetOp::Release { asset: p.asset, who: sender, amount: sender_hold(p, sm0, so0) },
                Error::ReleaseFailed,
            );
            assert(plan =~= seq![rs] + seq![Step::Require(false, Error::Overflow)]);
            reveal_with_fuel(run_steps, 3);
        }
    }
    let (sl, sm, so) = fee_summary(p.fees.sender_pays@, true)->0;
    let (bl, bm, bo) = fee_summary(p.fees.beneficiary_pays@, true)->0;
    let hold = sender_hold(p, sm, so);
    let release_b = sat_add_balance(p.amount, p.incentive_amount);
    let rs = Step::Apply(AssetOp::Release { asset: a, who: sender, amount: hold }, Error::ReleaseFailed);
    let rb = Step::Apply(AssetOp::Release { asset: a, who: beneficiary, amount: release_b }, Error::ReleaseFailed);
    let head = ((seq![rs] + seq![rb]) + fee_steps(sender, a, sl, true, keep)) + fee_steps(beneficiary, a, bl, true, keep);
    let tail = dispute_steps(sender, beneficiary, p, result, resolver, bm, bo);
    assert(plan =~= head + tail);
    lemma_run_steps_concat(v.ledger, head, tail, 0);
    lemma_charged_pays_to(p.fees.sender_pays@, true);
    lemma_charged_pays_to(p.fees.beneficiary_pays@, true);
    lemma_settle_head(v.ledger, a, sender, beneficiary, hold, release_b, sl, bl, true, keep);
    let m4 = run_steps(v.ledger, head, 0)->Ok_0;
    lemma_dispute_tail(m4, sender, beneficiary, p, result, resolver, bm, bo);
    lemma_charged_total_filter(p.fees.sender_pays@, true);
    lemma_charged_total_filter(p.fees.beneficiary_pays@, true);
    lemma_charged_in_dispute_is_mandatory(p.fees.sender_pays@);
    lemma_charged_in_dispute_is_mandatory(p.fees.beneficiary_pays@);
}


/// The beneficiary checks leave the ledger as it is.
proof fn lemma_checks_keep_ledger(m: Map<u128, Balances>, p: PaymentDetail)
    requires
        run_steps(m, beneficiary_checks(p), 0) is Ok,
    ensures
        run_steps(m, beneficiary_checks(p), 0) == Ok::<Map<u128, Balances>, Error>(m),
{
    reveal_with_fuel(run_steps, 3);
}

/// Whether none of the fees of a payment go to `who`.
pub open spec fn gets_no_fee(p: PaymentDetail, who: AccountId) -> bool {
    !pays_to(p.fees.sender_pays@, who) && !pays_to(p.fees.beneficiary_pays@, who)
}

/// Releasing a payment between two different parties that get none of its fees gives the
/// sender back its hold (its fees and the incentive) less all its fees, and moves the amount
/// from the beneficiary's hold to its free balance, less all its fees; an account that is
/// neither party and gets no fee keeps its balances.
#[verifier::spinoff_prover]
pub proof fn lemma_release_moves(v: PaymentsView, sender: AccountId, id: PaymentId)
    requires
        release_spec(v, sender, id) is Ok,
        lookup(v, sender, id) matches Some(p) && sender != p.beneficiary && gets_no_fee(p, sender) && gets_no_fee(
            p,
            p.beneficiary,
        ),
    ensures
        ({
            let p = lookup(v, sender, id)->0;
            let b = p.beneficiary;
            let a = p.asset;
            let l0 = v.ledger;
            let l = release_spec(v, sender, id)->Ok_0.0.ledger;
            let (sm, so) = fee_totals(p.fees.sender_pays@);
            let (bm, bo) = fee_totals(p.fees.beneficiary_pays@);
            let hold = sender_hold(p, sm as u128, so as u128);
            let w = release_spec(v, sender, id)->Ok_0;
            &&& p.state == PaymentState::Created
            &&& w.1 == Event::PaymentReleased { payment_id: id }
            &&& lookup(w.0, sender, id) == Some(PaymentDetail { state: PaymentState::Finished, ..p })
            &&& w.0.parties == v.parties && w.0.scheduled == v.scheduled
            &&& free_of(l, a, sender) == free_of(l0, a, sender) + hold - (sm + so)
            &&& held_of(l, a, sender) == held_of(l0, a, sender) - hold
            &&& free_of(l, a, b) == free_of(l0, a, b) + p.amount - (bm + bo)
            &&& held_of(l, a, b) == held_of(l0, a, b) - p.amount
            &&& forall|w: AccountId| w != sender && w != b && gets_no_fee(p, w) ==> #[trigger] balances_of(l, a, w)
                == balances_of(l0, a, w)
        }),
{
    let p = lookup(v, sender, id)->0;
    let b = p.beneficiary;
    let a = p.asset;
    let keep = min_balance_of(v, a);
    let settle = settle_steps(sender, b, p, None, keep);
    lemma_run_steps_concat(v.ledger, settle, beneficiary_checks(p), 0);
    assert(fee_summary(p.fees.sender_pays@, false) is Some) by {
        reveal_with_fuel(run_steps, 2);
    }
    assert(fee_summary(p.fees.beneficiary_pays@, false) is Some) by {
        if fee_summary(p.fees.beneficiary_pays@, false) is None {
            let (_, sm0, so0) = fee_summary(p.fees.sender_pays@, false)->0;
            let rs = Step::Apply(
                AssetOp::Release { asset: a, who: sender, amount: sender_hold(p, sm0, so0) },
                Error::ReleaseFailed,
            );
            assert(settle =~= seq![rs] + seq![Step::Require(false, Error::Overflow)]);
            reveal_with_fuel(run_steps, 3);
        }
    }
    let (sl, sm, so) = fee_summary(p.fees.sender_pays@, false)->0;
    let (bl, bm, bo) = fee_summary(p.fees.beneficiary_pays@, false)->0;
    let hold = sender_hold(p, sm, so);
    let rs = Step::Apply(AssetOp::Release { asset: a, who: sender, amount: hold }, Error::ReleaseFailed);
    let rb = Step::Apply(AssetOp::Release { asset: a, who: b, amount: p.amount }, Error::ReleaseFailed);
    assert(settle =~= ((seq![rs] + seq![rb]) + fee_steps(sender, a, sl, false, keep)) + fee_steps(b, a, bl, false, keep));
    lemma_charged_pays_to(p.fees.sender_pays@, false);
    lemma_charged_pays_to(p.fees.beneficiary_pays@, false);
    lemma_settle_head(v.ledger, a, sender, b, hold, p.amount, sl, bl, false, keep);
    let m4 = run_steps(v.ledger, settle, 0)->Ok_0;
    lemma_checks_keep_ledger(m4, p);
    lemma_charged_total_filter(p.fees.sender_pays@, false);
    lemma_charged_total_filter(p.fees.beneficiary_pays@, false);
    lemma_charged_outside_dispute_is_all(p.fees.sender_pays@);
    lemma_charged_outside_dispute_is_all(p.fees.beneficiary_pays@);
}

/// A sender paying a payment to a different beneficiary, when neither gets any of its fees:
/// the sender's free balance loses all its fees and the amount, the beneficiary's gains the
/// amount less all its fees, and nothing held changes.
#[verifier::spinoff_prover]
pub proof fn lemma_accept_and_pay_moves(v: PaymentsView, sender: AccountId, id: PaymentId)
    requires
        accept_and_pay_spec(v, sender, id) is Ok,
        v.parties.contains_key(id),
        lookup(v, sender, id) matches Some(p) && sender != v.parties[id].1 && gets_no_fee(p, sender) && gets_no_fee(
            p,
            v.parties[id].1,
        ),
    ensures
        ({
            let p = lookup(v, sender, id)->0;
            let b = v.parties[id].1;
            let a = p.asset;
            let l0 = v.ledger;
            let l = accept_and_pay_spec(v, sender, id)->Ok_0.0.ledger;
            let (sm, so) = fee_totals(p.fees.sender_pays@);
            let (bm, bo) = fee_totals(p.fees.beneficiary_pays@);
            &&& free_of(l, a, sender) == free_of(l0, a, sender) - (sm + so) - p.amount
            &&& held_of(l, a, sender) == held_of(l0, a, sender)
            &&& free_of(l, a, b) == free_of(l0, a, b) + p.amount - (bm + bo)
            &&& held_of(l, a, b) == held_of(l0, a, b)
        }),
{
    let p = lookup(v, sender, id)->0;
    let b = v.parties[id].1;
    let a = p.asset;
    let keep = min_balance_of(v, a);
    let (sl, _, _) = fee_summary(p.fees.sender_pays@, false)->0;
    let (bl, _, _) = fee_summary(p.fees.beneficiary_pays@, false)->0;
    let fs = fee_steps(sender, a, sl, false, keep);
    let t = Step::Apply(
        AssetOp::Transfer { asset: a, from: sender, to: b, amount: p.amount, keep: 0 },
        Error::TransferFailed,
    );
    let fb = fee_steps(b, a, bl, false, keep);
    let steps = fs + seq![t] + fb + beneficiary_checks(p);
    lemma_run_steps_concat(v.ledger, fs + seq![t] + fb, beneficiary_checks(p), 0);
    lemma_run_steps_concat(v.ledger, fs + seq![t], fb, 0);
    lemma_run_steps_concat(v.ledger, fs, seq![t], 0);
    lemma_charged_pays_to(p.fees.sender_pays@, false);
    lemma_charged_pays_to(p.fees.beneficiary_pays@, false);
    lemma_fee_steps_effect(v.ledger, sender, a, sl, false, keep);
    let m1 = run_steps(v.ledger, fs, 0)->Ok_0;
    lemma_run_one(m1, t);
    lemma_transfer_effect(m1, a, sender, b, p.amount, 0);
    let m2 = apply_op(m1, AssetOp::Transfer { asset: a, from: sender, to: b, amount: p.amount, keep: 0 })->0;
    lemma_fee_steps_effect(m2, b, a, bl, false, keep);
    let m3 = run_steps(m2, fb, 0)->Ok_0;
    lemma_checks_keep_ledger(m3, p);
    lemma_charged_total_filter(p.fees.sender_pays@, false);
    lemma_charged_total_filter(p.fees.beneficiary_pays@, false);
    lemma_charged_outside_dispute_is_all(p.fees.sender_pays@);
    lemma_charged_outside_dispute_is_all(p.fees.beneficiary_pays@);
}

/// Making a payment between two different parties holds, on the sender, its fees and the
/// incentive (the configured percentage of the amount), and moves the amount from the sender's
/// free balance to the beneficiary's held balance.
#[verifier::spinoff_prover]
pub proof fn lemma_create_moves(
    v: PaymentsView,
    sender: AccountId,
    asset: AssetId,
    amount: Balance,
    beneficiary: AccountId,
    generated: Option<PaymentId>,
    fees: Fees,
)
    requires
        create_spec(v, sender, asset, amount, beneficiary, generated, fees) is Ok,
        sender != beneficiary,
    ensures
        ({
            let l0 = v.ledger;
            let l = create_spec(v, sender, asset, amount, beneficiary, generated, fees)->Ok_0.0.ledger;
            let (sm, so) = fee_totals(fees.sender_pays@);
            let incentive = percent_of(v.config.incentive_percentage, amount);
            let hold = sat_add_balance(sat_add_balance(sm as u128, incentive), so as u128);
            &&& sm <= u128::MAX && so <= u128::MAX
            &&& free_of(l, asset, sender) == free_of(l0, asset, sender) - hold - amount
            &&& held_of(l, asset, sender) == held_of(l0, asset, sender) + hold
            &&& free_of(l, asset, beneficiary) == free_of(l0, asset, beneficiary)
            &&& held_of(l, asset, beneficiary) == held_of(l0, asset, beneficiary) + amount
            &&& forall|w: AccountId| w != sender && w != beneficiary ==> #[trigger] balances_of(l, asset, w)
                == balances_of(l0, asset, w)
        }),
{
    let p = new_payment(v, sender, beneficiary, asset, amount, PaymentState::Created, generated, fees)->Ok_0.1;
    let keep = min_balance_of(v, asset);
    let reserve = reserve_steps(sender, p, keep);
    lemma_run_steps_concat(v.ledger, reserve, beneficiary_checks(p), 0);
    assert(fee_summary(p.fees.sender_pays@, false) is Some) by {
        reveal_with_fuel(run_steps, 2);
    }
    let (_, sm, so) = fee_summary(p.fees.sender_pays@, false)->0;
    let hold = sender_hold(p, sm, so);
    let h = Step::Apply(AssetOp::Hold { asset, who: sender, amount: hold }, Error::FundsUnavailable);
    let t = Step::Apply(
        AssetOp::TransferAndHold { asset, from: sender, to: beneficiary, amount, keep },
        Error::FundsUnavailable,
    );
    assert(reserve =~= seq![h] + seq![t]);
    lemma_run_steps_concat(v.ledger, seq![h], seq![t], 0);
    lemma_run_one(v.ledger, h);
    let m1 = apply_op(v.ledger, AssetOp::Hold { asset, who: sender, amount: hold })->0;
    lemma_run_one(m1, t);
    let m2 = apply_op(m1, AssetOp::TransferAndHold { asset, from: sender, to: beneficiary, amount, keep })->0;
    lemma_checks_keep_ledger(m2, p);
    let ks = ledger_key(asset, sender);
    let kb = ledger_key(asset, beneficiary);
    assert(ks != kb) by {
        if ks == kb {
            lemma_ledger_key_injective(asset, sender, asset, beneficiary);
        }
    }
    assert forall|w: AccountId| w != sender && w != beneficiary implies #[trigger] balances_of(m2, asset, w)
        == balances_of(v.ledger, asset, w) by {
        let k = ledger_key(asset, w);
        if k == ks {
            lemma_ledger_key_injective(asset, w, asset, sender);
        }
        if k == kb {
            lemma_ledger_key_injective(asset, w, asset, beneficiary);
        }
    }
}

} // verus!
