//! Per-device call filters, following the principle of least privilege.
//!
//! A device can only create devices or session keys whose filter is a subset of its own
//! ([`DeviceFilter::is_superset_of`]): `Admin` can delegate to anything; `Pallets(S)` to
//! `Pallets(S' ⊆ S)` or to `Calls` within `S`; `Calls(S)` to `Calls(S' ⊆ S)`; `Spend` to
//! `Spend` with lower or equal per-asset limits. `Pallets` and `Calls` cannot delegate to
//! `Spend`.

use vstd::prelude::*;

verus! {

pub type AssetId = u32;

pub type Balance = u128;

/// A single asset spend limit.
#[derive(Clone, Copy, Debug, PartialEq, Eq)]
pub struct AssetSpendLimit {
    pub asset: AssetId,
    pub max_amount: Balance,
}

/// What a device is authorized to do.
#[derive(Clone, Debug, PartialEq, Eq)]
pub enum DeviceFilter {
    /// Unrestricted access. Reserved for the first/admin/recovery device.
    Admin,
    /// Can call anything in the listed pallets (by pallet index).
    Pallets(Vec<u8>),
    /// Can call only the listed (pallet_index, call_index) pairs.
    Calls(Vec<(u8, u8)>),
    /// Spend-only: can transfer listed assets, each up to a per-tx limit.
    Spend(Vec<AssetSpendLimit>),
}

/// The abstract filter: its sets and limits as sequences.
pub enum FilterView {
    Admin,
    Pallets(Seq<u8>),
    Calls(Seq<(u8, u8)>),
    Spend(Seq<AssetSpendLimit>),
}

impl View for DeviceFilter {
    type V = FilterView;

    open spec fn view(&self) -> FilterView {
        match self {
            DeviceFilter::Admin => FilterView::Admin,
            DeviceFilter::Pallets(s) => FilterView::Pallets(s@),
            DeviceFilter::Calls(s) => FilterView::Calls(s@),
            DeviceFilter::Spend(s) => FilterView::Spend(s@),
        }
    }
}

/// Some limit of `a` covers `bl`: same asset, at least the same amount.
pub open spec fn covered(a: Seq<AssetSpendLimit>, bl: AssetSpendLimit) -> bool {
    exists|i: int| 0 <= i < a.len() && a[i].asset == bl.asset && a[i].max_amount >= bl.max_amount
}

/// Whether `a` is at least as permissive as `b`.
/// Every pallet of `y` is in `x`.
pub open spec fn pallets_within(x: Seq<u8>, y: Seq<u8>) -> bool {
    forall|i: int| 0 <= i < y.len() ==> x.contains(#[trigger] y[i])
}

/// The pallet of every call of `y` is in `x`.
pub open spec fn calls_within_pallets(x: Seq<u8>, y: Seq<(u8, u8)>) -> bool {
    forall|i: int| 0 <= i < y.len() ==> x.contains(#[trigger] y[i].0)
}

/// Every call of `y` is in `x`.
pub open spec fn calls_within(x: Seq<(u8, u8)>, y: Seq<(u8, u8)>) -> bool {
    forall|i: int| 0 <= i < y.len() ==> x.contains(#[trigger] y[i])
}

/// Every limit of `y` is covered by a limit of `x`.
pub open spec fn limits_within(x: Seq<AssetSpendLimit>, y: Seq<AssetSpendLimit>) -> bool {
    forall|i: int| 0 <= i < y.len() ==> covered(x, #[trigger] y[i])
}

/// Whether `a` is at least as permissive as `b`.
pub open spec fn superset_spec(a: FilterView, b: FilterView) -> bool {
    match a {
        FilterView::Admin => true,
        FilterView::Pallets(x) => match b {
            FilterView::Pallets(y) => pallets_within(x, y),
            FilterView::Calls(y) => calls_within_pallets(x, y),
            _ => false,
        },
        FilterView::Calls(x) => match b {
            FilterView::Calls(y) => calls_within(x, y),
            _ => false,
        },
        FilterView::Spend(x) => match b {
            FilterView::Spend(y) => limits_within(x, y),
            _ => false,
        },
    }
}

/// Some limit allows spending `amount` of `asset`.
pub open spec fn spend_allowed(limits: Seq<AssetSpendLimit>, asset: AssetId, amount: Balance) -> bool {
    exists|i: int| 0 <= i < limits.len() && limits[i].asset == asset && amount <= limits[i].max_amount
}

/// Whether the filter allows the call `(pallet_index, call_index)`, which spends
/// `spend_amount` when it is a spending call.
pub open spec fn allows_spec(f: FilterView, call_index: (u8, u8), spend_amount: Option<(AssetId, Balance)>) -> bool {
    match f {
        FilterView::Admin => true,
        FilterView::Pallets(s) => s.contains(call_index.0),
        FilterView::Calls(s) => s.contains(call_index),
        FilterView::Spend(limits) => match spend_amount {
            None => false,
            Some((asset, amount)) => spend_allowed(limits, asset, amount),
        },
    }
}

fn contains_u8(s: &Vec<u8>, x: u8) -> (r: bool)
    ensures
        r == s@.contains(x),
{
    let mut i: usize = 0;
    while i < s.len()
        invariant
            i <= s@.len(),
            forall|j: int| 0 <= j < i ==> s@[j] != x,
        decreases s@.len() - i,
    {
        if s[i] == x {
            return true;
        }
        i = i + 1;
    }
    false
}

fn contains_pair(s: &Vec<(u8, u8)>, x: (u8, u8)) -> (r: bool)
    ensures
        r == s@.contains(x),
{
    let mut i: usize = 0;
    while i < s.len()
        invariant
            i <= s@.len(),
            forall|j: int| 0 <= j < i ==> s@[j] != x,
        decreases s@.len() - i,
    {
        if s[i].0 == x.0 && s[i].1 == x.1 {
            return true;
        }
        i = i + 1;
    }
    false
}

fn covers(a: &Vec<AssetSpendLimit>, bl: AssetSpendLimit) -> (r: bool)
    ensures
        r == covered(a@, bl),
{
    let mut i: usize = 0;
    while i < a.len()
        invariant
            i <= a@.len(),
            forall|j: int| 0 <= j < i ==> !(a@[j].asset == bl.asset && a@[j].max_amount >= bl.max_amount),
        decreases a@.len() - i,
    {
        if a[i].asset == bl.asset && a[i].max_amount >= bl.max_amount {
            return true;
        }
        i = i + 1;
    }
    false
}

impl DeviceFilter {
    /// Whether `self` is at least as permissive as `other`: a device can only grant
    /// permissions it already has.
    #[verifier::loop_isolation(false)]
    pub fn is_superset_of(&self, other: &Self) -> (r: bool)
        ensures
            r == superset_spec(self@, other@),
    {
        match (self, other) {
            (DeviceFilter::Admin, _) => true,
            (_, DeviceFilter::Admin) => false,
            (DeviceFilter::Pallets(a), DeviceFilter::Pallets(b)) => {
                let mut i: usize = 0;
                while i < b.len()
                    invariant
                        i <= b@.len(),
                        forall|j: int| 0 <= j < i ==> a@.contains(#[trigger] b@[j]),
                    decreases b@.len() - i,
                {
                    if !contains_u8(a, b[i]) {
                        assert(!a@.contains(b@[i as int]));
                        assert(!pallets_within(a@, b@));
                        return false;
                    }
                    i = i + 1;
                }
                true
            },
            (DeviceFilter::Pallets(a), DeviceFilter::Calls(b)) => {
                let mut i: usize = 0;
                while i < b.len()
                    invariant
                        i <= b@.len(),
                        forall|j: int| 0 <= j < i ==> a@.contains(#[trigger] b@[j].0),
                    decreases b@.len() - i,
                {
                    if !contains_u8(a, b[i].0) {
                        return false;
                    }
                    i = i + 1;
                }
                true
            },
            (DeviceFilter::Calls(a), DeviceFilter::Calls(b)) => {
                let mut i: usize = 0;
                while i < b.len()
                    invariant
                        i <= b@.len(),
                        forall|j: int| 0 <= j < i ==> a@.contains(#[trigger] b@[j]),
                    decreases b@.len() - i,
                {
                    if !contains_pair(a, b[i]) {
                        assert(!a@.contains(b@[i as int]));
                        assert(!calls_within(a@, b@));
                        return false;
                    }
                    i = i + 1;
                }
                true
            },
            (DeviceFilter::Spend(a), DeviceFilter::Spend(b)) => {
                let mut i: usize = 0;
                while i < b.len()
                    invariant
                        i <= b@.len(),
                        forall|j: int| 0 <= j < i ==> covered(a@, #[trigger] b@[j]),
                    decreases b@.len() - i,
                {
                    if !covers(a, b[i]) {
                        return false;
                    }
                    i = i + 1;
                }
                true
            },
            _ => false,
        }
    }

    /// Whether the filter allows the call `(pallet_index, call_index)` (the first two bytes
    /// of the SCALE-encoded call); `spend_amount` is `Some((asset, amount))` for spending calls.
    #[verifier::loop_isolation(false)]
    pub fn allows(&self, call_index: (u8, u8), spend_amount: Option<(AssetId, Balance)>) -> (r: bool)
        ensures
            r == allows_spec(self@, call_index, spend_amount),
    {
        match self {
            DeviceFilter::Admin => true,
            DeviceFilter::Pallets(set) => contains_u8(set, call_index.0),
            DeviceFilter::Calls(set) => contains_pair(set, call_index),
            DeviceFilter::Spend(limits) => {
                let (asset, amount) = match spend_amount {
                    None => return false,
                    Some(x) => x,
                };
                let mut i: usize = 0;
                while i < limits.len()
                    invariant
                        i <= limits@.len(),
                        forall|j: int| 0 <= j < i ==> !(limits@[j].asset == asset && amount <= limits@[j].max_amount),
                    decreases limits@.len() - i,
                {
                    if limits[i].asset == asset && amount <= limits[i].max_amount {
                        assert(limits@[i as int].asset == asset && amount <= limits@[i as int].max_amount);
                        assert(spend_allowed(limits@, asset, amount));
                        return true;
                    }
                    i = i + 1;
                }
                false
            },
        }
    }
}

/// Every filter is a superset of itself.
pub proof fn lemma_superset_reflexive(f: FilterView)
    ensures
        superset_spec(f, f),
{
    match f {
        FilterView::Spend(x) => {
            assert forall|i: int| 0 <= i < x.len() implies covered(x, #[trigger] x[i]) by {
                assert(x[i].asset == x[i].asset && x[i].max_amount >= x[i].max_amount);
            }
        },
        _ => {},
    }
}

/// Delegation composes: a superset of a superset is a superset.
pub proof fn lemma_superset_transitive(a: FilterView, b: FilterView, c: FilterView)
    requires
        superset_spec(a, b),
        superset_spec(b, c),
    ensures
        superset_spec(a, c),
{
    match (a, b, c) {
        (FilterView::Pallets(x), FilterView::Pallets(y), FilterView::Pallets(z)) => {
            assert forall|i: int| 0 <= i < z.len() implies x.contains(#[trigger] z[i]) by {
                let j = choose|j: int| 0 <= j < y.len() && y[j] == z[i];
                assert(x.contains(y[j]));
            }
        },
        (FilterView::Pallets(x), FilterView::Pallets(y), FilterView::Calls(z)) => {
            assert forall|i: int| 0 <= i < z.len() implies x.contains(#[trigger] z[i].0) by {
                let j = choose|j: int| 0 <= j < y.len() && y[j] == z[i].0;
                assert(x.contains(y[j]));
            }
        },
        (FilterView::Pallets(x), FilterView::Calls(y), FilterView::Calls(z)) => {
            assert forall|i: int| 0 <= i < z.len() implies x.contains(#[trigger] z[i].0) by {
                let j = choose|j: int| 0 <= j < y.len() && y[j] == z[i];
                assert(x.contains(y[j].0));
            }
        },
        (FilterView::Calls(x), FilterView::Calls(y), FilterView::Calls(z)) => {
            assert forall|i: int| 0 <= i < z.len() implies x.contains(#[trigger] z[i]) by {
                let j = choose|j: int| 0 <= j < y.len() && y[j] == z[i];
                assert(x.contains(y[j]));
            }
        },
        (FilterView::Spend(x), FilterView::Spend(y), FilterView::Spend(z)) => {
            assert forall|i: int| 0 <= i < z.len() implies covered(x, #[trigger] z[i]) by {
                assert(covered(y, z[i]));
                let j = choose|j: int|
                    0 <= j < y.len() && y[j].asset == z[i].asset && y[j].max_amount >= z[i].max_amount;
                assert(covered(x, y[j]));
                let k = choose|k: int|
                    0 <= k < x.len() && x[k].asset == y[j].asset && x[k].max_amount >= y[j].max_amount;
                assert(x[k].asset == z[i].asset && x[k].max_amount >= z[i].max_amount);
            }
        },
        _ => {},
    }
}

/// No escalation: whatever a delegated filter allows, the delegating filter allows too.
pub proof fn lemma_superset_allows(
    a: FilterView,
    b: FilterView,
    call_index: (u8, u8),
    spend_amount: Option<(AssetId, Balance)>,
)
    requires
        superset_spec(a, b),
        allows_spec(b, call_index, spend_amount),
    ensures
        allows_spec(a, call_index, spend_amount),
{
    match (a, b) {
        (FilterView::Pallets(x), FilterView::Pallets(y)) => {
            let j = choose|j: int| 0 <= j < y.len() && y[j] == call_index.0;
            assert(x.contains(y[j]));
        },
        (FilterView::Pallets(x), FilterView::Calls(y)) => {
            let j = choose|j: int| 0 <= j < y.len() && y[j] == call_index;
            assert(x.contains(y[j].0));
        },
        (FilterView::Calls(x), FilterView::Calls(y)) => {
            let j = choose|j: int| 0 <= j < y.len() && y[j] == call_index;
            assert(x.contains(y[j]));
        },
        (FilterView::Spend(x), FilterView::Spend(y)) => {
            let (asset, amount) = spend_amount.unwrap();
            let j = choose|j: int|
                0 <= j < y.len() && y[j].asset == asset && amount <= y[j].max_amount;
            assert(covered(x, y[j]));
            let k = choose|k: int|
                0 <= k < x.len() && x[k].asset == y[j].asset && x[k].max_amount >= y[j].max_amount;
            assert(x[k].asset == asset && amount <= x[k].max_amount);
        },
        _ => {},
    }
}

/// What each kind of filter lets through: a filter by pallet every call of its pallets and no
/// other, a filter by call exactly its calls, a spend filter only spending calls within one
/// of its limits, and the admin filter everything.
pub proof fn lemma_allows_by_kind(
    pallet: u8,
    call: u8,
    other: (u8, u8),
    limit: AssetSpendLimit,
    amount: Balance,
    spend: Option<(AssetId, Balance)>,
)
    ensures
        allows_spec(FilterView::Admin, other, spend),
        allows_spec(FilterView::Pallets(seq![pallet]), (pallet, call), spend),
        other.0 != pallet ==> !allows_spec(FilterView::Pallets(seq![pallet]), other, spend),
        allows_spec(FilterView::Calls(seq![(pallet, call)]), (pallet, call), spend),
        other != (pallet, call) ==> !allows_spec(FilterView::Calls(seq![(pallet, call)]), other, spend),
        !allows_spec(FilterView::Spend(seq![limit]), other, None),
        allows_spec(FilterView::Spend(seq![limit]), other, Some((limit.asset, amount))) <==> amount <= limit.max_amount,
        spend matches Some((asset, _)) && asset != limit.asset ==> !allows_spec(FilterView::Spend(seq![limit]), other, spend),
{
    assert(seq![pallet][0] == pallet);
    assert(seq![(pallet, call)][0] == (pallet, call));
    assert(seq![limit][0] == limit);
}

/// Between filters by pallet and by call (but for a filter by call over one by pallet, which
/// can never be delegated), a filter is a superset of another exactly when it allows every
/// call the other allows: `Pallets(S)` covers `Pallets(S')` when `S' ⊆ S` and `Calls(C)` when
/// the pallet of every call of `C` is in `S`; `Calls(C)` covers `Calls(C')` when `C' ⊆ C`.
pub proof fn lemma_superset_is_allowing_more(a: FilterView, b: FilterView)
    requires
        a is Pallets || a is Calls,
        b is Pallets || b is Calls,
        !(a is Calls && b is Pallets),
    ensures
        superset_spec(a, b) <==> forall|c: (u8, u8)| #[trigger] allows_spec(b, c, None) ==> allows_spec(a, c, None),
{
    if superset_spec(a, b) {
        assert forall|c: (u8, u8)| #[trigger] allows_spec(b, c, None) implies allows_spec(a, c, None) by {
            lemma_superset_allows(a, b, c, None);
        }
    }
    if forall|c: (u8, u8)| #[trigger] allows_spec(b, c, None) ==> allows_spec(a, c, None) {
        match (a, b) {
            (FilterView::Pallets(x), FilterView::Pallets(y)) => {
                assert forall|i: int| 0 <= i < y.len() implies x.contains(#[trigger] y[i]) by {
                    assert(y.contains(y[i]));
                    assert(allows_spec(b, (y[i], 0u8), None));
                }
            },
            (FilterView::Pallets(x), FilterView::Calls(y)) => {
                assert forall|i: int| 0 <= i < y.len() implies x.contains(#[trigger] y[i].0) by {
                    assert(y.contains(y[i]));
                    assert(allows_spec(b, y[i], None));
                }
            },
            (FilterView::Calls(x), FilterView::Calls(y)) => {
                assert forall|i: int| 0 <= i < y.len() implies x.contains(#[trigger] y[i]) by {
                    assert(y.contains(y[i]));
                    assert(allows_spec(b, y[i], None));
                }
            },
            _ => {},
        }
    }
}

/// The hierarchy of delegation: `Admin` can delegate to any filter and allows every call,
/// while `Pallets` and `Calls` filters can never delegate to a `Spend` filter, and only an
/// `Admin` filter can delegate to an `Admin` one.
pub proof fn lemma_delegation_hierarchy(
    f: FilterView,
    limits: Seq<AssetSpendLimit>,
    call_index: (u8, u8),
    spend_amount: Option<(AssetId, Balance)>,
)
    ensures
        superset_spec(FilterView::Admin, f),
        allows_spec(FilterView::Admin, call_index, spend_amount),
        !(f is Admin || f is Spend) ==> !superset_spec(f, FilterView::Spend(limits)),
        superset_spec(f, FilterView::Admin) ==> f is Admin,
{
}

/// Tells whether a call spends, and what: implemented by the runtime to support `Spend`
/// filters.
pub trait SpendMatcher<Call> {
    /// The asset and amount the call spends, if it is a spending operation.
    fn spending_amount(call: &Call) -> Option<(AssetId, Balance)>;
}

/// No call spends.
impl<C> SpendMatcher<C> for () {
    fn spending_amount(call: &C) -> (r: Option<(AssetId, Balance)>)
        ensures
            r is None,
    {
        None
    }
}

/// Identifies a call as its pallet index and call index.
pub trait CallMatcher<Call> {
    fn call_indices(call: &Call) -> (u8, u8);
}

/// The indices of an encoded call: its first two bytes, or zeros when it is shorter.
pub open spec fn encoded_call_indices(bytes: Seq<u8>) -> (u8, u8) {
    if bytes.len() >= 2 {
        (bytes[0], bytes[1])
    } else {
        (0, 0)
    }
}

/// Reads the indices from the first two bytes of the SCALE-encoded call, as FRAME encodes
/// calls.
pub struct ScaleCallMatcher;

impl CallMatcher<Vec<u8>> for ScaleCallMatcher {
    fn call_indices(call: &Vec<u8>) -> (r: (u8, u8))
        ensures
            r == encoded_call_indices(call@),
    {
        if call.len() >= 2 {
            (call[0], call[1])
        } else {
            (0, 0)
        }
    }
}

} // verus!
