//! Pitches: time-boxed economic authority over H3 cells, private by default.
//!
//! Pitch records are keyed by an increasing id and point at a raw H3 cell id or at an opaque
//! commitment. Only public-by-cell pitches (raw cells) are indexed by cell; every pitch is
//! scheduled for reaping a grace period after its window ends.

use std::collections::{HashMap, HashSet};
use vstd::prelude::*;

verus! {

broadcast use vstd::std_specs::hash::group_hash_axioms;

pub type PitchId = u64;

pub type AccountId = u64;

pub type BlockNumber = u64;

pub type CommunityId = u32;

/// A 256-bit hash.
pub type Hash = [u8; 32];

#[derive(Clone, Copy, Debug, PartialEq, Eq)]
pub enum Disclosure {
    Public,
    Unlisted,
    Gated,
    Sealed,
}

#[derive(Clone, Copy, Debug, PartialEq, Eq)]
pub enum CellRef {
    Raw(u64),
    Commitment(Hash),
}

#[derive(Clone, Copy, Debug, PartialEq, Eq)]
pub enum SettlementPolicy {
    Holder,
    Licensor,
    Members,
    Community(CommunityId),
}

#[derive(Clone, Copy, Debug, PartialEq, Eq)]
pub enum DisclosureScope {
    Location,
    Membership,
    Activity,
    All,
}

/// A pitch record. `local_tax` is held as parts per million.
#[derive(Clone, Debug, PartialEq, Eq)]
pub struct Pitch {
    pub disclosure: Disclosure,
    pub cell: CellRef,
    pub resolution: Option<u8>,
    pub start: BlockNumber,
    pub end: BlockNumber,
    pub holder: AccountId,
    pub licensor: Option<CommunityId>,
    pub local_tax: u32,
    pub membership_root: Option<Hash>,
    pub on_dissolve: SettlementPolicy,
    pub residue: Option<Vec<u8>>,
}

#[derive(Clone, Copy, Debug, PartialEq, Eq)]
pub enum Event {
    Claimed { pitch: PitchId, disclosure: Disclosure, holder: AccountId },
    Joined { pitch: PitchId, who: AccountId },
    Amended { pitch: PitchId },
    Dissolved { pitch: PitchId },
    DisclosureGranted { pitch: PitchId, to: AccountId, scope: DisclosureScope },
    Reaped { pitch: PitchId },
}

#[derive(Clone, Copy, Debug, PartialEq, Eq)]
pub enum Error {
    BadCellRef,
    BadResolution,
    BadWindow,
    ExpiryScheduleFull,
    IndexFull,
    NotHolder,
    NotLive,
    PitchMissing,
    ProofInvalid,
    WindowInPast,
    /// The pitch id counter overflowed (the runtime's `ArithmeticError::Overflow`).
    Overflow,
}

/// Checks a membership proof for an account against a membership root.
pub trait MembershipVerifier {
    /// Whether `proof` shows that `who` belongs to the set committed to by `root`.
    fn verify(who: &AccountId, root: &Hash, proof: &[u8]) -> bool;
}

/// Accepts no proof at all.
impl MembershipVerifier for () {
    fn verify(who: &AccountId, root: &Hash, proof: &[u8]) -> (r: bool)
        ensures
            !r,
    {
        false
    }
}

/// The constant parameters of the pallet.
#[derive(Clone, Copy, Debug, PartialEq, Eq)]
pub struct PitchConfig {
    pub pallet_id: [u8; 8],
    pub max_pitches_per_cell: u32,
    pub max_proof_len: u32,
    pub max_residue_len: u32,
    pub grace_period: BlockNumber,
}

/// The abstract state of the pitch pallet.
pub struct PitchView {
    pub config: PitchConfig,
    pub next_pitch_id: PitchId,
    pub pitches: Map<PitchId, Pitch>,
    /// The pitches indexed by raw cell (absent means none).
    pub by_cell: Map<u64, Seq<PitchId>>,
    /// The pitches to reap at each block (absent means none).
    pub expiring: Map<BlockNumber, Seq<PitchId>>,
    /// The accounts that joined each pitch (absent means none).
    pub joined: Map<PitchId, Set<AccountId>>,
    /// The disclosure grants of each pitch (absent means none).
    pub grants: Map<PitchId, Map<AccountId, DisclosureScope>>,
}

pub open spec fn seq_at<K>(m: Map<K, Seq<PitchId>>, k: K) -> Seq<PitchId> {
    if m.contains_key(k) {
        m[k]
    } else {
        Seq::empty()
    }
}

pub open spec fn sat_add_u64(a: u64, b: u64) -> u64 {
    if a + b > u64::MAX {
        u64::MAX
    } else {
        (a + b) as u64
    }
}

/// Whether the disclosure is compatible with how the cell is referenced.
pub open spec fn cell_matches_disclosure(cell: CellRef, disclosure: Disclosure) -> bool {
    match (disclosure, cell) {
        (Disclosure::Public, CellRef::Raw(_)) => true,
        (Disclosure::Unlisted, CellRef::Commitment(_)) => true,
        (Disclosure::Sealed, CellRef::Commitment(_)) => true,
        (Disclosure::Gated, _) => true,
        _ => false,
    }
}

/// Raw cells carry an H3 resolution up to 15; commitments carry none.
pub open spec fn resolution_matches(cell: CellRef, resolution: Option<u8>) -> bool {
    match (cell, resolution) {
        (CellRef::Raw(_), Some(r)) => r <= 15,
        (CellRef::Commitment(_), None) => true,
        _ => false,
    }
}

pub open spec fn is_live_spec(record: Pitch, now: BlockNumber) -> bool {
    record.start <= now && now < record.end
}

/// The position of the first occurrence of `x` in `s`, if any.
pub open spec fn first_index(s: Seq<PitchId>, x: PitchId) -> int {
    choose|i: int| 0 <= i < s.len() && s[i] == x && forall|j: int| 0 <= j < i ==> s[j] != x
}

/// `s` without the first occurrence of `x`.
pub open spec fn remove_first(s: Seq<PitchId>, x: PitchId) -> Seq<PitchId> {
    if s.contains(x) {
        s.remove(first_index(s, x))
    } else {
        s
    }
}

/// The state after removing `pitch` (whose record is `record`): it leaves the cell index,
/// and its record, joins and grants are cleared.
pub open spec fn remove_pitch_spec(v: PitchView, pitch: PitchId, record: Pitch) -> PitchView {
    PitchView {
        by_cell: match record.cell {
            CellRef::Raw(cell) => v.by_cell.insert(cell, remove_first(seq_at(v.by_cell, cell), pitch)),
            CellRef::Commitment(_) => v.by_cell,
        },
        pitches: v.pitches.remove(pitch),
        joined: v.joined.remove(pitch),
        grants: v.grants.remove(pitch),
        ..v
    }
}

/// The outcome of a claim by `holder` at block `now`.
pub open spec fn claim_spec(
    v: PitchView,
    holder: AccountId,
    record: Pitch,
    now: BlockNumber,
) -> Result<PitchView, Error> {
    let pitch = v.next_pitch_id;
    let expiry = sat_add_u64(record.end, v.config.grace_period);
    if !cell_matches_disclosure(record.cell, record.disclosure) {
        Err(Error::BadCellRef)
    } else if !resolution_matches(record.cell, record.resolution) {
        Err(Error::BadResolution)
    } else if record.start < now {
        Err(Error::WindowInPast)
    } else if record.start >= record.end {
        Err(Error::BadWindow)
    } else if pitch == u64::MAX {
        Err(Error::Overflow)
    } else if record.cell is Raw && seq_at(v.by_cell, record.cell->Raw_0).len()
        >= v.config.max_pitches_per_cell {
        Err(Error::IndexFull)
    } else if seq_at(v.expiring, expiry).len() >= v.config.max_pitches_per_cell {
        Err(Error::ExpiryScheduleFull)
    } else {
        Ok(
            PitchView {
                next_pitch_id: (pitch + 1) as u64,
                pitches: v.pitches.insert(pitch, record),
                by_cell: match record.cell {
                    CellRef::Raw(cell) => v.by_cell.insert(cell, seq_at(v.by_cell, cell).push(pitch)),
                    CellRef::Commitment(_) => v.by_cell,
                },
                expiring: v.expiring.insert(expiry, seq_at(v.expiring, expiry).push(pitch)),
                ..v
            },
        )
    }
}

proof fn lemma_remove_first_of_push(s: Seq<PitchId>, x: PitchId)
    requires
        !s.contains(x),
    ensures
        remove_first(s.push(x), x) == s,
{
    let t = s.push(x);
    assert(t[s.len() as int] == x);
    assert(t.contains(x));
    assert(forall|j: int| 0 <= j < s.len() ==> t[j] != x) by {
        assert forall|j: int| 0 <= j < s.len() implies t[j] != x by {
            assert(t[j] == s[j]);
            if s[j] == x {
                assert(s.contains(x));
            }
        }
    }
    let i = first_index(t, x);
    assert(0 <= i < t.len() && t[i] == x && forall|j: int| 0 <= j < i ==> t[j] != x);
    assert(i == s.len());
    assert(t.remove(i) =~= s);
}

/// Dissolving a pitch right after claiming it gives back the pitches, their cell index, joins
/// and grants as they were (its expiry stays scheduled until it is reaped, and ids are not
/// reused), when the new pitch's id was not in use.
pub proof fn lemma_dissolve_undoes_claim(v: PitchView, holder: AccountId, record: Pitch, now: BlockNumber)
    requires
        claim_spec(v, holder, record, now) is Ok,
        !v.pitches.contains_key(v.next_pitch_id),
        !v.joined.contains_key(v.next_pitch_id),
        !v.grants.contains_key(v.next_pitch_id),
        forall|c: u64| !(#[trigger] seq_at(v.by_cell, c)).contains(v.next_pitch_id),
    ensures
        ({
            let w = remove_pitch_spec(claim_spec(v, holder, record, now)->Ok_0, v.next_pitch_id, record);
            &&& w.pitches == v.pitches
            &&& w.joined == v.joined
            &&& w.grants == v.grants
            &&& forall|c: u64| #[trigger] seq_at(w.by_cell, c) == seq_at(v.by_cell, c)
            &&& w.next_pitch_id == v.next_pitch_id + 1
        }),
{
    let id = v.next_pitch_id;
    let u = claim_spec(v, holder, record, now)->Ok_0;
    let w = remove_pitch_spec(u, id, record);
    assert(w.pitches =~= v.pitches);
    assert(w.joined =~= v.joined);
    assert(w.grants =~= v.grants);
    match record.cell {
        CellRef::Raw(cell) => {
            lemma_remove_first_of_push(seq_at(v.by_cell, cell), id);
            assert forall|c: u64| #[trigger] seq_at(w.by_cell, c) == seq_at(v.by_cell, c) by {
                if c != cell {
                    assert(seq_at(w.by_cell, c) == seq_at(u.by_cell, c));
                }
            }
        },
        CellRef::Commitment(_) => {},
    }
}

/// The outcome of `who` joining `pitch` at block `now`, where `proof_ok` tells whether the
/// membership proof was accepted (it only matters when the pitch has a membership root).
pub open spec fn join_spec(
    v: PitchView,
    who: AccountId,
    pitch: PitchId,
    proof_ok: bool,
    now: BlockNumber,
) -> Result<PitchView, Error> {
    if !v.pitches.contains_key(pitch) {
        Err(Error::PitchMissing)
    } else if !is_live_spec(v.pitches[pitch], now) {
        Err(Error::NotLive)
    } else if v.pitches[pitch].membership_root is Some && !proof_ok {
        Err(Error::ProofInvalid)
    } else {
        Ok(
            PitchView {
                joined: v.joined.insert(
                    pitch,
                    (if v.joined.contains_key(pitch) {
                        v.joined[pitch]
                    } else {
                        Set::empty()
                    }).insert(who),
                ),
                ..v
            },
        )
    }
}

/// The state and result of `who` joining `pitch` at block `now`.
pub open spec fn join_outcome(
    v: PitchView,
    who: AccountId,
    pitch: PitchId,
    proof_ok: bool,
    now: BlockNumber,
) -> (PitchView, Result<Event, Error>) {
    match join_spec(v, who, pitch, proof_ok, now) {
        Ok(w) => (w, Ok(Event::Joined { pitch, who })),
        Err(e) => (v, Err(e)),
    }
}

/// The record after an amendment (the end is checked separately).
pub open spec fn amended(
    record: Pitch,
    local_tax: Option<u32>,
    membership_root: Option<Option<Hash>>,
    end: Option<BlockNumber>,
    residue: Option<Option<Vec<u8>>>,
) -> Pitch {
    Pitch {
        local_tax: match local_tax {
            Some(t) => t,
            None => record.local_tax,
        },
        membership_root: match membership_root {
            Some(r) => r,
            None => record.membership_root,
        },
        end: match end {
            Some(e) => e,
            None => record.end,
        },
        residue: match residue {
            Some(r) => r,
            None => record.residue,
        },
        ..record
    }
}

/// The outcome of `who` amending `pitch` at block `now`.
pub open spec fn amend_spec(
    v: PitchView,
    who: AccountId,
    pitch: PitchId,
    local_tax: Option<u32>,
    membership_root: Option<Option<Hash>>,
    end: Option<BlockNumber>,
    residue: Option<Option<Vec<u8>>>,
    now: BlockNumber,
) -> Result<PitchView, Error> {
    if !v.pitches.contains_key(pitch) {
        Err(Error::PitchMissing)
    } else if v.pitches[pitch].holder != who {
        Err(Error::NotHolder)
    } else if !is_live_spec(v.pitches[pitch], now) {
        Err(Error::NotLive)
    } else {
        let record = amended(v.pitches[pitch], local_tax, membership_root, end, residue);
        match end {
            Some(new_end) => {
                let expiry = sat_add_u64(new_end, v.config.grace_period);
                let ids = seq_at(v.expiring, expiry);
                if v.pitches[pitch].start >= new_end {
                    Err(Error::BadWindow)
                } else if !ids.contains(pitch) && ids.len() >= v.config.max_pitches_per_cell {
                    Err(Error::ExpiryScheduleFull)
                } else {
                    Ok(
                        PitchView {
                            pitches: v.pitches.insert(pitch, record),
                            expiring: if ids.contains(pitch) {
                                v.expiring
                            } else {
                                v.expiring.insert(expiry, ids.push(pitch))
                            },
                            ..v
                        },
                    )
                }
            },
            None => Ok(PitchView { pitches: v.pitches.insert(pitch, record), ..v }),
        }
    }
}

/// A successful amendment stores what it is given and keeps the rest: the pitch afterwards has
/// each given field (local tax, membership root, end, residue) as given and each other field as
/// it was; no other pitch, index, join or grant changes but the expiry schedule, which gains
/// the pitch at its new end.
pub proof fn lemma_amend_stores_what_is_given(
    v: PitchView,
    who: AccountId,
    pitch: PitchId,
    local_tax: Option<u32>,
    membership_root: Option<Option<Hash>>,
    end: Option<BlockNumber>,
    residue: Option<Option<Vec<u8>>>,
    now: BlockNumber,
)
    requires
        amend_spec(v, who, pitch, local_tax, membership_root, end, residue, now) is Ok,
    ensures
        ({
            let w = amend_spec(v, who, pitch, local_tax, membership_root, end, residue, now)->Ok_0;
            let before = v.pitches[pitch];
            let after = w.pitches[pitch];
            &&& v.pitches.contains_key(pitch) && w.pitches.contains_key(pitch)
            &&& before.holder == who
            &&& (local_tax matches Some(t) ==> after.local_tax == t)
            &&& (local_tax is None ==> after.local_tax == before.local_tax)
            &&& (membership_root matches Some(r) ==> after.membership_root == r)
            &&& (membership_root is None ==> after.membership_root == before.membership_root)
            &&& (end matches Some(e) ==> after.end == e && before.start < e)
            &&& (end is None ==> after.end == before.end)
            &&& (residue matches Some(r) ==> after.residue == r)
            &&& (residue is None ==> after.residue == before.residue)
            &&& after.holder == before.holder && after.cell == before.cell && after.start == before.start
            &&& after.disclosure == before.disclosure && after.resolution == before.resolution
            &&& after.licensor == before.licensor && after.on_dissolve == before.on_dissolve
            &&& forall|q: PitchId| q != pitch ==> (#[trigger] w.pitches.contains_key(q) == v.pitches.contains_key(q)
                && (v.pitches.contains_key(q) ==> w.pitches[q] == v.pitches[q]))
            &&& w.by_cell == v.by_cell && w.joined == v.joined && w.grants == v.grants
            &&& w.next_pitch_id == v.next_pitch_id && w.config == v.config
        }),
{
}

proof fn lemma_first_occurrence_exists(s: Seq<PitchId>, x: PitchId)
    requires
        s.contains(x),
    ensures
        exists|i: int| 0 <= i < s.len() && s[i] == x && forall|j: int| 0 <= j < i ==> s[j] != x,
    decreases s.len(),
{
    if s[0] == x {
        assert(0 <= 0 < s.len() && s[0] == x && forall|j: int| 0 <= j < 0 ==> s[j] != x);
    } else {
        let t = s.drop_first();
        let k = choose|k: int| 0 <= k < s.len() && s[k] == x;
        assert(t[k - 1] == x);
        lemma_first_occurrence_exists(t, x);
        let i = choose|i: int| 0 <= i < t.len() && t[i] == x && forall|j: int| 0 <= j < i ==> t[j] != x;
        assert forall|j: int| 0 <= j < i + 1 implies s[j] != x by {
            if j > 0 {
                assert(s[j] == t[j - 1]);
            }
        }
        assert(s[i + 1] == x);
    }
}

/// A successful claim records exactly the given pitch under the next id and counts ids on by
/// one; the pitch is listed last in the index of its raw cell (a committed cell is not
/// indexed) and in the expiry schedule at its end plus the grace period; no other pitch,
/// cell, join or grant changes.
pub proof fn lemma_claim_records(v: PitchView, holder: AccountId, record: Pitch, now: BlockNumber)
    requires
        claim_spec(v, holder, record, now) is Ok,
    ensures
        ({
            let w = claim_spec(v, holder, record, now)->Ok_0;
            let id = v.next_pitch_id;
            let expiry: int = if record.end + v.config.grace_period > u64::MAX {
                u64::MAX as int
            } else {
                record.end + v.config.grace_period
            };
            &&& now <= record.start < record.end
            &&& w.pitches.contains_key(id) && w.pitches[id] == record
            &&& w.next_pitch_id == id + 1
            &&& forall|q: PitchId| q != id ==> (#[trigger] w.pitches.contains_key(q) == v.pitches.contains_key(q)
                && (v.pitches.contains_key(q) ==> w.pitches[q] == v.pitches[q]))
            &&& forall|c: u64| #[trigger] seq_at(w.by_cell, c) == if record.cell == CellRef::Raw(c) {
                seq_at(v.by_cell, c).push(id)
            } else {
                seq_at(v.by_cell, c)
            }
            &&& seq_at(w.expiring, expiry as u64) == seq_at(v.expiring, expiry as u64).push(id)
            &&& forall|b: BlockNumber| b != expiry ==> #[trigger] seq_at(w.expiring, b) == seq_at(v.expiring, b)
            &&& w.joined == v.joined && w.grants == v.grants && w.config == v.config
        }),
{
}

/// The accounts that joined `pitch`.
pub open spec fn members(v: PitchView, pitch: PitchId) -> Set<AccountId> {
    if v.joined.contains_key(pitch) {
        v.joined[pitch]
    } else {
        Set::empty()
    }
}

/// Joining succeeds exactly on an existing pitch during its window, with an accepted proof
/// when the pitch has a membership root; then the account is a member of that pitch besides
/// the members it had, and nothing else changes.
pub proof fn lemma_join_adds_the_member(v: PitchView, who: AccountId, pitch: PitchId, proof_ok: bool, now: BlockNumber)
    ensures
        join_spec(v, who, pitch, proof_ok, now) is Ok <==> (v.pitches.contains_key(pitch) && v.pitches[pitch].start <= now
            < v.pitches[pitch].end && (v.pitches[pitch].membership_root is None || proof_ok)),
        join_spec(v, who, pitch, proof_ok, now) matches Ok(w) ==> {
            &&& members(w, pitch) == members(v, pitch).insert(who)
            &&& forall|q: PitchId| q != pitch ==> #[trigger] members(w, q) == members(v, q)
            &&& w.pitches == v.pitches && w.by_cell == v.by_cell && w.grants == v.grants
            &&& w.expiring == v.expiring && w.next_pitch_id == v.next_pitch_id
        },
{
}

/// Removing a pitch (dissolving or reaping it) forgets its record, joins and grants, takes
/// one listing of it out of its raw cell's index, and changes no other pitch and no other
/// cell's index.
pub proof fn lemma_remove_pitch_forgets_it(v: PitchView, pitch: PitchId)
    requires
        v.pitches.contains_key(pitch),
    ensures
        ({
            let record = v.pitches[pitch];
            let w = remove_pitch_spec(v, pitch, record);
            &&& !w.pitches.contains_key(pitch) && !w.joined.contains_key(pitch) && !w.grants.contains_key(pitch)
            &&& forall|q: PitchId| q != pitch ==> (#[trigger] w.pitches.contains_key(q) == v.pitches.contains_key(q)
                && (v.pitches.contains_key(q) ==> w.pitches[q] == v.pitches[q]))
            &&& forall|q: PitchId| q != pitch ==> #[trigger] members(w, q) == members(v, q)
            &&& forall|c: u64| record.cell != CellRef::Raw(c) ==> #[trigger] seq_at(w.by_cell, c) == seq_at(v.by_cell, c)
            &&& forall|c: u64, q: PitchId| q != pitch ==> (#[trigger] seq_at(w.by_cell, c).contains(q)
                == seq_at(v.by_cell, c).contains(q))
            &&& forall|c: u64| record.cell == CellRef::Raw(c) && seq_at(v.by_cell, c).contains(pitch)
                ==> #[trigger] seq_at(w.by_cell, c).len() == seq_at(v.by_cell, c).len() - 1
            &&& w.expiring == v.expiring && w.next_pitch_id == v.next_pitch_id
        }),
{
    let record = v.pitches[pitch];
    let w = remove_pitch_spec(v, pitch, record);
    assert forall|c: u64| record.cell == CellRef::Raw(c) && seq_at(v.by_cell, c).contains(pitch)
        implies #[trigger] seq_at(w.by_cell, c).len() == seq_at(v.by_cell, c).len() - 1 by {
        lemma_first_occurrence_exists(seq_at(v.by_cell, c), pitch);
    }
    assert forall|c: u64, q: PitchId| q != pitch implies (#[trigger] seq_at(w.by_cell, c).contains(q)
        == seq_at(v.by_cell, c).contains(q)) by {
        let s0 = seq_at(v.by_cell, c);
        if record.cell == CellRef::Raw(c) && s0.contains(pitch) {
            lemma_first_occurrence_exists(s0, pitch);
            let i = first_index(s0, pitch);
            let s1 = s0.remove(i);
            assert(s1 == seq_at(w.by_cell, c));
            if s0.contains(q) {
                let j = choose|j: int| 0 <= j < s0.len() && s0[j] == q;
                if j < i {
                    assert(s1[j] == q);
                } else {
                    assert(j != i);
                    assert(s1[j - 1] == q);
                }
            }
            if s1.contains(q) {
                let j = choose|j: int| 0 <= j < s1.len() && s1[j] == q;
                if j < i {
                    assert(s0[j] == q);
                } else {
                    assert(s0[j + 1] == q);
                }
            }
        }
    }
}

pub open spec fn after(v: PitchView, r: Result<PitchView, Error>) -> PitchView {
    match r {
        Ok(w) => w,
        Err(_) => v,
    }
}

/// Whether `s` holds `x`.
fn contains_pitch(s: &Vec<PitchId>, x: PitchId) -> (r: bool)
    ensures
        r == s@.contains(x),
{
    let mut i: usize = 0;
    while i < s.len()
        invariant
            i <= s@.len(),
            forall|j: int| 0 <= j < i ==> s@[j] != x,
        decreases s@.len() - i,
    {
        if s[i] == x {
            return true;
        }
        i = i + 1;
    }
    false
}

/// Removes the first occurrence of `x` from `s`, if any.
fn remove_first_exec(s: &mut Vec<PitchId>, x: PitchId)
    ensures
        final(s)@ == remove_first(old(s)@, x),
{
    let mut i: usize = 0;
    while i < s.len()
        invariant
            i <= s@.len(),
            s@ == old(s)@,
            forall|j: int| 0 <= j < i ==> s@[j] != x,
        decreases s@.len() - i,
    {
        if s[i] == x {
            proof {
                assert(s@.contains(x));
                let k = first_index(s@, x);
                assert(0 <= k < s@.len() && s@[k] == x && forall|j: int| 0 <= j < k ==> s@[j] != x);
                if k < i {
                } else if k > i {
                    assert(s@[i as int] != x);
                }
            }
            s.remove(i);
            return;
        }
        i = i + 1;
    }
}

/// The state of the pitch pallet.
pub struct Pallet {
    config: PitchConfig,
    next_pitch_id: PitchId,
    pitches: HashMap<PitchId, Pitch>,
    by_cell: HashMap<u64, Vec<PitchId>>,
    expiring: HashMap<BlockNumber, Vec<PitchId>>,
    joined: HashMap<PitchId, HashSet<AccountId>>,
    grants: HashMap<PitchId, HashMap<AccountId, DisclosureScope>>,
}

impl View for Pallet {
    type V = PitchView;

    closed spec fn view(&self) -> PitchView {
        PitchView {
            config: self.config,
            next_pitch_id: self.next_pitch_id,
            pitches: self.pitches@,
            by_cell: Map::new(|c: u64| self.by_cell@.contains_key(c), |c: u64| self.by_cell@[c]@),
            expiring: Map::new(
                |b: BlockNumber| self.expiring@.contains_key(b),
                |b: BlockNumber| self.expiring@[b]@,
            ),
            joined: Map::new(|p: PitchId| self.joined@.contains_key(p), |p: PitchId| self.joined@[p]@),
            grants: Map::new(|p: PitchId| self.grants@.contains_key(p), |p: PitchId| self.grants@[p]@),
        }
    }
}

/// The account of a pitch: the bytes `modl`, the pallet's id, the pitch's id (SCALE-encoded)
/// and the bytes `pitch`, padded with zeros to an account's 32 bytes.
pub open spec fn pitch_account_bytes(pallet_id: Seq<u8>, pitch: PitchId) -> Seq<u8> {
    seq![109u8, 111u8, 100u8, 108u8] + pallet_id + crate::scale::le_bytes_u64(pitch) + seq![
        112u8,
        105u8,
        116u8,
        99u8,
        104u8,
    ] + Seq::new(7, |i: int| 0u8)
}

impl Pallet {
    /// The account that holds what a pitch owns: a sub-account of the pallet for the pitch.
    pub fn pitch_account(&self, pitch: PitchId) -> (r: [u8; 32])
        ensures
            r@ == pitch_account_bytes(self@.config.pallet_id@, pitch),
    {
        let mut bytes: Vec<u8> = Vec::new();
        bytes.push(109u8);
        bytes.push(111u8);
        bytes.push(100u8);
        bytes.push(108u8);
        let mut i: usize = 0;
        while i < 8
            invariant
                0 <= i <= 8,
                self.config.pallet_id@.len() == 8,
                bytes@ == seq![109u8, 111u8, 100u8, 108u8] + self.config.pallet_id@.take(i as int),
            decreases 8 - i,
        {
            bytes.push(self.config.pallet_id[i]);
            i = i + 1;
            assert(bytes@ =~= seq![109u8, 111u8, 100u8, 108u8] + self.config.pallet_id@.take(i as int));
        }
        assert(self.config.pallet_id@.take(8) =~= self.config.pallet_id@);
        let encoded = crate::scale::encode_u64(pitch);
        let ghost prefix = bytes@;
        let mut j: usize = 0;
        while j < encoded.len()
            invariant
                0 <= j <= encoded@.len(),
                bytes@ == prefix + encoded@.take(j as int),
            decreases encoded@.len() - j,
        {
            bytes.push(encoded[j]);
            j = j + 1;
            assert(bytes@ =~= prefix + encoded@.take(j as int));
        }
        assert(encoded@.take(encoded@.len() as int) =~= encoded@);
        bytes.push(112u8);
        bytes.push(105u8);
        bytes.push(116u8);
        bytes.push(99u8);
        bytes.push(104u8);
        let ghost body = bytes@;
        assert(body =~= seq![109u8, 111u8, 100u8, 108u8] + self.config.pallet_id@ + crate::scale::le_bytes_u64(pitch)
            + seq![112u8, 105u8, 116u8, 99u8, 104u8]);
        assert(body.len() == 25);
        assert(pitch_account_bytes(self@.config.pallet_id@, pitch) =~= body + Seq::new(7, |i: int| 0u8));
        let mut out: [u8; 32] = [0u8; 32];
        let mut k: usize = 0;
        while k < 25
            invariant
                0 <= k <= 25,
                body.len() == 25,
                bytes@ == body,
                out@.len() == 32,
                forall|m: int| 0 <= m < k ==> out@[m] == body[m],
                forall|m: int| 25 <= m < 32 ==> out@[m] == 0u8,
            decreases 25 - k,
        {
            out[k] = bytes[k];
            k = k + 1;
        }
        assert(out@ =~= pitch_account_bytes(self@.config.pallet_id@, pitch));
        out
    }

    /// An empty pallet with the given parameters.
    pub fn new(config: PitchConfig) -> (r: Self)
        ensures
            r@.config == config,
            r@.next_pitch_id == 0,
            r@.pitches == Map::<PitchId, Pitch>::empty(),
            r@.by_cell == Map::<u64, Seq<PitchId>>::empty(),
            r@.expiring == Map::<BlockNumber, Seq<PitchId>>::empty(),
            r@.joined == Map::<PitchId, Set<AccountId>>::empty(),
            r@.grants == Map::<PitchId, Map<AccountId, DisclosureScope>>::empty(),
    {
        let r = Pallet {
            config,
            next_pitch_id: 0,
            pitches: HashMap::new(),
            by_cell: HashMap::new(),
            expiring: HashMap::new(),
            joined: HashMap::new(),
            grants: HashMap::new(),
        };
        assert(r@.by_cell =~= Map::<u64, Seq<PitchId>>::empty());
        assert(r@.expiring =~= Map::<BlockNumber, Seq<PitchId>>::empty());
        assert(r@.joined =~= Map::<PitchId, Set<AccountId>>::empty());
        assert(r@.grants =~= Map::<PitchId, Map<AccountId, DisclosureScope>>::empty());
        r
    }

    /// The record of `pitch`, if it exists.
    pub fn pitch(&self, pitch: PitchId) -> (r: Option<&Pitch>)
        ensures
            r == (if self@.pitches.contains_key(pitch) {
                Some(&self@.pitches[pitch])
            } else {
                None
            }),
    {
        self.pitches.get(&pitch)
    }

    /// The pitches indexed under raw cell `cell`.
    pub fn by_cell(&self, cell: u64) -> (r: Vec<PitchId>)
        ensures
            r@ == seq_at(self@.by_cell, cell),
    {
        match self.by_cell.get(&cell) {
            Some(ids) => ids.clone(),
            None => Vec::new(),
        }
    }

    /// The pitches scheduled for reaping at block `at`.
    pub fn expiring(&self, at: BlockNumber) -> (r: Vec<PitchId>)
        ensures
            r@ == seq_at(self@.expiring, at),
    {
        match self.expiring.get(&at) {
            Some(ids) => ids.clone(),
            None => Vec::new(),
        }
    }

    /// Whether `who` joined `pitch`.
    pub fn has_joined(&self, pitch: PitchId, who: AccountId) -> (r: bool)
        ensures
            r == (self@.joined.contains_key(pitch) && self@.joined[pitch].contains(who)),
    {
        match self.joined.get(&pitch) {
            Some(set) => set.contains(&who),
            None => false,
        }
    }

    /// The disclosure granted to `to` on `pitch`, if any.
    pub fn disclosure_grant(&self, pitch: PitchId, to: AccountId) -> (r: Option<DisclosureScope>)
        ensures
            r == (if self@.grants.contains_key(pitch) && self@.grants[pitch].contains_key(to) {
                Some(self@.grants[pitch][to])
            } else {
                None
            }),
    {
        match self.grants.get(&pitch) {
            Some(m) => match m.get(&to) {
                Some(s) => Some(*s),
                None => None,
            },
            None => None,
        }
    }

    /// The id the next claimed pitch gets.
    pub fn next_pitch_id(&self) -> (r: PitchId)
        ensures
            r == self@.next_pitch_id,
    {
        self.next_pitch_id
    }

    fn ensure_cell_matches_disclosure(cell: &CellRef, disclosure: Disclosure) -> (r: Result<(), Error>)
        ensures
            r == (if cell_matches_disclosure(*cell, disclosure) {
                Ok(())
            } else {
                Err(Error::BadCellRef)
            }),
    {
        match (disclosure, cell) {
            (Disclosure::Public, CellRef::Raw(_)) => Ok(()),
            (Disclosure::Unlisted, CellRef::Commitment(_)) => Ok(()),
            (Disclosure::Sealed, CellRef::Commitment(_)) => Ok(()),
            (Disclosure::Gated, _) => Ok(()),
            _ => Err(Error::BadCellRef),
        }
    }

    fn ensure_resolution(cell: &CellRef, resolution: Option<u8>) -> (r: Result<(), Error>)
        ensures
            r == (if resolution_matches(*cell, resolution) {
                Ok(())
            } else {
                Err(Error::BadResolution)
            }),
    {
        match (cell, resolution) {
            (CellRef::Raw(_), Some(r)) => {
                if r <= 15 {
                    Ok(())
                } else {
                    Err(Error::BadResolution)
                }
            },
            (CellRef::Commitment(_), None) => Ok(()),
            _ => Err(Error::BadResolution),
        }
    }

    fn ensure_window(start: BlockNumber, end: BlockNumber, now: BlockNumber) -> (r: Result<(), Error>)
        ensures
            r == (if start < now {
                Err(Error::WindowInPast)
            } else if start >= end {
                Err(Error::BadWindow)
            } else {
                Ok(())
            }),
    {
        if start < now {
            return Err(Error::WindowInPast);
        }
        if start >= end {
            return Err(Error::BadWindow);
        }
        Ok(())
    }

    /// Whether the pitch's window contains block `now`.
    pub fn is_live(record: &Pitch, now: BlockNumber) -> (r: bool)
        ensures
            r == is_live_spec(*record, now),
    {
        record.start <= now && now < record.end
    }

    fn index_len(m: &HashMap<u64, Vec<PitchId>>, k: u64) -> (r: usize)
        ensures
            r == (if m@.contains_key(k) {
                m@[k]@.len()
            } else {
                0
            }),
    {
        match m.get(&k) {
            Some(ids) => ids.len(),
            None => 0,
        }
    }

    fn index_push(m: &mut HashMap<u64, Vec<PitchId>>, k: u64, x: PitchId)
        ensures
            final(m)@.dom() == old(m)@.dom().insert(k),
            final(m)@[k]@ == (if old(m)@.contains_key(k) {
                old(m)@[k]@
            } else {
                Seq::<PitchId>::empty()
            }).push(x),
            forall|j: u64| j != k && #[trigger] old(m)@.contains_key(j) ==> final(m)@[j] == old(m)@[j],
    {
        let mut ids = match m.remove(&k) {
            Some(ids) => ids,
            None => Vec::new(),
        };
        ids.push(x);
        m.insert(k, ids);
    }

    /// Claims a pitch for `holder` at block `now`: the record gets the next pitch id, is
    /// indexed by cell when the cell is raw, and is scheduled for reaping a grace period
    /// after its window ends.
    pub fn claim(
        &mut self,
        holder: AccountId,
        cell: CellRef,
        resolution: Option<u8>,
        start: BlockNumber,
        end: BlockNumber,
        disclosure: Disclosure,
        local_tax: u32,
        membership_root: Option<Hash>,
        on_dissolve: SettlementPolicy,
        licensor: Option<CommunityId>,
        residue: Option<Vec<u8>>,
        now: BlockNumber,
    ) -> (r: Result<Event, Error>)
        requires
            residue matches Some(bytes) ==> bytes@.len() <= old(self)@.config.max_residue_len,
        ensures
            ({
                let record = Pitch {
                    disclosure,
                    cell,
                    resolution,
                    start,
                    end,
                    holder,
                    licensor,
                    local_tax,
                    membership_root,
                    on_dissolve,
                    residue,
                };
                let res = claim_spec(old(self)@, holder, record, now);
                &&& final(self)@ == after(old(self)@, res)
                &&& r == (match res {
                    Ok(_) => Ok(Event::Claimed { pitch: old(self)@.next_pitch_id, disclosure, holder }),
                    Err(e) => Err(e),
                })
            }),
    {
        Self::ensure_cell_matches_disclosure(&cell, disclosure)?;
        Self::ensure_resolution(&cell, resolution)?;
        Self::ensure_window(start, end, now)?;
        let pitch = self.next_pitch_id;
        if pitch == u64::MAX {
            return Err(Error::Overflow);
        }
        if let CellRef::Raw(c) = cell {
            if Self::index_len(&self.by_cell, c) as u64 >= self.config.max_pitches_per_cell as u64 {
                return Err(Error::IndexFull);
            }
        }
        let expiry = end.saturating_add(self.config.grace_period);
        if Self::index_len(&self.expiring, expiry) as u64 >= self.config.max_pitches_per_cell as u64 {
            return Err(Error::ExpiryScheduleFull);
        }
        let ghost v = self@;
        let record = Pitch {
            disclosure,
            cell,
            resolution,
            start,
            end,
            holder,
            licensor,
            local_tax,
            membership_root,
            on_dissolve,
            residue,
        };
        self.pitches.insert(pitch, record);
        self.next_pitch_id = pitch + 1;
        if let CellRef::Raw(c) = cell {
            Self::index_push(&mut self.by_cell, c, pitch);
        }
        Self::index_push(&mut self.expiring, expiry, pitch);
        proof {
            let w = self@;
            let spec_w = claim_spec(v, holder, w.pitches[pitch], now).unwrap();
            assert(w.by_cell =~= spec_w.by_cell);
            assert(w.expiring =~= spec_w.expiring);
        }
        Ok(Event::Claimed { pitch, disclosure, holder })
    }
}

impl Pallet {
    /// `who` joins `pitch` at block `now`; when the pitch has a membership root, `V` must
    /// accept `proof` for `who` against it. Whatever `V` answers, the outcome is that of
    /// [`Self::join_checked`] with that answer.
    pub fn join<V: MembershipVerifier>(
        &mut self,
        who: AccountId,
        pitch: PitchId,
        proof: &[u8],
        now: BlockNumber,
    ) -> (r: Result<Event, Error>)
        requires
            proof@.len() <= old(self)@.config.max_proof_len,
        ensures
            (final(self)@, r) == join_outcome(old(self)@, who, pitch, true, now) || (final(self)@, r)
                == join_outcome(old(self)@, who, pitch, false, now),
            !(old(self)@.pitches.contains_key(pitch) && old(self)@.pitches[pitch].membership_root is Some)
                ==> (final(self)@, r) == join_outcome(old(self)@, who, pitch, true, now),
    {
        let root = match self.pitches.get(&pitch) {
            Some(record) => record.membership_root,
            None => None,
        };
        let ok = match root {
            Some(root) => V::verify(&who, &root, proof),
            None => true,
        };
        self.join_checked(who, pitch, ok, now)
    }

    /// `who` joins `pitch` at block `now`, where `proof_ok` tells whether the membership
    /// proof was accepted.
    pub fn join_checked(
        &mut self,
        who: AccountId,
        pitch: PitchId,
        proof_ok: bool,
        now: BlockNumber,
    ) -> (r: Result<Event, Error>)
        ensures
            (final(self)@, r) == join_outcome(old(self)@, who, pitch, proof_ok, now),
    {
        let root = match self.pitches.get(&pitch) {
            None => return Err(Error::PitchMissing),
            Some(record) => {
                if !Self::is_live(record, now) {
                    return Err(Error::NotLive);
                }
                record.membership_root
            },
        };
        if root.is_some() && !proof_ok {
            return Err(Error::ProofInvalid);
        }
        let ghost v = self@;
        let mut set = match self.joined.remove(&pitch) {
            Some(set) => set,
            None => HashSet::new(),
        };
        set.insert(who);
        self.joined.insert(pitch, set);
        proof {
            assert(self@.joined =~= join_spec(v, who, pitch, proof_ok, now).unwrap().joined);
            assert(self@.by_cell =~= v.by_cell);
            assert(self@.expiring =~= v.expiring);
            assert(self@.grants =~= v.grants);
        }
        Ok(Event::Joined { pitch, who })
    }

    /// The holder `who` amends `pitch` at block `now`, while it is live: any of the local
    /// tax, membership root, end (kept after the start, and scheduled for reaping) and residue.
    pub fn amend(
        &mut self,
        who: AccountId,
        pitch: PitchId,
        local_tax: Option<u32>,
        membership_root: Option<Option<Hash>>,
        end: Option<BlockNumber>,
        residue: Option<Option<Vec<u8>>>,
        now: BlockNumber,
    ) -> (r: Result<Event, Error>)
        requires
            residue matches Some(Some(bytes)) ==> bytes@.len() <= old(self)@.config.max_residue_len,
        ensures
            ({
                let res = amend_spec(old(self)@, who, pitch, local_tax, membership_root, end, residue, now);
                &&& final(self)@ == after(old(self)@, res)
                &&& r == (match res {
                    Ok(_) => Ok(Event::Amended { pitch }),
                    Err(e) => Err(e),
                })
            }),
    {
        let start = match self.pitches.get(&pitch) {
            None => return Err(Error::PitchMissing),
            Some(record) => {
                if record.holder != who {
                    return Err(Error::NotHolder);
                }
                if !Self::is_live(record, now) {
                    return Err(Error::NotLive);
                }
                record.start
            },
        };
        let ghost v = self@;
        if let Some(new_end) = end {
            if start >= new_end {
                return Err(Error::BadWindow);
            }
            let expiry = new_end.saturating_add(self.config.grace_period);
            let present = match self.expiring.get(&expiry) {
                Some(ids) => contains_pitch(ids, pitch),
                None => false,
            };
            if !present {
                if Self::index_len(&self.expiring, expiry) as u64 >= self.config.max_pitches_per_cell as u64 {
                    return Err(Error::ExpiryScheduleFull);
                }
                Self::index_push(&mut self.expiring, expiry, pitch);
            }
        }
        let mut record = match self.pitches.remove(&pitch) {
            Some(record) => record,
            None => return Err(Error::PitchMissing),
        };
        if let Some(t) = local_tax {
            record.local_tax = t;
        }
        if let Some(root) = membership_root {
            record.membership_root = root;
        }
        if let Some(e) = end {
            record.end = e;
        }
        if let Some(res) = residue {
            record.residue = res;
        }
        self.pitches.insert(pitch, record);
        proof {
            let spec_w = amend_spec(v, who, pitch, local_tax, membership_root, end, residue, now).unwrap();
            assert(self@.pitches =~= spec_w.pitches);
            assert(self@.expiring =~= spec_w.expiring);
            assert(self@.by_cell =~= v.by_cell);
            assert(self@.joined =~= v.joined);
            assert(self@.grants =~= v.grants);
        }
        Ok(Event::Amended { pitch })
    }

    /// Removes `pitch`: from the cell index when its cell is raw, with its joins and grants.
    fn remove_pitch(&mut self, pitch: PitchId, cell: CellRef)
        requires
            old(self)@.pitches.contains_key(pitch),
            old(self)@.pitches[pitch].cell == cell,
        ensures
            final(self)@ == remove_pitch_spec(old(self)@, pitch, old(self)@.pitches[pitch]),
    {
        let ghost v = self@;
        if let CellRef::Raw(c) = cell {
            let mut ids = match self.by_cell.remove(&c) {
                Some(ids) => ids,
                None => Vec::new(),
            };
            remove_first_exec(&mut ids, pitch);
            self.by_cell.insert(c, ids);
        }
        self.pitches.remove(&pitch);
        self.joined.remove(&pitch);
        self.grants.remove(&pitch);
        proof {
            let spec_w = remove_pitch_spec(v, pitch, v.pitches[pitch]);
            assert(self@.by_cell =~= spec_w.by_cell);
            assert(self@.expiring =~= spec_w.expiring);
            assert(self@.joined =~= spec_w.joined);
            assert(self@.grants =~= spec_w.grants);
        }
    }

    /// The holder `who` dissolves `pitch`.
    pub fn dissolve(&mut self, who: AccountId, pitch: PitchId) -> (r: Result<Event, Error>)
        ensures
            !old(self)@.pitches.contains_key(pitch) ==> r == Err::<Event, Error>(Error::PitchMissing)
                && final(self)@ == old(self)@,
            old(self)@.pitches.contains_key(pitch) && old(self)@.pitches[pitch].holder != who ==> r
                == Err::<Event, Error>(Error::NotHolder) && final(self)@ == old(self)@,
            old(self)@.pitches.contains_key(pitch) && old(self)@.pitches[pitch].holder == who ==> r
                == Ok::<Event, Error>(Event::Dissolved { pitch }) && final(self)@ == remove_pitch_spec(
                old(self)@,
                pitch,
                old(self)@.pitches[pitch],
            ),
    {
        let cell = match self.pitches.get(&pitch) {
            None => return Err(Error::PitchMissing),
            Some(record) => {
                if record.holder != who {
                    return Err(Error::NotHolder);
                }
                record.cell
            },
        };
        self.remove_pitch(pitch, cell);
        Ok(Event::Dissolved { pitch })
    }

    /// The holder `who` grants `to` a disclosure of `scope` on `pitch`.
    pub fn grant_disclosure(
        &mut self,
        who: AccountId,
        pitch: PitchId,
        to: AccountId,
        scope: DisclosureScope,
    ) -> (r: Result<Event, Error>)
        ensures
            !old(self)@.pitches.contains_key(pitch) ==> r == Err::<Event, Error>(Error::PitchMissing)
                && final(self)@ == old(self)@,
            old(self)@.pitches.contains_key(pitch) && old(self)@.pitches[pitch].holder != who ==> r
                == Err::<Event, Error>(Error::NotHolder) && final(self)@ == old(self)@,
            old(self)@.pitches.contains_key(pitch) && old(self)@.pitches[pitch].holder == who ==> r
                == Ok::<Event, Error>(Event::DisclosureGranted { pitch, to, scope }) && final(self)@
                == (PitchView {
                grants: old(self)@.grants.insert(
                    pitch,
                    (if old(self)@.grants.contains_key(pitch) {
                        old(self)@.grants[pitch]
                    } else {
                        Map::empty()
                    }).insert(to, scope),
                ),
                ..old(self)@
            }),
    {
        match self.pitches.get(&pitch) {
            None => return Err(Error::PitchMissing),
            Some(record) => {
                if record.holder != who {
                    return Err(Error::NotHolder);
                }
            },
        }
        let ghost v = self@;
        let mut m = match self.grants.remove(&pitch) {
            Some(m) => m,
            None => HashMap::new(),
        };
        m.insert(to, scope);
        self.grants.insert(pitch, m);
        proof {
            assert(self@.grants =~= v.grants.insert(
                pitch,
                (if v.grants.contains_key(pitch) {
                    v.grants[pitch]
                } else {
                    Map::empty()
                }).insert(to, scope),
            ));
            assert(self@.by_cell =~= v.by_cell);
            assert(self@.expiring =~= v.expiring);
            assert(self@.joined =~= v.joined);
        }
        Ok(Event::DisclosureGranted { pitch, to, scope })
    }

    /// Anyone reaps `pitch` at block `now`, once its grace period after the end has passed.
    pub fn reap(&mut self, pitch: PitchId, now: BlockNumber) -> (r: Result<Event, Error>)
        ensures
            !old(self)@.pitches.contains_key(pitch) ==> r == Err::<Event, Error>(Error::PitchMissing)
                && final(self)@ == old(self)@,
            old(self)@.pitches.contains_key(pitch) && now < sat_add_u64(
                old(self)@.pitches[pitch].end,
                old(self)@.config.grace_period,
            ) ==> r == Err::<Event, Error>(Error::NotLive) && final(self)@ == old(self)@,
            old(self)@.pitches.contains_key(pitch) && now >= sat_add_u64(
                old(self)@.pitches[pitch].end,
                old(self)@.config.grace_period,
            ) ==> r == Ok::<Event, Error>(Event::Reaped { pitch }) && final(self)@ == remove_pitch_spec(
                old(self)@,
                pitch,
                old(self)@.pitches[pitch],
            ),
    {
        let cell = match self.pitches.get(&pitch) {
            None => return Err(Error::PitchMissing),
            Some(record) => {
                if now < record.end.saturating_add(self.config.grace_period) {
                    return Err(Error::NotLive);
                }
                record.cell
            },
        };
        self.remove_pitch(pitch, cell);
        Ok(Event::Reaped { pitch })
    }
}

} // verus!
