//! Referenda voting tracks, organised in groups.
//!
//! A track identifier is split into a group half and a sub-track half (see [`SplitId`]).
//! A new group gets the next group id and its first track `(group, 0)`; sub-tracks of a
//! group get increasing sub-track ids. Each track is bound to exactly one origin, and each
//! origin to at most one track.

use std::collections::HashMap;
use vstd::prelude::*;

use crate::sorted_ids::SortedIds;
use crate::split_id::SplitId;
use crate::weight::{RuntimeDbWeight, Weight};
use crate::scale::{decode_u32, encode_u32, le_bytes_u32, u32_from_le};

verus! {

broadcast use vstd::std_specs::hash::group_hash_axioms;

pub type TrackId = u32;

pub type GroupId = u16;

pub type SubTrackId = u16;

/// An origin, identified by its encoding.
pub type OriginId = u64;

pub type Balance = u128;

pub type BlockNumber = u64;

/// A curve, with its per-billion parts (`Perbill`) and fixed-point values held as integers.
#[derive(Clone, Copy, Debug, PartialEq, Eq)]
pub enum Curve {
    LinearDecreasing { length: u32, floor: u32, ceil: u32 },
    SteppedDecreasing { begin: u32, end: u32, step: u32, period: u32 },
    Reciprocal { factor: i64, x_offset: i64, y_offset: i64 },
}

/// The configuration of a referenda track.
#[derive(Clone, Copy, Debug, PartialEq, Eq)]
pub struct TrackInfo {
    pub name: [u8; 25],
    pub max_deciding: u32,
    pub decision_deposit: Balance,
    pub prepare_period: BlockNumber,
    pub decision_period: BlockNumber,
    pub confirm_period: BlockNumber,
    pub min_enactment_period: BlockNumber,
    pub min_approval: Curve,
    pub min_support: Curve,
}

#[derive(Clone, Copy, Debug, PartialEq, Eq)]
pub enum UpdateType {
    /// Decision deposit was updated
    DecisionDeposit,
    /// One or more periods were updated
    Periods,
    /// One or more curves were updated
    Curves,
    /// Max deciding was updated
    MaxDeciding,
}

#[derive(Clone, Copy, Debug, PartialEq, Eq)]
pub enum Event {
    /// A new track has been inserted
    Created { id: TrackId },
    /// A track has been updated
    Updated { id: TrackId, update_type: UpdateType },
    /// A track has been removed
    Removed { id: TrackId },
    /// An entire group and all its tracks have been removed
    GroupRemoved { group: GroupId, tracks_removed: u32 },
}

#[derive(Clone, Copy, Debug, PartialEq, Eq)]
pub enum Error {
    /// The maxmimum amount of track IDs was exceeded
    MaxTracksExceeded,
    /// The specified ID for this track was not found
    TrackIdNotFound,
    /// The specified ID for this track was already existing
    TrackIdAlreadyExisting,
    /// The track cannot be removed
    CannotRemove,
    /// All update parameters are None, nothing to update
    NothingToUpdate,
    /// The track configuration contains invalid parameters
    InvalidTrackInfo,
    /// The group has no tracks (nothing to remove)
    GroupNotFound,
    /// The group has active referenda and cannot be removed
    CannotRemoveGroup,
    /// The actual number of sub-tracks exceeds the declared `max_tracks` hint
    TooManyTracks,
}

/// The abstract state of the tracks pallet.
pub struct TracksView {
    /// The maximum amount of tracks which can be configured.
    pub max_tracks: u32,
    /// The last group id handed out.
    pub next_group_id: GroupId,
    /// The last sub-track id handed out in each group (absent means zero).
    pub next_sub_track_id: Map<GroupId, SubTrackId>,
    /// The identifiers of all tracks.
    pub track_ids: Set<TrackId>,
    pub origin_to_track_id: Map<OriginId, TrackId>,
    pub track_id_to_origin: Map<TrackId, OriginId>,
    /// The configuration of each track, by its combined identifier.
    pub tracks: Map<TrackId, TrackInfo>,
}

/// The group half of a track identifier.
pub open spec fn group_of(id: TrackId) -> GroupId {
    id.split_spec().0
}

/// The track id made of a group and a sub-track.
pub open spec fn track_id_of(group: GroupId, sub: SubTrackId) -> TrackId {
    u32::combine_spec(group, sub)
}

/// The essential fields of a track configuration are non-zero.
pub open spec fn valid_track_info(info: TrackInfo) -> bool {
    &&& info.max_deciding > 0
    &&& info.decision_period != 0
    &&& info.confirm_period != 0
}

/// The last sub-track id handed out in `group`.
pub open spec fn next_sub_of(v: TracksView, group: GroupId) -> SubTrackId {
    if v.next_sub_track_id.contains_key(group) {
        v.next_sub_track_id[group]
    } else {
        0
    }
}

/// What every reachable state satisfies: the identifier set and the track configurations
/// agree, the bound holds, and the two origin mappings are inverse of each other and only
/// name existing tracks.
pub open spec fn consistent(v: TracksView) -> bool {
    &&& v.track_ids == v.tracks.dom()
    &&& v.track_ids.finite()
    &&& v.track_ids.len() <= v.max_tracks
    &&& forall|o: OriginId| #[trigger]
        v.origin_to_track_id.contains_key(o) ==> v.track_id_to_origin.contains_key(
            v.origin_to_track_id[o],
        ) && v.track_id_to_origin[v.origin_to_track_id[o]] == o
    &&& forall|t: TrackId| #[trigger]
        v.track_id_to_origin.contains_key(t) ==> v.origin_to_track_id.contains_key(
            v.track_id_to_origin[t],
        ) && v.origin_to_track_id[v.track_id_to_origin[t]] == t
    &&& forall|t: TrackId| #[trigger]
        v.track_id_to_origin.contains_key(t) ==> v.tracks.contains_key(t)
}

/// The state after inserting track `id` bound to `origin`, or the error that refuses it.
pub open spec fn insert_spec(v: TracksView, id: TrackId, info: TrackInfo, origin: OriginId) -> Result<
    TracksView,
    Error,
> {
    if !valid_track_info(info) {
        Err(Error::InvalidTrackInfo)
    } else if v.tracks.contains_key(id) {
        Err(Error::TrackIdAlreadyExisting)
    } else if v.origin_to_track_id.contains_key(origin) {
        Err(Error::TrackIdAlreadyExisting)
    } else if !(v.track_ids.len() < v.max_tracks || v.track_ids.contains(id)) {
        Err(Error::MaxTracksExceeded)
    } else {
        Ok(
            TracksView {
                track_ids: v.track_ids.insert(id),
                tracks: v.tracks.insert(id, info),
                origin_to_track_id: v.origin_to_track_id.insert(origin, id),
                track_id_to_origin: v.track_id_to_origin.insert(id, origin),
                ..v
            },
        )
    }
}

/// The state after creating a new group whose first track is bound to `origin`.
pub open spec fn new_group_spec(v: TracksView, origin: OriginId, info: TrackInfo) -> Result<
    TracksView,
    Error,
> {
    if v.next_group_id == u16::MAX {
        Err(Error::MaxTracksExceeded)
    } else {
        let group = (v.next_group_id + 1) as u16;
        match insert_spec(v, track_id_of(group, 0), info, origin) {
            Ok(w) => Ok(TracksView { next_group_id: group, ..w }),
            Err(e) => Err(e),
        }
    }
}

/// The state after adding a sub-track bound to `origin` to `group`.
pub open spec fn add_sub_track_spec(
    v: TracksView,
    group: GroupId,
    origin: OriginId,
    info: TrackInfo,
) -> Result<TracksView, Error> {
    let last = next_sub_of(v, group);
    if last == u16::MAX {
        Err(Error::MaxTracksExceeded)
    } else {
        let sub = (last + 1) as u16;
        match insert_spec(v, track_id_of(group, sub), info, origin) {
            Ok(w) => Ok(TracksView { next_sub_track_id: w.next_sub_track_id.insert(group, sub), ..w }),
            Err(e) => Err(e),
        }
    }
}

/// The state after removing track `id`, where `busy` lists the tracks with active referenda.
pub open spec fn remove_spec(v: TracksView, id: TrackId, busy: Seq<TrackId>) -> Result<
    TracksView,
    Error,
> {
    if !v.tracks.contains_key(id) {
        Err(Error::TrackIdNotFound)
    } else if busy.contains(id) {
        Err(Error::CannotRemove)
    } else {
        Ok(
            TracksView {
                track_ids: v.track_ids.remove(id),
                tracks: v.tracks.remove(id),
                track_id_to_origin: v.track_id_to_origin.remove(id),
                origin_to_track_id: if v.track_id_to_origin.contains_key(id) {
                    v.origin_to_track_id.remove(v.track_id_to_origin[id])
                } else {
                    v.origin_to_track_id
                },
                ..v
            },
        )
    }
}

/// The state after replacing the configuration of an existing track `id` by `f` of it.
pub open spec fn update_spec(v: TracksView, id: TrackId, info: TrackInfo) -> Result<
    TracksView,
    Error,
> {
    if !v.tracks.contains_key(id) {
        Err(Error::TrackIdNotFound)
    } else {
        Ok(TracksView { tracks: v.tracks.insert(id, info), ..v })
    }
}

pub open spec fn with_periods(
    info: TrackInfo,
    prepare: Option<BlockNumber>,
    decision: Option<BlockNumber>,
    confirm: Option<BlockNumber>,
    min_enactment: Option<BlockNumber>,
) -> TrackInfo {
    TrackInfo {
        prepare_period: match prepare {
            Some(p) => p,
            None => info.prepare_period,
        },
        decision_period: match decision {
            Some(p) => p,
            None => info.decision_period,
        },
        confirm_period: match confirm {
            Some(p) => p,
            None => info.confirm_period,
        },
        min_enactment_period: match min_enactment {
            Some(p) => p,
            None => info.min_enactment_period,
        },
        ..info
    }
}

pub open spec fn with_curves(info: TrackInfo, min_approval: Option<Curve>, min_support: Option<Curve>) -> TrackInfo {
    TrackInfo {
        min_approval: match min_approval {
            Some(c) => c,
            None => info.min_approval,
        },
        min_support: match min_support {
            Some(c) => c,
            None => info.min_support,
        },
        ..info
    }
}

/// A track's configuration with another decision deposit.
pub open spec fn with_deposit(info: TrackInfo, deposit: Balance) -> TrackInfo {
    TrackInfo { decision_deposit: deposit, ..info }
}

/// A track's configuration with another limit of deciding referenda.
pub open spec fn with_max_deciding(info: TrackInfo, max_deciding: u32) -> TrackInfo {
    TrackInfo { max_deciding, ..info }
}

/// Setting the decision deposit, or the limit of deciding referenda, of an existing track
/// stores the value given and keeps the rest of the track and every other track.
pub proof fn lemma_set_deposit_and_limit_store_the_value(v: TracksView, id: TrackId, deposit: Balance, max_deciding: u32)
    requires
        v.tracks.contains_key(id),
    ensures
        ({
            let before = v.tracks[id];
            let w1 = update_spec(v, id, with_deposit(before, deposit))->Ok_0;
            let w2 = update_spec(v, id, with_max_deciding(before, max_deciding))->Ok_0;
            let d = w1.tracks[id];
            let m = w2.tracks[id];
            &&& update_spec(v, id, with_deposit(before, deposit)) is Ok
            &&& update_spec(v, id, with_max_deciding(before, max_deciding)) is Ok
            &&& d.decision_deposit == deposit && d.max_deciding == before.max_deciding
            &&& m.max_deciding == max_deciding && m.decision_deposit == before.decision_deposit
            &&& d.name == before.name && m.name == before.name
            &&& d.prepare_period == before.prepare_period && m.prepare_period == before.prepare_period
            &&& d.decision_period == before.decision_period && m.decision_period == before.decision_period
            &&& d.confirm_period == before.confirm_period && m.confirm_period == before.confirm_period
            &&& d.min_enactment_period == before.min_enactment_period && m.min_enactment_period == before.min_enactment_period
            &&& d.min_approval == before.min_approval && m.min_approval == before.min_approval
            &&& d.min_support == before.min_support && m.min_support == before.min_support
            &&& forall|t: TrackId| t != id ==> (#[trigger] w1.tracks.contains_key(t) == v.tracks.contains_key(t)
                && w2.tracks.contains_key(t) == v.tracks.contains_key(t)
                && (v.tracks.contains_key(t) ==> w1.tracks[t] == v.tracks[t] && w2.tracks[t] == v.tracks[t]))
        }),
{
}

/// Setting the periods of an existing track stores each period that is given, whichever of the
/// others are given, and keeps each one that is not; nothing else of the track changes, and no
/// other track.
pub proof fn lemma_set_periods_stores_each_given(
    v: TracksView,
    id: TrackId,
    prepare: Option<BlockNumber>,
    decision: Option<BlockNumber>,
    confirm: Option<BlockNumber>,
    min_enactment: Option<BlockNumber>,
)
    requires
        v.tracks.contains_key(id),
    ensures
        update_spec(v, id, with_periods(v.tracks[id], prepare, decision, confirm, min_enactment)) is Ok,
        ({
            let w = update_spec(v, id, with_periods(v.tracks[id], prepare, decision, confirm, min_enactment))->Ok_0;
            let before = v.tracks[id];
            let after = w.tracks[id];
            &&& w.tracks.contains_key(id)
            &&& (prepare matches Some(x) ==> after.prepare_period == x)
            &&& (prepare is None ==> after.prepare_period == before.prepare_period)
            &&& (decision matches Some(x) ==> after.decision_period == x)
            &&& (decision is None ==> after.decision_period == before.decision_period)
            &&& (confirm matches Some(x) ==> after.confirm_period == x)
            &&& (confirm is None ==> after.confirm_period == before.confirm_period)
            &&& (min_enactment matches Some(x) ==> after.min_enactment_period == x)
            &&& (min_enactment is None ==> after.min_enactment_period == before.min_enactment_period)
            &&& after.name == before.name && after.max_deciding == before.max_deciding
            &&& after.decision_deposit == before.decision_deposit
            &&& after.min_approval == before.min_approval && after.min_support == before.min_support
            &&& forall|t: TrackId| t != id ==> (#[trigger] w.tracks.contains_key(t) == v.tracks.contains_key(t)
                && (v.tracks.contains_key(t) ==> w.tracks[t] == v.tracks[t]))
            &&& w.track_ids == v.track_ids
        }),
{
}

/// Setting the curves of an existing track stores each curve that is given and keeps the one
/// that is not; nothing else of the track changes, and no other track.
pub proof fn lemma_set_curves_stores_each_given(
    v: TracksView,
    id: TrackId,
    min_approval: Option<Curve>,
    min_support: Option<Curve>,
)
    requires
        v.tracks.contains_key(id),
    ensures
        update_spec(v, id, with_curves(v.tracks[id], min_approval, min_support)) is Ok,
        ({
            let w = update_spec(v, id, with_curves(v.tracks[id], min_approval, min_support))->Ok_0;
            let before = v.tracks[id];
            let after = w.tracks[id];
            &&& w.tracks.contains_key(id)
            &&& (min_approval matches Some(c) ==> after.min_approval == c)
            &&& (min_approval is None ==> after.min_approval == before.min_approval)
            &&& (min_support matches Some(c) ==> after.min_support == c)
            &&& (min_support is None ==> after.min_support == before.min_support)
            &&& after.name == before.name && after.max_deciding == before.max_deciding
            &&& after.decision_deposit == before.decision_deposit
            &&& after.prepare_period == before.prepare_period && after.decision_period == before.decision_period
            &&& after.confirm_period == before.confirm_period
            &&& after.min_enactment_period == before.min_enactment_period
            &&& forall|t: TrackId| t != id ==> (#[trigger] w.tracks.contains_key(t) == v.tracks.contains_key(t)
                && (v.tracks.contains_key(t) ==> w.tracks[t] == v.tracks[t]))
            &&& w.track_ids == v.track_ids
        }),
{
}

/// The state after `r`: the new state when it succeeded, the old one otherwise.
pub open spec fn after(v: TracksView, r: Result<TracksView, Error>) -> TracksView {
    match r {
        Ok(w) => w,
        Err(_) => v,
    }
}

/// The error of `r`, if any.
pub open spec fn error_of(r: Result<TracksView, Error>) -> Option<Error> {
    match r {
        Ok(_) => None,
        Err(e) => Some(e),
    }
}

/// The tracks of `group`.
pub open spec fn group_tracks(v: TracksView, group: GroupId) -> Set<TrackId> {
    v.tracks.dom().filter(|t: TrackId| group_of(t) == group)
}

/// `m` without the origins bound to a track of `ts`.
pub open spec fn unbind_origins(m: Map<OriginId, TrackId>, ts: Set<TrackId>) -> Map<OriginId, TrackId> {
    Map::new(|o: OriginId| m.contains_key(o) && !ts.contains(m[o]), |o: OriginId| m[o])
}

/// The state after removing a whole group, where `max_tracks` bounds the number of its
/// sub-tracks and `busy` lists the tracks with active referenda.
pub open spec fn remove_group_spec(
    v: TracksView,
    group: GroupId,
    max_tracks: u32,
    busy: Seq<TrackId>,
) -> Result<TracksView, Error> {
    let subs = group_tracks(v, group);
    if subs.len() > max_tracks {
        Err(Error::TooManyTracks)
    } else if subs.len() == 0 {
        Err(Error::GroupNotFound)
    } else if exists|t: TrackId| #[trigger] subs.contains(t) && busy.contains(t) {
        Err(Error::CannotRemoveGroup)
    } else {
        Ok(
            TracksView {
                track_ids: v.track_ids.difference(subs),
                tracks: v.tracks.remove_keys(subs),
                track_id_to_origin: v.track_id_to_origin.remove_keys(subs),
                origin_to_track_id: unbind_origins(v.origin_to_track_id, subs),
                next_sub_track_id: v.next_sub_track_id.remove(group),
                ..v
            },
        )
    }
}

/// Removing a track right after inserting it gives back the state before the insertion:
/// the origin is free again and the identifier unused.
pub proof fn lemma_remove_undoes_insert(
    v: TracksView,
    id: TrackId,
    info: TrackInfo,
    origin: OriginId,
    busy: Seq<TrackId>,
)
    requires
        consistent(v),
        insert_spec(v, id, info, origin) is Ok,
        !busy.contains(id),
    ensures
        remove_spec(insert_spec(v, id, info, origin).unwrap(), id, busy) == Ok::<TracksView, Error>(v),
{
    let w = insert_spec(v, id, info, origin).unwrap();
    let u = remove_spec(w, id, busy).unwrap();
    assert(!v.track_id_to_origin.contains_key(id));
    assert(u.track_ids =~= v.track_ids);
    assert(u.tracks =~= v.tracks);
    assert(u.track_id_to_origin =~= v.track_id_to_origin);
    assert(u.origin_to_track_id =~= v.origin_to_track_id);
}

/// After a group is removed, none of its tracks remains, no origin is bound to one of them,
/// and its sub-track counter starts over.
pub proof fn lemma_remove_group_clears_group(
    v: TracksView,
    group: GroupId,
    max_tracks: u32,
    busy: Seq<TrackId>,
)
    requires
        consistent(v),
        remove_group_spec(v, group, max_tracks, busy) is Ok,
    ensures
        ({
            let w = remove_group_spec(v, group, max_tracks, busy).unwrap();
            &&& group_tracks(w, group).is_empty()
            &&& forall|o: OriginId| #[trigger] w.origin_to_track_id.contains_key(o)
                ==> group_of(w.origin_to_track_id[o]) != group
            &&& next_sub_of(w, group) == 0
            &&& consistent(w)
        }),
{
    let w = remove_group_spec(v, group, max_tracks, busy).unwrap();
    let subs = group_tracks(v, group);
    assert(group_tracks(w, group) =~= Set::<TrackId>::empty());
    assert forall|o: OriginId| #[trigger] w.origin_to_track_id.contains_key(o) implies group_of(
        w.origin_to_track_id[o],
    ) != group by {
        let t = v.origin_to_track_id[o];
        assert(v.track_id_to_origin.contains_key(t));
        assert(v.tracks.contains_key(t));
    }
    assert(w.track_ids =~= w.tracks.dom());
    vstd::set_lib::lemma_len_subset(w.track_ids, v.track_ids);
    assert forall|o: OriginId| #[trigger]
        w.origin_to_track_id.contains_key(o) implies w.track_id_to_origin.contains_key(
        w.origin_to_track_id[o],
    ) && w.track_id_to_origin[w.origin_to_track_id[o]] == o by {
        assert(v.origin_to_track_id.contains_key(o));
        assert(v.track_id_to_origin.contains_key(v.origin_to_track_id[o]));
    }
    assert forall|t: TrackId| #[trigger]
        w.track_id_to_origin.contains_key(t) implies w.origin_to_track_id.contains_key(
        w.track_id_to_origin[t],
    ) && w.origin_to_track_id[w.track_id_to_origin[t]] == t by {
        assert(v.track_id_to_origin.contains_key(t));
        assert(v.origin_to_track_id.contains_key(v.track_id_to_origin[t]));
    }
}

/// Whether `busy` holds `id`.
pub fn contains_id(busy: &Vec<TrackId>, id: TrackId) -> (r: bool)
    ensures
        r == busy@.contains(id),
{
    let mut i: usize = 0;
    while i < busy.len()
        invariant
            i <= busy@.len(),
            forall|j: int| 0 <= j < i ==> busy@[j] != id,
        decreases busy@.len() - i,
    {
        if busy[i] == id {
            return true;
        }
        i = i + 1;
    }
    false
}

/// Gives the track ids that benchmarks use: implemented by the runtime.
pub trait BenchmarkHelper {
    fn track_id(id: u32) -> TrackId;
}

/// The state of the referenda tracks pallet.
pub struct Pallet {
    max_tracks: u32,
    next_group_id: GroupId,
    next_sub_track_id: HashMap<GroupId, SubTrackId>,
    track_ids: SortedIds,
    origin_to_track_id: HashMap<OriginId, TrackId>,
    track_id_to_origin: HashMap<TrackId, OriginId>,
    tracks: HashMap<TrackId, TrackInfo>,
}

impl View for Pallet {
    type V = TracksView;

    closed spec fn view(&self) -> TracksView {
        TracksView {
            max_tracks: self.max_tracks,
            next_group_id: self.next_group_id,
            next_sub_track_id: self.next_sub_track_id@,
            track_ids: self.track_ids.set(),
            origin_to_track_id: self.origin_to_track_id@,
            track_id_to_origin: self.track_id_to_origin@,
            tracks: self.tracks@,
        }
    }
}

impl Pallet {
    pub closed spec fn wf(&self) -> bool {
        &&& self.track_ids.wf()
        &&& consistent(self@)
    }

    /// A well-formed pallet's storage is consistent: the track ids are those of the stored
    /// tracks, no more than the maximum, and origins and track ids map to each other, each
    /// mapped track existing.
    pub proof fn lemma_wf_consistent(&self)
        requires
            self.wf(),
        ensures
            consistent(self@),
    {
    }

    /// The track identifiers, in increasing order.
    pub closed spec fn track_id_seq(&self) -> Seq<TrackId> {
        self.track_ids.seq()
    }

    proof fn lemma_ids(&self)
        requires
            self.wf(),
        ensures
            self.track_id_seq().to_set() == self@.track_ids,
            self.track_id_seq().len() == self@.track_ids.len(),
            crate::sorted_ids::strictly_increasing(self.track_id_seq()),
    {
        self.track_ids.lemma_wf_facts();
    }

    /// An empty pallet that allows at most `max_tracks` tracks.
    pub fn new(max_tracks: u32) -> (r: Self)
        ensures
            r.wf(),
            r@.max_tracks == max_tracks,
            r@.next_group_id == 0,
            r@.next_sub_track_id == Map::<GroupId, SubTrackId>::empty(),
            r@.track_ids == Set::<TrackId>::empty(),
            r@.origin_to_track_id == Map::<OriginId, TrackId>::empty(),
            r@.track_id_to_origin == Map::<TrackId, OriginId>::empty(),
            r@.tracks == Map::<TrackId, TrackInfo>::empty(),
    {
        let r = Pallet {
            max_tracks,
            next_group_id: 0,
            next_sub_track_id: HashMap::new(),
            track_ids: SortedIds::new(),
            origin_to_track_id: HashMap::new(),
            track_id_to_origin: HashMap::new(),
            tracks: HashMap::new(),
        };
        proof {
            r.track_ids.lemma_wf_facts();
            assert(r@.track_ids =~= r@.tracks.dom());
        }
        r
    }

    /// The configuration of track `id`, if it exists.
    pub fn get_track_info(&self, id: TrackId) -> (r: Option<TrackInfo>)
        ensures
            r == (if self@.tracks.contains_key(id) {
                Some(self@.tracks[id])
            } else {
                None
            }),
    {
        match self.tracks.get(&id) {
            Some(info) => Some(*info),
            None => None,
        }
    }

    /// The track bound to `origin`, if any.
    pub fn track_for(&self, origin: OriginId) -> (r: Option<TrackId>)
        ensures
            r == (if self@.origin_to_track_id.contains_key(origin) {
                Some(self@.origin_to_track_id[origin])
            } else {
                None
            }),
    {
        match self.origin_to_track_id.get(&origin) {
            Some(id) => Some(*id),
            None => None,
        }
    }

    /// The origin bound to track `id`, if any.
    pub fn origin_of(&self, id: TrackId) -> (r: Option<OriginId>)
        ensures
            r == (if self@.track_id_to_origin.contains_key(id) {
                Some(self@.track_id_to_origin[id])
            } else {
                None
            }),
    {
        match self.track_id_to_origin.get(&id) {
            Some(o) => Some(*o),
            None => None,
        }
    }

    /// The identifiers of all tracks, in increasing order.
    pub fn track_ids(&self) -> (r: Vec<TrackId>)
        requires
            self.wf(),
        ensures
            r@ == self.track_id_seq(),
            r@.to_set() == self@.track_ids,
            crate::sorted_ids::strictly_increasing(r@),
    {
        proof {
            self.lemma_ids();
        }
        self.track_ids.to_vec()
    }

    /// The last group id handed out.
    pub fn next_group_id(&self) -> (r: GroupId)
        ensures
            r == self@.next_group_id,
    {
        self.next_group_id
    }

    /// The last sub-track id handed out in `group`.
    pub fn next_sub_track_id(&self, group: GroupId) -> (r: SubTrackId)
        ensures
            r == next_sub_of(self@, group),
    {
        match self.next_sub_track_id.get(&group) {
            Some(s) => *s,
            None => 0,
        }
    }

    /// Validates the essential fields of a track configuration.
    fn validate_track_info(info: &TrackInfo) -> (r: Result<(), Error>)
        ensures
            r == (if valid_track_info(*info) {
                Ok(())
            } else {
                Err(Error::InvalidTrackInfo)
            }),
    {
        if info.max_deciding == 0 {
            return Err(Error::InvalidTrackInfo);
        }
        if info.decision_period == 0 {
            return Err(Error::InvalidTrackInfo);
        }
        if info.confirm_period == 0 {
            return Err(Error::InvalidTrackInfo);
        }
        Ok(())
    }

    /// Inserts a new track bound to `origin` into the tracks storage.
    pub fn do_insert(&mut self, id: TrackId, info: TrackInfo, origin: OriginId) -> (r: Result<
        Event,
        Error,
    >)
        requires
            old(self).wf(),
        ensures
            final(self).wf(),
            consistent(final(self)@),
            final(self)@ == after(old(self)@, insert_spec(old(self)@, id, info, origin)),
            r == (match insert_spec(old(self)@, id, info, origin) {
                Ok(_) => Ok(Event::Created { id }),
                Err(e) => Err(e),
            }),
    {
        proof {
            self.track_ids.lemma_wf_facts();
        }
        Self::validate_track_info(&info)?;
        if self.tracks.contains_key(&id) {
            return Err(Error::TrackIdAlreadyExisting);
        }
        if self.origin_to_track_id.contains_key(&origin) {
            return Err(Error::TrackIdAlreadyExisting);
        }
        let fits = (self.track_ids.len() as u64) < (self.max_tracks as u64) || self.track_ids.contains(id);
        if !fits {
            return Err(Error::MaxTracksExceeded);
        }
        let ghost v = self@;
        self.track_ids.insert(id);
        self.tracks.insert(id, info);
        self.origin_to_track_id.insert(origin, id);
        self.track_id_to_origin.insert(id, origin);
        proof {
            self.track_ids.lemma_wf_facts();
            let w = self@;
            assert(w.track_ids =~= w.tracks.dom());
            assert(!v.track_id_to_origin.contains_key(id));
            assert forall|o: OriginId| #[trigger]
                w.origin_to_track_id.contains_key(o) implies w.track_id_to_origin.contains_key(
                w.origin_to_track_id[o],
            ) && w.track_id_to_origin[w.origin_to_track_id[o]] == o by {
                if o != origin {
                    assert(v.origin_to_track_id.contains_key(o));
                    assert(v.track_id_to_origin.contains_key(v.origin_to_track_id[o]));
                }
            }
            assert forall|t: TrackId| #[trigger]
                w.track_id_to_origin.contains_key(t) implies w.origin_to_track_id.contains_key(
                w.track_id_to_origin[t],
            ) && w.origin_to_track_id[w.track_id_to_origin[t]] == t by {
                if t != id {
                    assert(v.track_id_to_origin.contains_key(t));
                    assert(v.origin_to_track_id.contains_key(v.track_id_to_origin[t]));
                }
            }
        }
        Ok(Event::Created { id })
    }

    /// Creates a new track group with its first track, bound to `group_origin`.
    pub fn new_group_with_track(&mut self, group_origin: OriginId, info: TrackInfo) -> (r: Result<
        Event,
        Error,
    >)
        requires
            old(self).wf(),
        ensures
            final(self).wf(),
            final(self)@ == after(old(self)@, new_group_spec(old(self)@, group_origin, info)),
            r == (match new_group_spec(old(self)@, group_origin, info) {
                Ok(_) => Ok(
                    Event::Created {
                        id: track_id_of((old(self)@.next_group_id + 1) as u16, 0),
                    },
                ),
                Err(e) => Err(e),
            }),
    {
        if self.next_group_id == u16::MAX {
            return Err(Error::MaxTracksExceeded);
        }
        let group = self.next_group_id + 1;
        let id = u32::combine(group, 0);
        let ev = self.do_insert(id, info, group_origin)?;
        self.next_group_id = group;
        Ok(ev)
    }

    /// Adds a sub-track bound to `sub_origin` to `group`. The sub-track id is auto-assigned.
    pub fn add_sub_track(&mut self, group: GroupId, sub_origin: OriginId, info: TrackInfo) -> (r:
        Result<Event, Error>)
        requires
            old(self).wf(),
        ensures
            final(self).wf(),
            final(self)@ == after(old(self)@, add_sub_track_spec(old(self)@, group, sub_origin, info)),
            r == (match add_sub_track_spec(old(self)@, group, sub_origin, info) {
                Ok(_) => Ok(
                    Event::Created {
                        id: track_id_of(group, (next_sub_of(old(self)@, group) + 1) as u16),
                    },
                ),
                Err(e) => Err(e),
            }),
    {
        let last = self.next_sub_track_id(group);
        if last == u16::MAX {
            return Err(Error::MaxTracksExceeded);
        }
        let sub = last + 1;
        let id = u32::combine(group, sub);
        let ev = self.do_insert(id, info, sub_origin)?;
        self.next_sub_track_id.insert(group, sub);
        Ok(ev)
    }
}

impl Pallet {
    /// Removes an existing track, unless it has active referenda (`busy` lists the tracks
    /// that have deciding or queued referenda).
    pub fn remove(&mut self, id: TrackId, busy: &Vec<TrackId>) -> (r: Result<Event, Error>)
        requires
            old(self).wf(),
        ensures
            final(self).wf(),
            final(self)@ == after(old(self)@, remove_spec(old(self)@, id, busy@)),
            r == (match remove_spec(old(self)@, id, busy@) {
                Ok(_) => Ok(Event::Removed { id }),
                Err(e) => Err(e),
            }),
    {
        if !self.tracks.contains_key(&id) {
            return Err(Error::TrackIdNotFound);
        }
        if contains_id(busy, id) {
            return Err(Error::CannotRemove);
        }
        let ghost v = self@;
        self.tracks.remove(&id);
        let origin = self.track_id_to_origin.remove(&id);
        match origin {
            Some(o) => {
                self.origin_to_track_id.remove(&o);
            },
            None => {},
        }
        self.track_ids.remove(id);
        proof {
            self.track_ids.lemma_wf_facts();
            let w = self@;
            assert(w.track_ids =~= w.tracks.dom());
            assert forall|o: OriginId| #[trigger]
                w.origin_to_track_id.contains_key(o) implies w.track_id_to_origin.contains_key(
                w.origin_to_track_id[o],
            ) && w.track_id_to_origin[w.origin_to_track_id[o]] == o by {
                assert(v.origin_to_track_id.contains_key(o));
                assert(v.track_id_to_origin.contains_key(v.origin_to_track_id[o]));
            }
            assert forall|t: TrackId| #[trigger]
                w.track_id_to_origin.contains_key(t) implies w.origin_to_track_id.contains_key(
                w.track_id_to_origin[t],
            ) && w.origin_to_track_id[w.track_id_to_origin[t]] == t by {
                assert(v.track_id_to_origin.contains_key(t));
                assert(v.origin_to_track_id.contains_key(v.track_id_to_origin[t]));
            }
            assert(w.track_id_to_origin =~= v.track_id_to_origin.remove(id));
            assert(w.origin_to_track_id =~= remove_spec(v, id, busy@).unwrap().origin_to_track_id);
        }
        Ok(Event::Removed { id })
    }

    /// Replaces the configuration of an existing track.
    fn put_track(&mut self, id: TrackId, info: TrackInfo)
        requires
            old(self).wf(),
            old(self)@.tracks.contains_key(id),
        ensures
            final(self).wf(),
            final(self)@ == (TracksView { tracks: old(self)@.tracks.insert(id, info), ..old(self)@ }),
    {
        let ghost v = self@;
        self.tracks.insert(id, info);
        proof {
            let w = self@;
            assert(w.tracks.dom() =~= v.tracks.dom());
        }
    }

    /// Sets the decision deposit for an existing track.
    pub fn set_decision_deposit(&mut self, id: TrackId, deposit: Balance) -> (r: Result<
        Event,
        Error,
    >)
        requires
            old(self).wf(),
        ensures
            final(self).wf(),
            ({
                let res = update_spec(old(self)@, id, with_deposit(old(self)@.tracks[id], deposit));
                &&& final(self)@ == after(old(self)@, res)
                &&& r == (match res {
                    Ok(_) => Ok(Event::Updated { id, update_type: UpdateType::DecisionDeposit }),
                    Err(e) => Err(e),
                })
            }),
    {
        let info = match self.tracks.get(&id) {
            Some(i) => *i,
            None => return Err(Error::TrackIdNotFound),
        };
        self.put_track(id, TrackInfo { decision_deposit: deposit, ..info });
        Ok(Event::Updated { id, update_type: UpdateType::DecisionDeposit })
    }

    /// Sets one or more periods of an existing track. A zero decision or confirm period is
    /// refused.
    pub fn set_periods(
        &mut self,
        id: TrackId,
        prepare: Option<BlockNumber>,
        decision: Option<BlockNumber>,
        confirm: Option<BlockNumber>,
        min_enactment: Option<BlockNumber>,
    ) -> (r: Result<Event, Error>)
        requires
            old(self).wf(),
        ensures
            final(self).wf(),
            ({
                let res = if prepare is None && decision is None && confirm is None
                    && min_enactment is None {
                    Err(Error::NothingToUpdate)
                } else if decision == Some(0u64) || confirm == Some(0u64) {
                    Err(Error::InvalidTrackInfo)
                } else {
                    update_spec(
                        old(self)@,
                        id,
                        with_periods(old(self)@.tracks[id], prepare, decision, confirm, min_enactment),
                    )
                };
                &&& final(self)@ == after(old(self)@, res)
                &&& r == (match res {
                    Ok(_) => Ok(Event::Updated { id, update_type: UpdateType::Periods }),
                    Err(e) => Err(e),
                })
            }),
    {
        if prepare.is_none() && decision.is_none() && confirm.is_none() && min_enactment.is_none() {
            return Err(Error::NothingToUpdate);
        }
        if let Some(period) = decision {
            if period == 0 {
                return Err(Error::InvalidTrackInfo);
            }
        }
        if let Some(period) = confirm {
            if period == 0 {
                return Err(Error::InvalidTrackInfo);
            }
        }
        let mut info = match self.tracks.get(&id) {
            Some(i) => *i,
            None => return Err(Error::TrackIdNotFound),
        };
        if let Some(period) = prepare {
            info.prepare_period = period;
        }
        if let Some(period) = decision {
            info.decision_period = period;
        }
        if let Some(period) = confirm {
            info.confirm_period = period;
        }
        if let Some(period) = min_enactment {
            info.min_enactment_period = period;
        }
        self.put_track(id, info);
        Ok(Event::Updated { id, update_type: UpdateType::Periods })
    }

    /// Sets one or more curves of an existing track.
    pub fn set_curves(&mut self, id: TrackId, min_approval: Option<Curve>, min_support: Option<
        Curve,
    >) -> (r: Result<Event, Error>)
        requires
            old(self).wf(),
        ensures
            final(self).wf(),
            ({
                let res = if min_approval is None && min_support is None {
                    Err(Error::NothingToUpdate)
                } else {
                    update_spec(
                        old(self)@,
                        id,
                        with_curves(old(self)@.tracks[id], min_approval, min_support),
                    )
                };
                &&& final(self)@ == after(old(self)@, res)
                &&& r == (match res {
                    Ok(_) => Ok(Event::Updated { id, update_type: UpdateType::Curves }),
                    Err(e) => Err(e),
                })
            }),
    {
        if min_approval.is_none() && min_support.is_none() {
            return Err(Error::NothingToUpdate);
        }
        let mut info = match self.tracks.get(&id) {
            Some(i) => *i,
            None => return Err(Error::TrackIdNotFound),
        };
        if let Some(curve) = min_approval {
            info.min_approval = curve;
        }
        if let Some(curve) = min_support {
            info.min_support = curve;
        }
        self.put_track(id, info);
        Ok(Event::Updated { id, update_type: UpdateType::Curves })
    }

    /// Sets the maximum number of simultaneous deciding referenda of a track (must be
    /// positive).
    pub fn set_max_deciding(&mut self, id: TrackId, max_deciding: u32) -> (r: Result<Event, Error>)
        requires
            old(self).wf(),
        ensures
            final(self).wf(),
            ({
                let res = if max_deciding == 0 {
                    Err(Error::InvalidTrackInfo)
                } else {
                    update_spec(old(self)@, id, with_max_deciding(old(self)@.tracks[id], max_deciding))
                };
                &&& final(self)@ == after(old(self)@, res)
                &&& r == (match res {
                    Ok(_) => Ok(Event::Updated { id, update_type: UpdateType::MaxDeciding }),
                    Err(e) => Err(e),
                })
            }),
    {
        if max_deciding == 0 {
            return Err(Error::InvalidTrackInfo);
        }
        let info = match self.tracks.get(&id) {
            Some(i) => *i,
            None => return Err(Error::TrackIdNotFound),
        };
        self.put_track(id, TrackInfo { max_deciding, ..info });
        Ok(Event::Updated { id, update_type: UpdateType::MaxDeciding })
    }
}

impl Pallet {
    /// The tracks of `group`, in increasing order.
    fn collect_group(&self, group: GroupId) -> (subs: Vec<TrackId>)
        requires
            self.wf(),
        ensures
            subs@.no_duplicates(),
            subs@.to_set() == group_tracks(self@, group),
            subs@.len() == group_tracks(self@, group).len(),
            group_tracks(self@, group).finite(),
    {
        proof {
            self.lemma_ids();
        }
        let n = self.track_ids.len();
        let ghost seq = self.track_id_seq();
        let mut subs: Vec<TrackId> = Vec::new();
        let mut i: usize = 0;
        while i < n
            invariant
                self.wf(),
                seq == self.track_id_seq(),
                n == seq.len(),
                i <= n,
                crate::sorted_ids::strictly_increasing(seq),
                subs@.no_duplicates(),
                forall|t: TrackId|
                    #[trigger] subs@.contains(t) <==> (seq.take(i as int).contains(t) && group_of(t)
                        == group),
            decreases n - i,
        {
            let t = self.track_ids.get(i);
            let (g, _) = t.split();
            let ghost before = subs@;
            let ghost prev = seq.take(i as int);
            let ghost next = seq.take(i + 1);
            proof {
                assert(next =~= prev.push(t));
                assert(!prev.contains(t)) by {
                    if prev.contains(t) {
                        let k = choose|k: int| 0 <= k < prev.len() && prev[k] == t;
                        assert(seq[k] == t);
                        assert(seq[k] < seq[i as int]);
                    }
                }
            }
            if g == group {
                subs.push(t);
            }
            proof {
                assert forall|x: TrackId|
                    #[trigger] subs@.contains(x) <==> (next.contains(x) && group_of(x) == group) by {
                    if x == t {
                        if g == group {
                            assert(subs@[subs@.len() - 1] == t);
                        } else {
                            assert(before.contains(t) ==> prev.contains(t) && group_of(t) == group);
                            assert(!before.contains(x));
                        }
                        assert(next[i as int] == t);
                    } else {
                        if subs@.contains(x) {
                            let k = choose|k: int| 0 <= k < subs@.len() && subs@[k] == x;
                            if g == group {
                                assert(k < before.len());
                            }
                            assert(before[k] == x);
                            assert(before.contains(x));
                            assert(before.contains(x) ==> prev.contains(x) && group_of(x) == group);
                            assert(prev.contains(x));
                            let j = choose|j: int| 0 <= j < prev.len() && prev[j] == x;
                            assert(next[j] == x);
                        }
                        if next.contains(x) && group_of(x) == group {
                            let j = choose|j: int| 0 <= j < next.len() && next[j] == x;
                            assert(j < i);
                            assert(prev[j] == x);
                            assert(prev.contains(x));
                            assert(prev.contains(x) && group_of(x) == group ==> before.contains(x));
                            assert(before.contains(x));
                            let k = choose|k: int| 0 <= k < before.len() && before[k] == x;
                            assert(subs@[k] == x);
                        }
                    }
                }
                if g == group {
                    assert forall|a: int, b: int|
                        0 <= a < subs@.len() && 0 <= b < subs@.len() && a != b implies subs@[a]
                        != subs@[b] by {
                        if a < before.len() && b < before.len() {
                            assert(before[a] != before[b]);
                        } else if a < before.len() {
                            assert(before.contains(before[a]));
                        } else if b < before.len() {
                            assert(before.contains(before[b]));
                        }
                    }
                }
            }
            i = i + 1;
            assert(next == seq.take(i as int));
        }
        proof {
            assert(seq.take(n as int) =~= seq);
            assert forall|x: TrackId| subs@.to_set().contains(x) <==> group_tracks(self@, group).contains(x) by {
                if subs@.to_set().contains(x) {
                    assert(subs@.contains(x));
                    assert(seq.take(n as int).contains(x));
                    assert(seq.contains(x));
                    assert(seq.to_set().contains(x));
                }
                if group_tracks(self@, group).contains(x) {
                    assert(seq.to_set().contains(x));
                    assert(seq.contains(x));
                    assert(seq.take(n as int).contains(x));
                    assert(subs@.contains(x));
                }
            }
            assert(subs@.to_set() =~= group_tracks(self@, group));
            subs@.unique_seq_to_set();
        }
        subs
    }

    /// Removes an entire group and all its sub-tracks, reclaiming storage. Fails if the group
    /// has more than `max_tracks` sub-tracks, has none, or has a track with active referenda
    /// (`busy` lists the tracks with deciding or queued referenda).
    pub fn remove_group(&mut self, group: GroupId, max_tracks: u32, busy: &Vec<TrackId>) -> (r:
        Result<Event, Error>)
        requires
            old(self).wf(),
        ensures
            final(self).wf(),
            final(self)@ == after(old(self)@, remove_group_spec(old(self)@, group, max_tracks, busy@)),
            r == (match remove_group_spec(old(self)@, group, max_tracks, busy@) {
                Ok(_) => Ok(
                    Event::GroupRemoved {
                        group,
                        tracks_removed: group_tracks(old(self)@, group).len() as u32,
                    },
                ),
                Err(e) => Err(e),
            }),
    {
        let subs = self.collect_group(group);
        let ghost v = self@;
        let ghost subs_set = group_tracks(v, group);
        if subs.len() as u64 > max_tracks as u64 {
            return Err(Error::TooManyTracks);
        }
        if subs.len() == 0 {
            return Err(Error::GroupNotFound);
        }
        let count = subs.len() as u32;
        let mut k: usize = 0;
        while k < subs.len()
            invariant
                k <= subs@.len(),
                self.wf(),
                self@ == v,
                subs@.to_set() == subs_set,
                subs_set == group_tracks(v, group),
                subs@.len() == subs_set.len(),
                subs_set.len() <= max_tracks,
                subs_set.len() > 0,
                forall|j: int| 0 <= j < k ==> !busy@.contains(#[trigger] subs@[j]),
            decreases subs@.len() - k,
        {
            if contains_id(busy, subs[k]) {
                proof {
                    assert(subs@.contains(subs@[k as int]));
                    assert(subs_set.contains(subs@[k as int]));
                }
                return Err(Error::CannotRemoveGroup);
            }
            k = k + 1;
        }
        proof {
            assert forall|t: TrackId| #[trigger] subs_set.contains(t) implies !busy@.contains(t) by {
                assert(subs@.to_set().contains(t));
                let j = choose|j: int| 0 <= j < subs@.len() && subs@[j] == t;
            }
        }
        let mut k: usize = 0;
        while k < subs.len()
            invariant
                k <= subs@.len(),
                subs@.no_duplicates(),
                consistent(v),
                self.track_ids.wf(),
                ({
                    let done = subs@.take(k as int).to_set();
                    let w = self@;
                    &&& w.tracks == v.tracks.remove_keys(done)
                    &&& w.track_ids == v.track_ids.difference(done)
                    &&& w.track_id_to_origin == v.track_id_to_origin.remove_keys(done)
                    &&& w.origin_to_track_id == unbind_origins(v.origin_to_track_id, done)
                    &&& w.next_sub_track_id == v.next_sub_track_id
                    &&& w.next_group_id == v.next_group_id
                    &&& w.max_tracks == v.max_tracks
                }),
            decreases subs@.len() - k,
        {
            let t = subs[k];
            let ghost done = subs@.take(k as int).to_set();
            let ghost done2 = subs@.take(k + 1).to_set();
            proof {
                assert(subs@.take(k + 1) =~= subs@.take(k as int).push(t));
                assert forall|x: TrackId| done2.contains(x) <==> done.insert(t).contains(x) by {
                    let pk = subs@.take(k as int);
                    let pk1 = subs@.take(k + 1);
                    if pk1.contains(x) && x != t {
                        let j = choose|j: int| 0 <= j < pk1.len() && pk1[j] == x;
                        assert(pk[j] == x);
                    }
                    if pk.contains(x) {
                        let j = choose|j: int| 0 <= j < pk.len() && pk[j] == x;
                        assert(pk1[j] == x);
                    }
                    if x == t {
                        assert(pk1[k as int] == x);
                    }
                }
                assert(done2 =~= done.insert(t));
                assert(!done.contains(t)) by {
                    if done.contains(t) {
                        let j = choose|j: int| 0 <= j < k && subs@.take(k as int)[j] == t;
                        assert(subs@[j] == subs@[k as int]);
                    }
                }
            }
            self.tracks.remove(&t);
            let origin = self.track_id_to_origin.remove(&t);
            match origin {
                Some(o) => {
                    self.origin_to_track_id.remove(&o);
                },
                None => {},
            }
            self.track_ids.remove(t);
            proof {
                let w = self@;
                assert(w.tracks =~= v.tracks.remove_keys(done2));
                assert(w.track_ids =~= v.track_ids.difference(done2));
                assert(w.track_id_to_origin =~= v.track_id_to_origin.remove_keys(done2));
                assert forall|o: OriginId|
                    w.origin_to_track_id.contains_key(o) <==> unbind_origins(
                        v.origin_to_track_id,
                        done2,
                    ).contains_key(o) by {
                    if v.origin_to_track_id.contains_key(o) && v.origin_to_track_id[o] == t {
                        assert(v.track_id_to_origin.contains_key(t));
                        assert(v.track_id_to_origin[t] == o);
                    }
                }
                assert(w.origin_to_track_id =~= unbind_origins(v.origin_to_track_id, done2));
            }
            k = k + 1;
        }
        self.next_sub_track_id.remove(&group);
        proof {
            assert(subs@.take(subs@.len() as int) =~= subs@);
            self.track_ids.lemma_wf_facts();
            let w = self@;
            assert(w.track_ids =~= w.tracks.dom());
            vstd::set_lib::lemma_len_subset(w.track_ids, v.track_ids);
            assert forall|o: OriginId| #[trigger]
                w.origin_to_track_id.contains_key(o) implies w.track_id_to_origin.contains_key(
                w.origin_to_track_id[o],
            ) && w.track_id_to_origin[w.origin_to_track_id[o]] == o by {
                assert(v.origin_to_track_id.contains_key(o));
                assert(v.track_id_to_origin.contains_key(v.origin_to_track_id[o]));
            }
            assert forall|t: TrackId| #[trigger]
                w.track_id_to_origin.contains_key(t) implies w.origin_to_track_id.contains_key(
                w.track_id_to_origin[t],
            ) && w.origin_to_track_id[w.track_id_to_origin[t]] == t by {
                assert(v.track_id_to_origin.contains_key(t));
                assert(v.origin_to_track_id.contains_key(v.track_id_to_origin[t]));
            }
        }
        Ok(Event::GroupRemoved { group, tracks_removed: count })
    }
}

/// The storage of the tracks pallet before track identifiers were split into a group and a
/// sub-track: one flat identifier per track.
pub struct TracksV0 {
    /// The identifiers listed in `TracksIds`.
    pub track_ids: Vec<TrackId>,
    /// The configuration of each track.
    pub tracks: HashMap<TrackId, TrackInfo>,
    /// The entries of `OriginToTrackId`, each origin once.
    pub origin_entries: Vec<(OriginId, TrackId)>,
}

/// A flat v0 track id that is listed, configured and fits in a half: it becomes a group.
pub open spec fn migrated(ids: Seq<TrackId>, tracks: Map<TrackId, TrackInfo>, id: TrackId) -> bool {
    &&& ids.contains(id)
    &&& tracks.contains_key(id)
    &&& group_of(id) == 0
}

/// A flat v0 track id that is listed and fits in a half: it counts toward the next group id.
pub open spec fn listed_group(ids: Seq<TrackId>, id: TrackId) -> bool {
    ids.contains(id) && group_of(id) == 0
}

/// The v1 identifier of the first track of the group made of a v0 identifier.
pub open spec fn moved(id: TrackId) -> TrackId {
    track_id_of(id.split_spec().1, 0)
}

/// The v1 identifier an origin is bound to, given its v0 identifier (unchanged when it does
/// not fit in a half).
pub open spec fn remap(id: TrackId) -> TrackId {
    if group_of(id) == 0 {
        moved(id)
    } else {
        id
    }
}

/// The v1 track configurations: each migrated v0 track `n` is stored as track `(n, 0)`.
pub open spec fn migrated_tracks(ids: Seq<TrackId>, tracks: Map<TrackId, TrackInfo>) -> Map<
    TrackId,
    TrackInfo,
> {
    Map::new(
        |t: TrackId| t.split_spec().1 == 0 && migrated(ids, tracks, t.split_spec().0 as u32),
        |t: TrackId| tracks[t.split_spec().0 as u32],
    )
}

pub open spec fn keys_distinct(e: Seq<(OriginId, TrackId)>) -> bool {
    forall|i: int, j: int| 0 <= i < j < e.len() ==> e[i].0 != e[j].0
}

/// No two entries bind a migrated track id.
pub open spec fn tracks_distinct(e: Seq<(OriginId, TrackId)>) -> bool {
    forall|i: int, j: int|
        0 <= i < j < e.len() && group_of(e[i].1) == 0 && group_of(e[j].1) == 0 ==> e[i].1 != e[j].1
}

/// The index of the entry of origin `k`.
pub open spec fn entry_of(e: Seq<(OriginId, TrackId)>, k: OriginId) -> int {
    choose|i: int| 0 <= i < e.len() && e[i].0 == k
}

/// Whether the entry binds an origin to a v0 identifier that migrates to track `t`.
pub open spec fn moves_to(x: (OriginId, TrackId), t: TrackId) -> bool {
    group_of(x.1) == 0 && moved(x.1) == t
}

/// The index of the last entry whose identifier migrates to `t`, or -1 when there is none:
/// when several origins are bound to one track, the last one written wins.
pub open spec fn last_entry_to(e: Seq<(OriginId, TrackId)>, t: TrackId) -> int
    decreases e.len(),
{
    if e.len() == 0 {
        -1
    } else if moves_to(e.last(), t) {
        e.len() - 1
    } else {
        last_entry_to(e.drop_last(), t)
    }
}

/// The v1 origin-to-track map: every origin is kept, bound to the remapped identifier.
pub open spec fn migrated_origin_to_track(e: Seq<(OriginId, TrackId)>) -> Map<OriginId, TrackId> {
    Map::new(
        |k: OriginId| exists|i: int| 0 <= i < e.len() && e[i].0 == k,
        |k: OriginId| remap(e[entry_of(e, k)].1),
    )
}

/// The v1 track-to-origin map, built from the origins bound to a migrated identifier; of
/// several origins bound to one, the last entry's is kept.
pub open spec fn migrated_track_to_origin(e: Seq<(OriginId, TrackId)>) -> Map<TrackId, OriginId> {
    Map::new(|t: TrackId| last_entry_to(e, t) >= 0, |t: TrackId| e[last_entry_to(e, t)].0)
}

/// A v0 state whose origins are all bound to migrated tracks.
pub open spec fn v0_consistent(
    ids: Seq<TrackId>,
    tracks: Map<TrackId, TrackInfo>,
    e: Seq<(OriginId, TrackId)>,
) -> bool {
    forall|i: int| 0 <= i < e.len() ==> #[trigger] migrated(ids, tracks, e[i].1)
}

pub open spec fn is_migrated_pred(tracks: Map<TrackId, TrackInfo>) -> spec_fn(TrackId) -> bool {
    |id: TrackId| tracks.contains_key(id) && group_of(id) == 0
}

pub open spec fn is_group0_entry() -> spec_fn((OriginId, TrackId)) -> bool {
    |x: (OriginId, TrackId)| group_of(x.1) == 0
}

pub open spec fn is_changed_entry() -> spec_fn((OriginId, TrackId)) -> bool {
    |x: (OriginId, TrackId)| group_of(x.1) == 0 && moved(x.1) != x.1
}

pub open spec fn min_nat(a: nat, b: nat) -> nat {
    if a <= b {
        a
    } else {
        b
    }
}

/// The database reads of the migration.
pub open spec fn migration_reads(
    ids: Seq<TrackId>,
    tracks: Map<TrackId, TrackInfo>,
    e: Seq<(OriginId, TrackId)>,
) -> nat {
    1 + ids.len() + min_nat(tracks.len(), ids.len()) + e.len()
}

/// The database writes of the migration.
pub open spec fn migration_writes(
    ids: Seq<TrackId>,
    tracks: Map<TrackId, TrackInfo>,
    e: Seq<(OriginId, TrackId)>,
) -> nat {
    min_nat(tracks.len(), ids.len()) + ids.filter(is_migrated_pred(tracks)).len() + 1
        + e.filter(is_changed_entry()).len() + e.filter(is_group0_entry()).len() + 1
}

proof fn lemma_moved(id: TrackId)
    requires
        group_of(id) == 0,
    ensures
        id < 0x1_0000,
        moved(id) == id * 0x1_0000,
        moved(id).split_spec() == (id as u16, 0u16),
        (moved(id).split_spec().0 as u32) == id,
        moved(id) == id <==> id == 0,
{
}

proof fn lemma_moved_injective(a: TrackId, b: TrackId)
    requires
        group_of(a) == 0,
        group_of(b) == 0,
        moved(a) == moved(b),
    ensures
        a == b,
{
    lemma_moved(a);
    lemma_moved(b);
}

proof fn lemma_origin_push(p: Seq<(OriginId, TrackId)>, x: (OriginId, TrackId))
    requires
        keys_distinct(p.push(x)),
    ensures
        migrated_origin_to_track(p.push(x)) == migrated_origin_to_track(p).insert(x.0, remap(x.1)),
{
    let q = p.push(x);
    let a = migrated_origin_to_track(q);
    let b = migrated_origin_to_track(p).insert(x.0, remap(x.1));
    assert forall|k: OriginId| a.contains_key(k) <==> b.contains_key(k) by {
        if a.contains_key(k) && k != x.0 {
            let i = choose|i: int| 0 <= i < q.len() && q[i].0 == k;
            assert(p[i].0 == k);
        }
        if b.contains_key(k) && k != x.0 {
            let i = choose|i: int| 0 <= i < p.len() && p[i].0 == k;
            assert(q[i].0 == k);
        }
        if k == x.0 {
            assert(q[p.len() as int].0 == k);
        }
    }
    assert forall|k: OriginId| #[trigger] a.contains_key(k) implies a[k] == b[k] by {
        let i = entry_of(q, k);
        assert(0 <= i < q.len() && q[i].0 == k);
        if k == x.0 {
            if i < p.len() {
                assert(q[i].0 != q[p.len() as int].0);
            }
            assert(i == p.len());
        } else {
            assert(i < p.len());
            assert(p[i].0 == k);
            let j = entry_of(p, k);
            assert(0 <= j < p.len() && p[j].0 == k);
            assert(q[j].0 == k);
            assert(i == j);
        }
    }
    assert(a =~= b);
}

proof fn lemma_last_entry_to(e: Seq<(OriginId, TrackId)>, t: TrackId)
    ensures
        -1 <= last_entry_to(e, t) < e.len(),
        last_entry_to(e, t) >= 0 ==> moves_to(e[last_entry_to(e, t)], t),
        forall|j: int| last_entry_to(e, t) < j < e.len() ==> !moves_to(#[trigger] e[j], t),
        (exists|i: int| 0 <= i < e.len() && moves_to(#[trigger] e[i], t)) ==> last_entry_to(e, t) >= 0,
    decreases e.len(),
{
    if e.len() > 0 {
        let p = e.drop_last();
        lemma_last_entry_to(p, t);
        if !moves_to(e.last(), t) {
            assert forall|j: int| last_entry_to(e, t) < j < e.len() implies !moves_to(#[trigger] e[j], t) by {
                if j < e.len() - 1 {
                    assert(e[j] == p[j]);
                }
            }
            if exists|i: int| 0 <= i < e.len() && moves_to(#[trigger] e[i], t) {
                let i = choose|i: int| 0 <= i < e.len() && moves_to(#[trigger] e[i], t);
                assert(i < e.len() - 1);
                assert(p[i] == e[i]);
            }
        }
    }
}

proof fn lemma_track_push(p: Seq<(OriginId, TrackId)>, x: (OriginId, TrackId))
    ensures
        migrated_track_to_origin(p.push(x)) == (if group_of(x.1) == 0 {
            migrated_track_to_origin(p).insert(moved(x.1), x.0)
        } else {
            migrated_track_to_origin(p)
        }),
{
    let q = p.push(x);
    assert(q.drop_last() =~= p);
    assert(q.last() == x);
    let a = migrated_track_to_origin(q);
    let b = if group_of(x.1) == 0 {
        migrated_track_to_origin(p).insert(moved(x.1), x.0)
    } else {
        migrated_track_to_origin(p)
    };
    assert forall|t: TrackId| a.contains_key(t) <==> b.contains_key(t) by {
        assert(last_entry_to(q, t) == if moves_to(x, t) { p.len() as int } else { last_entry_to(p, t) });
    }
    assert forall|t: TrackId| #[trigger] a.contains_key(t) implies a[t] == b[t] by {
        assert(last_entry_to(q, t) == if moves_to(x, t) { p.len() as int } else { last_entry_to(p, t) });
        lemma_last_entry_to(p, t);
        if !moves_to(x, t) {
            assert(q[last_entry_to(p, t)] == p[last_entry_to(p, t)]);
        }
    }
    assert(a =~= b);
}

/// The migration of the tracks storage from flat track ids to split `(group, sub-track)` ids.
pub struct MigrateV0ToV1;

impl MigrateV0ToV1 {
    /// Migrates a v0 state: each listed and configured v0 track `n` that fits in a half
    /// becomes the first track `(n, 0)` of group `n`; origins are re-bound to the new ids and
    /// the reverse mapping is built; the next group id follows the highest listed v0 id that
    /// fits in a half (it is 1 when there is none).
    /// Returns the v1 state and the weight of the database accesses.
    pub fn on_runtime_upgrade(v0: &TracksV0, max_tracks: u32, db: RuntimeDbWeight) -> (r: (
        Pallet,
        Weight,
    ))
        requires
            v0.track_ids@.len() <= max_tracks,
            v0.origin_entries@.len() <= u32::MAX,
            keys_distinct(v0.origin_entries@),
            !listed_group(v0.track_ids@, 0xffff),
        ensures
            ({
                let ids = v0.track_ids@;
                let tracks = v0.tracks@;
                let e = v0.origin_entries@;
                let w = r.0@;
                &&& w.max_tracks == max_tracks
                &&& w.tracks == migrated_tracks(ids, tracks)
                &&& w.track_ids == w.tracks.dom()
                &&& w.origin_to_track_id == migrated_origin_to_track(e)
                &&& w.track_id_to_origin == migrated_track_to_origin(e)
                &&& w.next_sub_track_id == Map::<GroupId, SubTrackId>::empty()
                &&& forall|id: TrackId| listed_group(ids, id) ==> id < w.next_group_id
                &&& (w.next_group_id == 1 || listed_group(ids, (w.next_group_id - 1) as u32))
                &&& r.1 == db.reads_writes_spec(
                    migration_reads(ids, tracks, e) as u64,
                    migration_writes(ids, tracks, e) as u64,
                )
                &&& v0_consistent(ids, tracks, e) && tracks_distinct(e) ==> r.0.wf()
            }),
    {
        let ghost ids = v0.track_ids@;
        let ghost old_tracks = v0.tracks@;
        let ghost e = v0.origin_entries@;
        let mut p = Pallet::new(max_tracks);
        let n = v0.track_ids.len();
        let mut max_group: u16 = 0;
        let mut migrations: u64 = 0;
        let mut i: usize = 0;
        proof {
            p.track_ids.lemma_wf_facts();
        }
        while i < n
            invariant
                n == ids.len(),
                ids == v0.track_ids@,
                old_tracks == v0.tracks@,
                i <= n,
                n <= max_tracks,
                !listed_group(ids, 0xffff),
                p.track_ids.wf(),
                p@.max_tracks == max_tracks,
                p@.next_group_id == 0,
                p@.next_sub_track_id == Map::<GroupId, SubTrackId>::empty(),
                p@.origin_to_track_id == Map::<OriginId, TrackId>::empty(),
                p@.track_id_to_origin == Map::<TrackId, OriginId>::empty(),
                p@.tracks == migrated_tracks(ids.take(i as int), old_tracks),
                p@.track_ids == p@.tracks.dom(),
                p.track_ids.seq().len() <= i,
                migrations == ids.take(i as int).filter(is_migrated_pred(old_tracks)).len(),
                forall|id: TrackId| listed_group(ids.take(i as int), id) ==> id <= max_group,
                max_group == 0 || listed_group(ids.take(i as int), max_group as u32),
            decreases n - i,
        {
            let old_id = v0.track_ids[i];
            let ghost prev = ids.take(i as int);
            let ghost next = ids.take(i + 1);
            proof {
                assert(next =~= prev.push(old_id));
                p.track_ids.lemma_wf_facts();
                assert forall|id: TrackId| next.contains(id) <==> (prev.contains(id) || id == old_id) by {
                    if next.contains(id) && id != old_id {
                        let k = choose|k: int| 0 <= k < next.len() && next[k] == id;
                        assert(prev[k] == id);
                    }
                    if prev.contains(id) {
                        let k = choose|k: int| 0 <= k < prev.len() && prev[k] == id;
                        assert(next[k] == id);
                    }
                    if id == old_id {
                        assert(next[i as int] == id);
                    }
                }
            }
            let (upper, lower) = old_id.split();
            if upper == 0 && lower > max_group {
                max_group = lower;
            }
            proof {
                if upper == 0 {
                    lemma_moved(old_id);
                    assert(lower as u32 == old_id);
                }
                assert forall|id: TrackId| listed_group(next, id) implies id <= max_group by {
                    if id != old_id {
                        assert(prev.contains(id));
                        assert(listed_group(prev, id));
                    } else {
                        assert(upper == group_of(old_id));
                    }
                }
            }
            match v0.tracks.get(&old_id) {
                Some(info) => {
                    if upper == 0 {
                        let new_id = u32::combine(lower, 0);
                        proof {
                            lemma_moved(old_id);
                            assert(lower as u32 == old_id);
                        }
                        p.tracks.insert(new_id, *info);
                        if (p.track_ids.len() as u64) < (max_tracks as u64) || p.track_ids.contains(new_id) {
                            p.track_ids.insert(new_id);
                        }
                        migrations = migrations + 1;
                    }
                },
                None => {},
            }
            proof {
                assert(p@.tracks =~= migrated_tracks(next, old_tracks)) by {
                    assert forall|t: TrackId| #[trigger] p@.tracks.contains_key(t) <==> migrated_tracks(next, old_tracks).contains_key(t) by {
                        if group_of(old_id) == 0 && old_tracks.contains_key(old_id) && t == moved(old_id) {
                            lemma_moved(old_id);
                        }
                        if t.split_spec().1 == 0 && t.split_spec().0 as u32 == old_id {
                            crate::split_id::lemma_u32_combine_split(t);
                            if group_of(old_id) == 0 {
                                lemma_moved(old_id);
                            }
                        }
                    }
                    assert forall|t: TrackId| #[trigger] p@.tracks.contains_key(t) implies p@.tracks[t] == migrated_tracks(next, old_tracks)[t] by {
                        if group_of(old_id) == 0 && old_tracks.contains_key(old_id) && t == moved(old_id) {
                            lemma_moved(old_id);
                        }
                    }
                }
                p.track_ids.lemma_wf_facts();
                assert(p@.track_ids =~= p@.tracks.dom());
                assert(prev.push(old_id) == next);
                vstd::seq::Seq::lemma_filter_push(prev, old_id, is_migrated_pred(old_tracks));
                if max_group != 0 {
                    if listed_group(prev, max_group as u32) {
                        assert(listed_group(next, max_group as u32));
                    } else {
                        assert(max_group as u32 == old_id);
                        assert(listed_group(next, old_id));
                    }
                }
            }
            i = i + 1;
        }
        let removed: u64 = if v0.tracks.len() <= n { v0.tracks.len() as u64 } else { n as u64 };
        let mut changed: u64 = 0;
        let mut group0: u64 = 0;
        let m = v0.origin_entries.len();
        let mut j: usize = 0;
        proof {
            assert(ids.take(n as int) =~= ids);
            assert(e.take(0) =~= Seq::<(OriginId, TrackId)>::empty());
            assert(migrated_origin_to_track(e.take(0)) =~= Map::<OriginId, TrackId>::empty());
            assert(migrated_track_to_origin(e.take(0)) =~= Map::<TrackId, OriginId>::empty());
        }
        while j < m
            invariant
                m == e.len(),
                e == v0.origin_entries@,
                m <= u32::MAX,
                j <= m,
                keys_distinct(e),
                p.track_ids.wf(),
                p@.max_tracks == max_tracks,
                p@.next_group_id == 0,
                p@.next_sub_track_id == Map::<GroupId, SubTrackId>::empty(),
                p@.tracks == migrated_tracks(ids, old_tracks),
                p@.track_ids == p@.tracks.dom(),
                p.track_ids.seq().len() <= ids.len(),
                p@.origin_to_track_id == migrated_origin_to_track(e.take(j as int)),
                p@.track_id_to_origin == migrated_track_to_origin(e.take(j as int)),
                changed == e.take(j as int).filter(is_changed_entry()).len(),
                group0 == e.take(j as int).filter(is_group0_entry()).len(),
                changed <= j,
                group0 <= j,
            decreases m - j,
        {
            let (key, old_id) = v0.origin_entries[j];
            let ghost prev = e.take(j as int);
            proof {
                assert(e.take(j + 1) =~= prev.push((key, old_id)));
                assert(keys_distinct(prev.push((key, old_id))));
                lemma_origin_push(prev, (key, old_id));
                lemma_track_push(prev, (key, old_id));
                vstd::seq::Seq::lemma_filter_push(prev, (key, old_id), is_changed_entry());
                vstd::seq::Seq::lemma_filter_push(prev, (key, old_id), is_group0_entry());
            }
            let (upper, lower) = old_id.split();
            if upper == 0 {
                let new_id = u32::combine(lower, 0);
                proof {
                    lemma_moved(old_id);
                }
                if new_id != old_id {
                    changed = changed + 1;
                }
                p.origin_to_track_id.insert(key, new_id);
                p.track_id_to_origin.insert(new_id, key);
                group0 = group0 + 1;
            } else {
                p.origin_to_track_id.insert(key, old_id);
            }
            j = j + 1;
        }
        proof {
            assert(e.take(m as int) =~= e);
            if max_group == 0xffff {
                assert(listed_group(ids, max_group as u32));
            }
        }
        p.next_group_id = max_group + 1;
        let reads: u64 = 1 + n as u64 + removed + m as u64;
        let writes: u64 = removed + migrations + 1 + changed + group0 + 1;
        let weight = db.reads_writes(reads, writes);
        proof {
            p.track_ids.lemma_wf_facts();
            vstd::std_specs::hash::axiom_spec_hash_map_len(&v0.tracks);
            let w = p@;
            if v0_consistent(ids, old_tracks, e) && tracks_distinct(e) {
                assert forall|o: OriginId| #[trigger]
                    w.origin_to_track_id.contains_key(o) implies w.track_id_to_origin.contains_key(
                    w.origin_to_track_id[o],
                ) && w.track_id_to_origin[w.origin_to_track_id[o]] == o by {
                    let i = entry_of(e, o);
                    assert(migrated(ids, old_tracks, e[i].1));
                    let t = moved(e[i].1);
                    assert(w.origin_to_track_id[o] == t);
                    lemma_last_entry_to(e, t);
                    assert(moves_to(e[i], t));
                    assert(w.track_id_to_origin.contains_key(t));
                    let k = last_entry_to(e, t);
                    assert(group_of(e[k].1) == 0 && moved(e[k].1) == t);
                    lemma_moved_injective(e[k].1, e[i].1);
                    if k != i {
                        if k < i {
                            assert(e[k].1 != e[i].1);
                        } else {
                            assert(e[i].1 != e[k].1);
                        }
                    }
                }
                assert forall|t: TrackId| #[trigger]
                    w.track_id_to_origin.contains_key(t) implies w.origin_to_track_id.contains_key(
                    w.track_id_to_origin[t],
                ) && w.origin_to_track_id[w.track_id_to_origin[t]] == t && w.tracks.contains_key(t) by {
                    lemma_last_entry_to(e, t);
                    let k = last_entry_to(e, t);
                    let o = e[k].0;
                    assert(w.origin_to_track_id.contains_key(o));
                    let i = entry_of(e, o);
                    if i != k {
                        if i < k {
                            assert(e[i].0 != e[k].0);
                        } else {
                            assert(e[k].0 != e[i].0);
                        }
                    }
                    assert(migrated(ids, old_tracks, e[k].1));
                    lemma_moved(e[k].1);
                }
                assert(consistent(w));
            }
        }
        (p, weight)
    }
}

/// Why a check around the migration failed.
#[derive(Clone, Copy, Debug, PartialEq, Eq)]
pub enum MigrationCheckError {
    /// An old track ID does not fit in the group half.
    IdExceedsHalf,
    /// The state recorded before the upgrade cannot be decoded.
    UndecodableState,
    /// The number of tracks changed.
    CountMismatch,
    /// A track id has no configuration.
    TrackMissing,
    /// An origin's track has no reverse mapping.
    ReverseMissing,
    /// The next group id was not set.
    NextGroupUnset,
}

/// The message the runtime reports for a failure of the migration checks.
pub open spec fn migration_message(e: MigrationCheckError) -> Seq<char> {
    match e {
        MigrationCheckError::IdExceedsHalf => "Old track ID exceeds Half range, migration would lose data"@,
        MigrationCheckError::UndecodableState => "Failed to decode pre-upgrade state"@,
        MigrationCheckError::CountMismatch => "Track count mismatch after migration"@,
        MigrationCheckError::TrackMissing => "Track not found in new storage"@,
        MigrationCheckError::ReverseMissing => "TrackIdToOrigin missing entry"@,
        MigrationCheckError::NextGroupUnset => "NextGroupId not initialized after migration"@,
    }
}

impl MigrationCheckError {
    /// The message the runtime reports for this failure.
    pub fn message(&self) -> (r: &'static str)
        ensures
            r@ == migration_message(*self),
    {
        match self {
            MigrationCheckError::IdExceedsHalf => "Old track ID exceeds Half range, migration would lose data",
            MigrationCheckError::UndecodableState => "Failed to decode pre-upgrade state",
            MigrationCheckError::CountMismatch => "Track count mismatch after migration",
            MigrationCheckError::TrackMissing => "Track not found in new storage",
            MigrationCheckError::ReverseMissing => "TrackIdToOrigin missing entry",
            MigrationCheckError::NextGroupUnset => "NextGroupId not initialized after migration",
        }
    }
}

impl MigrateV0ToV1 {
    /// Checks before the upgrade that every old track ID fits in the group half, and records
    /// the number of old track IDs (SCALE-encoded) for [`Self::post_upgrade`].
    pub fn pre_upgrade(v0: &TracksV0) -> (r: Result<Vec<u8>, MigrationCheckError>)
        requires
            v0.track_ids@.len() <= u32::MAX,
        ensures
            match r {
                Err(e) => e == MigrationCheckError::IdExceedsHalf && exists|i: int|
                    0 <= i < v0.track_ids@.len() && group_of(#[trigger] v0.track_ids@[i]) != 0,
                Ok(bytes) => bytes@ == le_bytes_u32(v0.track_ids@.len() as u32) && forall|i: int|
                    0 <= i < v0.track_ids@.len() ==> group_of(#[trigger] v0.track_ids@[i]) == 0,
            },
    {
        let n = v0.track_ids.len();
        let mut i: usize = 0;
        while i < n
            invariant
                n == v0.track_ids@.len(),
                i <= n,
                forall|j: int| 0 <= j < i ==> group_of(#[trigger] v0.track_ids@[j]) == 0,
            decreases n - i,
        {
            let (upper, _) = v0.track_ids[i].split();
            if upper != 0 {
                return Err(MigrationCheckError::IdExceedsHalf);
            }
            i = i + 1;
        }
        Ok(encode_u32(n as u32))
    }
}

impl Pallet {
    /// Checks after the upgrade, against the state recorded by
    /// [`MigrateV0ToV1::pre_upgrade`], in this order: that the number of listed track ids is
    /// unchanged, that every listed id has a configuration, that every origin's track has a
    /// reverse mapping, and that the next group id is set when there are tracks.
    pub fn post_upgrade(&self, state: &Vec<u8>) -> (r: Result<(), MigrationCheckError>)
        ensures
            r == (if state@.len() < 4 {
                Err(MigrationCheckError::UndecodableState)
            } else if u32_from_le(state@) != (self.track_id_seq().len() as u32) {
                Err(MigrationCheckError::CountMismatch)
            } else if exists|t: TrackId| #[trigger] self@.track_ids.contains(t) && !self@.tracks.contains_key(t) {
                Err(MigrationCheckError::TrackMissing)
            } else if exists|o: OriginId|
                #[trigger] self@.origin_to_track_id.contains_key(o) && !self@.track_id_to_origin.contains_key(
                    self@.origin_to_track_id[o],
                ) {
                Err(MigrationCheckError::ReverseMissing)
            } else if self@.next_group_id == 0 && self.track_id_seq().len() != 0 {
                Err(MigrationCheckError::NextGroupUnset)
            } else {
                Ok(())
            }),
    {
        let expected = match decode_u32(state.as_slice()) {
            Some(c) => c,
            None => return Err(MigrationCheckError::UndecodableState),
        };
        let n = self.track_ids.count();
        let actual = n as u32;
        if expected != actual {
            return Err(MigrationCheckError::CountMismatch);
        }
        let ids = self.track_ids.to_vec();
        let mut i: usize = 0;
        while i < n
            invariant
                n == ids@.len(),
                ids@ == self.track_id_seq(),
                self@.track_ids == ids@.to_set(),
                i <= n,
                state@.len() >= 4,
                u32_from_le(state@) == (self.track_id_seq().len() as u32),
                forall|j: int| 0 <= j < i ==> self@.tracks.contains_key(#[trigger] ids@[j]),
            decreases n - i,
        {
            if !self.tracks.contains_key(&ids[i]) {
                proof {
                    let t = ids@[i as int];
                    assert(ids@.contains(t));
                    assert(self@.track_ids.contains(t) && !self@.tracks.contains_key(t));
                }
                return Err(MigrationCheckError::TrackMissing);
            }
            i = i + 1;
        }
        proof {
            assert forall|t: TrackId| #[trigger] self@.track_ids.contains(t) implies self@.tracks.contains_key(t) by {
                assert(ids@.contains(t));
                let j = choose|j: int| 0 <= j < ids@.len() && ids@[j] == t;
                assert(self@.tracks.contains_key(ids@[j]));
            }
        }
        let ghost entries = vstd::std_specs::iter::IteratorSpec::remaining(&vstd::std_specs::hash::spec_hash_map_iter(&self.origin_to_track_id));
        for (o, t) in it: self.origin_to_track_id.iter()
            invariant
                it.seq() == entries,
                state@.len() >= 4,
                u32_from_le(state@) == (self.track_id_seq().len() as u32),
                forall|t: TrackId| #[trigger] self@.track_ids.contains(t) ==> self@.tracks.contains_key(t),
                entries == vstd::std_specs::iter::IteratorSpec::remaining(&vstd::std_specs::hash::spec_hash_map_iter(&self.origin_to_track_id)),
                forall|j: int| 0 <= j < it.index() ==> self@.track_id_to_origin.contains_key(*(#[trigger] entries[j]).1),
        {
            if !self.track_id_to_origin.contains_key(t) {
                proof {
                    let j = it.index();
                    assert(entries[j] == (o, t));
                    let m = self@.origin_to_track_id;
                    assert(m.contains_key(*entries[j].0) && m[*entries[j].0] == *entries[j].1);
                    assert(m.contains_key(*o) && !self@.track_id_to_origin.contains_key(m[*o]));
                }
                return Err(MigrationCheckError::ReverseMissing);
            }
        }
        proof {
            assert forall|o: OriginId| #[trigger] self@.origin_to_track_id.contains_key(o) implies self@.track_id_to_origin.contains_key(
                self@.origin_to_track_id[o],
            ) by {
                let m = self@.origin_to_track_id;
                assert(entries.contains((&o, &m[o])));
                let j = choose|j: int| 0 <= j < entries.len() && entries[j] == (&o, &m[o]);
                assert(self@.track_id_to_origin.contains_key(*entries[j].1));
            }
        }
        if self.next_group_id == 0 && n != 0 {
            return Err(MigrationCheckError::NextGroupUnset);
        }
        Ok(())
    }
}

} // verus!
