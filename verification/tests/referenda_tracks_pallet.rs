use frame_contrib::referenda_tracks::{
    Curve, Error, Event, MigrateV0ToV1, Pallet, TrackInfo, TracksV0, UpdateType,
};
use frame_contrib::weight::RuntimeDbWeight;
use std::collections::HashMap;

const MAX_TRACKS: u32 = 255;

const ORIGIN_SIGNED_1: u64 = 1;
const ORIGIN_SIGNED_2: u64 = 2;
const ORIGIN_SIGNED_3: u64 = 3;
const ORIGIN_SIGNED_4: u64 = 4;
const ORIGIN_SIGNED_5: u64 = 5;
const ORIGIN_SIGNED_10: u64 = 10;

fn percent(x: u32) -> u32 {
    x * 10_000_000
}

fn track() -> TrackInfo {
    let mut name = [0u8; 25];
    name[..10].copy_from_slice(b"Test Track");
    TrackInfo {
        name,
        max_deciding: 1,
        decision_deposit: 0,
        prepare_period: 10,
        decision_period: 100,
        confirm_period: 10,
        min_enactment_period: 2,
        min_approval: Curve::LinearDecreasing { length: percent(100), floor: percent(50), ceil: percent(100) },
        min_support: Curve::LinearDecreasing { length: percent(100), floor: percent(0), ceil: percent(50) },
    }
}

fn combine(group: u16, sub: u16) -> u32 {
    ((group as u32) << 16) | sub as u32
}

/// An empty pallet.
fn new_pallet() -> Pallet {
    Pallet::new(MAX_TRACKS)
}

/// A pallet with one group, made for `ORIGIN_SIGNED_1`: its track is 65536.
fn with_track() -> Pallet {
    let mut p = new_pallet();
    p.new_group_with_track(ORIGIN_SIGNED_1, track()).unwrap();
    p
}

fn approval_curve() -> Curve {
    Curve::LinearDecreasing { length: percent(80), floor: percent(40), ceil: percent(90) }
}

fn support_curve() -> Curve {
    Curve::Reciprocal { factor: 1_000_000_000, x_offset: 10_000_000, y_offset: 5_000_000 }
}

// insert

#[test]
fn tests_it_works() {
    let mut p = new_pallet();
    assert_eq!(p.new_group_with_track(ORIGIN_SIGNED_1, track()), Ok(Event::Created { id: 65536 }));
    assert_eq!(p.get_track_info(65536), Some(track()));
}

#[test]
fn it_fails_if_inserting_an_already_existing_track() {
    let mut p = new_pallet();
    p.new_group_with_track(ORIGIN_SIGNED_1, track()).unwrap();
    assert_eq!(p.new_group_with_track(ORIGIN_SIGNED_1, track()), Err(Error::TrackIdAlreadyExisting));
}

#[test]
fn fails_if_exceeds_max_tracks() {
    let mut p = new_pallet();
    for i in 0..MAX_TRACKS {
        if let Err(e) = p.new_group_with_track(i as u64, track()) {
            assert_eq!(e, Error::MaxTracksExceeded);
            return;
        }
    }
    assert_eq!(p.new_group_with_track(MAX_TRACKS as u64, track()), Err(Error::MaxTracksExceeded));
}

// validation

#[test]
fn insert_fails_with_zero_max_deciding() {
    let mut p = new_pallet();
    let mut bad_track = track();
    bad_track.max_deciding = 0;
    assert_eq!(p.new_group_with_track(ORIGIN_SIGNED_1, bad_track), Err(Error::InvalidTrackInfo));
}

#[test]
fn insert_fails_with_zero_decision_period() {
    let mut p = new_pallet();
    let mut bad_track = track();
    bad_track.decision_period = 0;
    assert_eq!(p.new_group_with_track(ORIGIN_SIGNED_1, bad_track), Err(Error::InvalidTrackInfo));
}

#[test]
fn set_periods_fails_with_zero_decision_period() {
    let mut p = with_track();
    assert_eq!(p.set_periods(65536, None, Some(0), None, None), Err(Error::InvalidTrackInfo));
}

#[test]
fn insert_fails_with_zero_confirm_period() {
    let mut p = new_pallet();
    let mut bad_track = track();
    bad_track.confirm_period = 0;
    assert_eq!(p.new_group_with_track(ORIGIN_SIGNED_1, bad_track), Err(Error::InvalidTrackInfo));
}

#[test]
fn set_periods_fails_with_zero_confirm_period() {
    let mut p = with_track();
    assert_eq!(p.set_periods(65536, None, None, Some(0), None), Err(Error::InvalidTrackInfo));
}

#[test]
fn add_sub_track_fails_with_zero_max_deciding() {
    let mut p = new_pallet();
    let mut bad_track = track();
    bad_track.max_deciding = 0;
    assert_eq!(p.add_sub_track(0, ORIGIN_SIGNED_1, bad_track), Err(Error::InvalidTrackInfo));
}

#[test]
fn set_max_deciding_fails_with_zero() {
    let mut p = with_track();
    assert_eq!(p.set_max_deciding(65536, 0), Err(Error::InvalidTrackInfo));
}

// add_sub_track

#[test]
fn add_sub_track_it_works() {
    let mut p = new_pallet();
    // The first sub-track of group 0 is sub-track 1.
    let expected_id = combine(0, 1);
    assert_eq!(expected_id, 1);
    assert_eq!(p.add_sub_track(0, ORIGIN_SIGNED_1, track()), Ok(Event::Created { id: expected_id }));
    assert_eq!(p.get_track_info(expected_id), Some(track()));
}

#[test]
fn auto_increments_sub_track_ids() {
    let mut p = new_pallet();
    p.add_sub_track(0, ORIGIN_SIGNED_2, track()).unwrap();
    p.add_sub_track(0, ORIGIN_SIGNED_3, track()).unwrap();
    assert_eq!(p.get_track_info(combine(0, 1)), Some(track()));
    assert_eq!(p.get_track_info(combine(0, 2)), Some(track()));
}

#[test]
fn sub_tracks_across_groups_auto_increment_independently() {
    let mut p = new_pallet();
    p.add_sub_track(0, ORIGIN_SIGNED_1, track()).unwrap();
    p.add_sub_track(1, ORIGIN_SIGNED_10, track()).unwrap();
    assert_eq!(p.get_track_info(combine(0, 1)), Some(track()));
    assert_eq!(p.get_track_info(combine(1, 1)), Some(track()));
}

#[test]
fn fails_if_origin_already_mapped() {
    let mut p = new_pallet();
    p.add_sub_track(0, ORIGIN_SIGNED_1, track()).unwrap();
    assert_eq!(p.add_sub_track(0, ORIGIN_SIGNED_1, track()), Err(Error::TrackIdAlreadyExisting));
}

// multi_group

#[test]
fn groups_coexist() {
    let mut p = new_pallet();
    p.new_group_with_track(ORIGIN_SIGNED_1, track()).unwrap();
    p.new_group_with_track(ORIGIN_SIGNED_2, track()).unwrap();
    assert_eq!(p.get_track_info(combine(1, 0)), Some(track()));
    assert_eq!(p.get_track_info(combine(2, 0)), Some(track()));
}

#[test]
fn tracks_and_track_ids_are_consistent() {
    let mut p = new_pallet();
    p.new_group_with_track(ORIGIN_SIGNED_1, track()).unwrap();
    p.new_group_with_track(ORIGIN_SIGNED_2, track()).unwrap();
    let track_ids = p.track_ids();
    assert_eq!(track_ids.len(), 2);
    for id in &track_ids {
        assert!(p.get_track_info(*id).is_some());
    }
}

#[test]
fn group_with_sub_tracks_consistent() {
    let mut p = new_pallet();
    p.new_group_with_track(ORIGIN_SIGNED_1, track()).unwrap();
    p.add_sub_track(0, ORIGIN_SIGNED_3, track()).unwrap();
    let track_ids = p.track_ids();
    assert_eq!(track_ids.len(), 2);
    for id in &track_ids {
        assert!(p.get_track_info(*id).is_some());
    }
}

// remove_edge_cases: `busy` lists the tracks with deciding referenda.

#[test]
fn fails_with_active_referenda_deciding() {
    let mut p = with_track();
    assert_eq!(p.remove(65536, &vec![65536]), Err(Error::CannotRemove));
    assert_eq!(p.get_track_info(65536), Some(track()));
}

#[test]
fn succeeds_after_referenda_cleared() {
    let mut p = with_track();
    assert_eq!(p.remove(65536, &vec![65536]), Err(Error::CannotRemove));
    assert!(p.remove(65536, &vec![]).is_ok());
}

#[test]
fn origin_can_be_reused_after_removal() {
    let mut p = with_track();
    p.remove(65536, &vec![]).unwrap();
    assert!(p.new_group_with_track(ORIGIN_SIGNED_1, track()).is_ok());
}

// update

#[test]
fn update_it_works() {
    let mut p = with_track();
    let mut expected = track();
    expected.decision_deposit = 100;
    assert_eq!(
        p.set_decision_deposit(65536, 100),
        Ok(Event::Updated { id: 65536, update_type: UpdateType::DecisionDeposit })
    );
    assert_eq!(p.get_track_info(65536), Some(expected));
}

// remove

#[test]
fn remove_it_works() {
    let mut p = with_track();
    assert_eq!(p.remove(65536, &vec![]), Ok(Event::Removed { id: 65536 }));
    assert_eq!(p.get_track_info(65536), None);
}

#[test]
fn tests_cleans_up_origin_mappings() {
    let mut p = with_track();
    assert_eq!(p.track_for(ORIGIN_SIGNED_1), Some(65536));
    p.remove(65536, &vec![]).unwrap();
    assert_eq!(p.track_for(ORIGIN_SIGNED_1), None);
    assert_eq!(p.origin_of(65536), None);
}

// set_decision_deposit

#[test]
fn set_decision_deposit_it_works() {
    let mut p = with_track();
    let new_deposit = 5000;
    assert_eq!(
        p.set_decision_deposit(65536, new_deposit),
        Ok(Event::Updated { id: 65536, update_type: UpdateType::DecisionDeposit })
    );
    assert_eq!(p.get_track_info(65536).unwrap().decision_deposit, new_deposit);
}

// set_periods

#[test]
fn it_works_with_all_periods() {
    let mut p = with_track();
    assert_eq!(
        p.set_periods(65536, Some(20), Some(200), Some(15), Some(5)),
        Ok(Event::Updated { id: 65536, update_type: UpdateType::Periods })
    );
    let updated_track = p.get_track_info(65536).unwrap();
    assert_eq!(updated_track.prepare_period, 20);
    assert_eq!(updated_track.decision_period, 200);
    assert_eq!(updated_track.confirm_period, 15);
    assert_eq!(updated_track.min_enactment_period, 5);
}

#[test]
fn tests_fails_with_all_none() {
    let mut p = with_track();
    assert_eq!(p.set_periods(65536, None, None, None, None), Err(Error::NothingToUpdate));
}

#[test]
fn it_works_with_partial_periods() {
    let mut p = with_track();
    let original_prepare = track().prepare_period;
    p.set_periods(65536, None, Some(200), None, None).unwrap();
    let updated_track = p.get_track_info(65536).unwrap();
    assert_eq!(updated_track.prepare_period, original_prepare);
    assert_eq!(updated_track.decision_period, 200);
}

// set_curves

#[test]
fn it_works_with_approval_curve() {
    let mut p = with_track();
    assert_eq!(
        p.set_curves(65536, Some(approval_curve()), None),
        Ok(Event::Updated { id: 65536, update_type: UpdateType::Curves })
    );
    assert_eq!(p.get_track_info(65536).unwrap().min_approval, approval_curve());
}

#[test]
fn it_works_with_both_curves() {
    let mut p = with_track();
    p.set_curves(65536, Some(approval_curve()), Some(support_curve())).unwrap();
    let updated_track = p.get_track_info(65536).unwrap();
    assert_eq!(updated_track.min_approval, approval_curve());
    assert_eq!(updated_track.min_support, support_curve());
}

#[test]
fn set_curves_fails_with_all_none() {
    let mut p = with_track();
    assert_eq!(p.set_curves(65536, None, None), Err(Error::NothingToUpdate));
}

#[test]
fn it_works_with_partial_curves() {
    let mut p = with_track();
    let original_approval = track().min_approval;
    p.set_curves(65536, None, Some(support_curve())).unwrap();
    let updated_track = p.get_track_info(65536).unwrap();
    assert_eq!(updated_track.min_approval, original_approval);
    assert_eq!(updated_track.min_support, support_curve());
}

// set_max_deciding

#[test]
fn set_max_deciding_it_works() {
    let mut p = with_track();
    assert_eq!(
        p.set_max_deciding(65536, 5),
        Ok(Event::Updated { id: 65536, update_type: UpdateType::MaxDeciding })
    );
    assert_eq!(p.get_track_info(65536).unwrap().max_deciding, 5);
}

#[test]
fn fails_with_zero() {
    let mut p = with_track();
    assert_eq!(p.set_max_deciding(65536, 0), Err(Error::InvalidTrackInfo));
}

// remove_group

#[test]
fn fails_if_group_not_found() {
    let mut p = new_pallet();
    assert_eq!(p.remove_group(99, 10, &vec![]), Err(Error::GroupNotFound));
}

#[test]
fn removes_group_with_single_track() {
    let mut p = with_track();
    let id = combine(1, 0);
    assert_eq!(p.get_track_info(id), Some(track()));
    assert_eq!(p.remove_group(1, 10, &vec![]), Ok(Event::GroupRemoved { group: 1, tracks_removed: 1 }));
    assert_eq!(p.get_track_info(id), None);
    assert_eq!(p.track_ids().len(), 0);
}

#[test]
fn removes_group_with_multiple_sub_tracks() {
    let mut p = new_pallet();
    p.new_group_with_track(ORIGIN_SIGNED_1, track()).unwrap();
    p.add_sub_track(0, ORIGIN_SIGNED_3, track()).unwrap();
    p.add_sub_track(0, ORIGIN_SIGNED_4, track()).unwrap();
    let id_0_1 = combine(0, 1);
    let id_0_2 = combine(0, 2);
    let id_1_0 = combine(1, 0);
    assert_eq!(p.get_track_info(id_0_1), Some(track()));
    assert_eq!(p.get_track_info(id_0_2), Some(track()));
    assert_eq!(p.get_track_info(id_1_0), Some(track()));
    assert!(p.remove_group(0, 10, &vec![]).is_ok());
    assert_eq!(p.get_track_info(id_0_1), None);
    assert_eq!(p.get_track_info(id_0_2), None);
    assert_eq!(p.get_track_info(id_1_0), Some(track()));
    let ids = p.track_ids();
    assert_eq!(ids.len(), 1);
    assert!(ids.contains(&id_1_0));
}

#[test]
fn fails_if_active_referenda_in_group() {
    let mut p = new_pallet();
    p.add_sub_track(0, ORIGIN_SIGNED_1, track()).unwrap();
    let id = combine(0, 1);
    assert_eq!(p.remove_group(0, 10, &vec![id]), Err(Error::CannotRemoveGroup));
    assert_eq!(p.get_track_info(id), Some(track()));
}

#[test]
fn remove_group_cleans_up_origin_mappings() {
    let mut p = with_track();
    let id = combine(1, 0);
    assert_eq!(p.track_for(ORIGIN_SIGNED_1), Some(id));
    p.remove_group(1, 10, &vec![]).unwrap();
    assert_eq!(p.track_for(ORIGIN_SIGNED_1), None);
    assert_eq!(p.origin_of(id), None);
}

#[test]
fn cleans_up_sub_track_counter() {
    let mut p = new_pallet();
    p.add_sub_track(0, ORIGIN_SIGNED_1, track()).unwrap();
    assert_eq!(p.next_sub_track_id(0), 1);
    p.remove_group(0, 10, &vec![]).unwrap();
    assert_eq!(p.next_sub_track_id(0), 0);
}

#[test]
fn fails_if_max_tracks_hint_too_low() {
    let mut p = new_pallet();
    p.add_sub_track(0, ORIGIN_SIGNED_1, track()).unwrap();
    p.add_sub_track(0, ORIGIN_SIGNED_2, track()).unwrap();
    assert_eq!(p.remove_group(0, 1, &vec![]), Err(Error::TooManyTracks));
    assert!(p.remove_group(0, 2, &vec![]).is_ok());
}

// track_for

#[test]
fn works_for_groups_created_by_root() {
    let p = with_track();
    assert_eq!(p.track_for(ORIGIN_SIGNED_1), Some(combine(1, 0)));
}

#[test]
fn works_for_sub_tracks() {
    let mut p = new_pallet();
    p.add_sub_track(0, ORIGIN_SIGNED_1, track()).unwrap();
    assert_eq!(p.track_for(ORIGIN_SIGNED_1), Some(combine(0, 1)));
}

#[test]
fn returns_err_for_unknown_origin() {
    let p = new_pallet();
    assert_eq!(p.track_for(ORIGIN_SIGNED_5), None);
}

// migration

fn db() -> RuntimeDbWeight {
    RuntimeDbWeight { read: 1, write: 1 }
}

#[test]
fn v0_to_v1_works() {
    let mut tracks = HashMap::new();
    tracks.insert(1u32, track());
    tracks.insert(2u32, track());
    let v0 = TracksV0 {
        track_ids: vec![1, 2],
        tracks,
        origin_entries: vec![(ORIGIN_SIGNED_1, 1), (ORIGIN_SIGNED_2, 2)],
    };
    let (p, _) = MigrateV0ToV1::on_runtime_upgrade(&v0, MAX_TRACKS, db());
    let new_id_1 = combine(1, 0);
    let new_id_2 = combine(2, 0);
    assert_eq!(new_id_1, 65536);
    assert_eq!(new_id_2, 131072);
    assert_eq!(p.get_track_info(new_id_1), Some(track()));
    assert_eq!(p.get_track_info(new_id_2), Some(track()));
    let ids = p.track_ids();
    assert_eq!(ids.len(), 2);
    assert!(ids.contains(&new_id_1));
    assert!(ids.contains(&new_id_2));
    assert_eq!(p.track_for(ORIGIN_SIGNED_1), Some(new_id_1));
    assert_eq!(p.track_for(ORIGIN_SIGNED_2), Some(new_id_2));
    assert_eq!(p.origin_of(new_id_1), Some(ORIGIN_SIGNED_1));
    assert_eq!(p.origin_of(new_id_2), Some(ORIGIN_SIGNED_2));
    assert_eq!(p.next_group_id(), 3);
}

#[test]
fn v0_to_v1_empty_state() {
    let v0 = TracksV0 { track_ids: vec![], tracks: HashMap::new(), origin_entries: vec![] };
    let (p, _) = MigrateV0ToV1::on_runtime_upgrade(&v0, MAX_TRACKS, db());
    assert_eq!(p.track_ids().len(), 0);
    assert_eq!(p.next_group_id(), 1);
}

#[test]
fn track_for_works_after_migration() {
    let mut tracks = HashMap::new();
    tracks.insert(1u32, track());
    let v0 = TracksV0 { track_ids: vec![1], tracks, origin_entries: vec![(ORIGIN_SIGNED_1, 1)] };
    let (p, _) = MigrateV0ToV1::on_runtime_upgrade(&v0, MAX_TRACKS, db());
    assert_eq!(p.track_for(ORIGIN_SIGNED_1), Some(combine(1, 0)));
}

// max_tracks_limits

#[test]
fn add_sub_track_respects_max_tracks() {
    let mut p = new_pallet();
    for i in 0..MAX_TRACKS {
        if let Err(e) = p.new_group_with_track(1000 + i as u64, track()) {
            assert_eq!(e, Error::MaxTracksExceeded);
            return;
        }
    }
    assert_eq!(p.new_group_with_track(9999, track()), Err(Error::MaxTracksExceeded));
}

#[test]
fn mixed_groups_and_sub_tracks_respect_max_tracks() {
    let mut p = new_pallet();
    p.new_group_with_track(ORIGIN_SIGNED_1, track()).unwrap();
    p.new_group_with_track(ORIGIN_SIGNED_10, track()).unwrap();
    p.add_sub_track(0, ORIGIN_SIGNED_3, track()).unwrap();
    let ids = p.track_ids();
    assert_eq!(ids.len(), 3);
    for id in ids.iter() {
        assert!(p.get_track_info(*id).is_some());
    }
}
