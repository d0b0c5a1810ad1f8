use frame_contrib::referenda_tracks::{Curve, Error, Event, MigrateV0ToV1, Pallet, TrackInfo, TracksV0, UpdateType};
use frame_contrib::weight::RuntimeDbWeight;
use std::collections::HashMap;

fn info() -> TrackInfo {
    TrackInfo {
        name: [0u8; 25],
        max_deciding: 1,
        decision_deposit: 10,
        prepare_period: 1,
        decision_period: 10,
        confirm_period: 1,
        min_enactment_period: 1,
        min_approval: Curve::LinearDecreasing { length: 100, floor: 50, ceil: 100 },
        min_support: Curve::LinearDecreasing { length: 100, floor: 0, ceil: 50 },
    }
}

#[test]
fn a_new_group_gets_the_next_group_id_and_sub_track_zero() {
    let mut tracks = Pallet::new(10);
    assert_eq!(tracks.new_group_with_track(7, info()), Ok(Event::Created { id: 65536 }));
    assert_eq!(tracks.next_group_id(), 1);
    assert_eq!(tracks.track_for(7), Some(65536));
    assert_eq!(tracks.origin_of(65536), Some(7));
    assert_eq!(tracks.add_sub_track(1, 8, info()), Ok(Event::Created { id: 65537 }));
    assert_eq!(tracks.track_ids(), vec![65536, 65537]);
}

#[test]
fn invalid_or_duplicate_tracks_are_refused() {
    let mut tracks = Pallet::new(10);
    let mut bad = info();
    bad.max_deciding = 0;
    assert_eq!(tracks.new_group_with_track(7, bad), Err(Error::InvalidTrackInfo));
    assert_eq!(tracks.do_insert(5, info(), 1), Ok(Event::Created { id: 5 }));
    assert_eq!(tracks.do_insert(5, info(), 2), Err(Error::TrackIdAlreadyExisting));
    assert_eq!(tracks.do_insert(6, info(), 1), Err(Error::TrackIdAlreadyExisting));
}

#[test]
fn the_track_limit_is_enforced() {
    let mut tracks = Pallet::new(1);
    assert_eq!(tracks.do_insert(5, info(), 1), Ok(Event::Created { id: 5 }));
    assert_eq!(tracks.do_insert(6, info(), 2), Err(Error::MaxTracksExceeded));
}

#[test]
fn removing_a_track_undoes_inserting_it() {
    let mut tracks = Pallet::new(10);
    tracks.do_insert(5, info(), 1).unwrap();
    assert_eq!(tracks.remove(5, &vec![]), Ok(Event::Removed { id: 5 }));
    assert_eq!(tracks.get_track_info(5), None);
    assert_eq!(tracks.track_for(1), None);
    assert!(tracks.track_ids().is_empty());
    assert_eq!(tracks.remove(5, &vec![]), Err(Error::TrackIdNotFound));
}

#[test]
fn busy_tracks_cannot_be_removed() {
    let mut tracks = Pallet::new(10);
    tracks.do_insert(5, info(), 1).unwrap();
    assert_eq!(tracks.remove(5, &vec![5]), Err(Error::CannotRemove));
    assert!(tracks.get_track_info(5).is_some());
}

#[test]
fn updates_change_only_their_fields() {
    let mut tracks = Pallet::new(10);
    tracks.do_insert(5, info(), 1).unwrap();
    assert_eq!(
        tracks.set_decision_deposit(5, 99),
        Ok(Event::Updated { id: 5, update_type: UpdateType::DecisionDeposit })
    );
    assert_eq!(tracks.get_track_info(5).unwrap().decision_deposit, 99);
    assert_eq!(
        tracks.set_periods(5, None, None, None, None),
        Err(Error::NothingToUpdate)
    );
    assert_eq!(
        tracks.set_max_deciding(5, 3),
        Ok(Event::Updated { id: 5, update_type: UpdateType::MaxDeciding })
    );
    assert_eq!(tracks.get_track_info(5).unwrap().max_deciding, 3);
    assert_eq!(tracks.set_decision_deposit(6, 1), Err(Error::TrackIdNotFound));
}

#[test]
fn removing_a_group_removes_all_its_tracks() {
    let mut tracks = Pallet::new(10);
    tracks.new_group_with_track(7, info()).unwrap();
    tracks.add_sub_track(1, 8, info()).unwrap();
    assert_eq!(tracks.remove_group(1, 1, &vec![]), Err(Error::TooManyTracks));
    assert_eq!(tracks.remove_group(1, 5, &vec![65537]), Err(Error::CannotRemoveGroup));
    assert_eq!(
        tracks.remove_group(1, 5, &vec![]),
        Ok(Event::GroupRemoved { group: 1, tracks_removed: 2 })
    );
    assert!(tracks.track_ids().is_empty());
    assert_eq!(tracks.remove_group(1, 5, &vec![]), Err(Error::GroupNotFound));
}

#[test]
fn migrating_sets_the_next_group_after_the_highest_listed_id() {
    // Track 5 is listed without a configuration: it is not migrated, yet the next group
    // follows it.
    let mut tracks = HashMap::new();
    tracks.insert(2u32, info());
    let v0 = TracksV0 { track_ids: vec![2, 5], tracks, origin_entries: vec![(1, 2)] };
    let (p, _) = MigrateV0ToV1::on_runtime_upgrade(&v0, 10, RuntimeDbWeight { read: 1, write: 1 });
    assert_eq!(p.next_group_id(), 6);
    assert_eq!(p.track_ids(), vec![2 << 16]);
    assert_eq!(p.track_for(1), Some(2 << 16));
}

#[test]
fn migrating_nothing_sets_the_next_group_to_one() {
    let v0 = TracksV0 { track_ids: vec![], tracks: HashMap::new(), origin_entries: vec![] };
    let (p, _) = MigrateV0ToV1::on_runtime_upgrade(&v0, 10, RuntimeDbWeight { read: 1, write: 1 });
    assert_eq!(p.next_group_id(), 1);
}

#[test]
fn migrating_two_origins_of_one_track_keeps_the_last() {
    let mut tracks = HashMap::new();
    tracks.insert(3u32, info());
    let v0 = TracksV0 { track_ids: vec![3], tracks, origin_entries: vec![(1, 3), (2, 3)] };
    let (p, _) = MigrateV0ToV1::on_runtime_upgrade(&v0, 10, RuntimeDbWeight { read: 1, write: 1 });
    assert_eq!(p.origin_of(3 << 16), Some(2));
    assert_eq!(p.track_for(1), Some(3 << 16));
    assert_eq!(p.track_for(2), Some(3 << 16));
}
