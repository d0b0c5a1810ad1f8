use frame_contrib::pass::extension::implication_context;
use std::collections::HashMap;

use frame_contrib::payments::{Balances, Fees, Payments, PaymentsConfig};
use frame_contrib::referenda_tracks::{Curve, MigrateV0ToV1, MigrationCheckError, TrackInfo, TracksV0};
use frame_contrib::weight::RuntimeDbWeight;

fn info() -> TrackInfo {
    TrackInfo {
        name: [0u8; 25],
        max_deciding: 1,
        decision_deposit: 10,
        prepare_period: 1,
        decision_period: 10,
        confirm_period: 1,
        min_enactment_period: 1,
        min_approval: Curve::LinearDecreasing { length: 100, floor: 50, ceil: 100 },
        min_support: Curve::LinearDecreasing { length: 100, floor: 0, ceil: 50 },
    }
}

#[test]
fn the_migration_records_and_checks_the_track_count() {
    let mut tracks = HashMap::new();
    tracks.insert(1u32, info());
    tracks.insert(2u32, info());
    let v0 = TracksV0 { track_ids: vec![1, 2], tracks, origin_entries: vec![(10, 1), (20, 2)] };
    let state = MigrateV0ToV1::pre_upgrade(&v0).unwrap();
    assert_eq!(state, vec![2, 0, 0, 0]);
    let (v1, _) = MigrateV0ToV1::on_runtime_upgrade(&v0, 10, RuntimeDbWeight { read: 1, write: 1 });
    assert_eq!(v1.post_upgrade(&state), Ok(()));
    assert_eq!(v1.post_upgrade(&vec![3, 0, 0, 0]), Err(MigrationCheckError::CountMismatch));
    assert_eq!(v1.post_upgrade(&vec![2, 0]), Err(MigrationCheckError::UndecodableState));
    assert_eq!(v1.track_for(10), Some(1 << 16));
}

#[test]
fn a_wide_old_id_cannot_be_migrated() {
    let v0 = TracksV0 { track_ids: vec![1 << 16], tracks: HashMap::new(), origin_entries: vec![] };
    assert_eq!(MigrateV0ToV1::pre_upgrade(&v0), Err(MigrationCheckError::IdExceedsHalf));
}

#[test]
fn the_incentive_is_a_percentage_rounded_down() {
    let mut ledger = HashMap::new();
    ledger.insert((1u128 << 64) | 10, Balances { free: 1_000, held: 0 });
    let mut p = Payments::new(
        PaymentsConfig { incentive_percentage: 10, cancel_buffer_block_length: 5, max_remark_length: 4 },
        ledger,
    );
    let fees = Fees { sender_pays: vec![], beneficiary_pays: vec![] };
    p.create(10, 1, 99, 20, Some(1), fees.clone(), None).unwrap();
    assert_eq!(p.payment(10, 1).unwrap().incentive_amount, 9);
    let mut capped = Payments::new(
        PaymentsConfig { incentive_percentage: 150, cancel_buffer_block_length: 5, max_remark_length: 4 },
        HashMap::new(),
    );
    capped.request_payment(20, 10, 1, 99, Some(1), fees).unwrap();
    assert_eq!(capped.payment(10, 1).unwrap().incentive_amount, 99);
}

#[test]
fn migration_failures_have_messages() {
    assert_eq!(MigrationCheckError::CountMismatch.message(), "Track count mismatch after migration");
    assert_eq!(MigrationCheckError::TrackMissing.message(), "Track not found in new storage");
}

#[test]
fn the_check_after_the_migration_finds_an_origin_without_its_reverse_mapping() {
    // An origin bound to an id too wide for a group keeps that id, which no track has.
    let v0 = TracksV0 { track_ids: vec![], tracks: HashMap::new(), origin_entries: vec![(10, 1 << 16)] };
    let (v1, _) = MigrateV0ToV1::on_runtime_upgrade(&v0, 10, RuntimeDbWeight { read: 1, write: 1 });
    assert_eq!(v1.post_upgrade(&vec![0, 0, 0, 0]), Err(MigrationCheckError::ReverseMissing));
    assert_eq!(v1.post_upgrade(&vec![1, 0, 0, 0]), Err(MigrationCheckError::CountMismatch));
}

#[test]
fn the_implication_context_is_the_blake2_hash_of_the_encoding() {
    let empty = implication_context(&[]);
    assert_eq!(
        empty,
        [
            0x0e, 0x57, 0x51, 0xc0, 0x26, 0xe5, 0x43, 0xb2, 0xe8, 0xab, 0x2e, 0xb0, 0x60, 0x99,
            0xda, 0xa1, 0xd1, 0xe5, 0xdf, 0x47, 0x77, 0x8f, 0x77, 0x87, 0xfa, 0xab, 0x45, 0xcd,
            0xf1, 0x2f, 0xe3, 0xa8
        ]
    );
    let encoded = [7u8; 40];
    assert_eq!(implication_context(&encoded), sp_crypto_hashing::blake2_256(&encoded));
    assert_ne!(implication_context(&[1, 2, 3]).to_vec(), vec![1, 2, 3]);
}
