use frame_contrib::pitch::{
    CellRef, Disclosure, Error, Event, Pallet, PitchConfig, SettlementPolicy,
};

fn pallet() -> Pallet {
    Pallet::new(PitchConfig {
        pallet_id: *b"py/pitch",
        max_pitches_per_cell: 2,
        max_proof_len: 64,
        max_residue_len: 64,
        grace_period: 5,
    })
}

fn claim(p: &mut Pallet, holder: u64, cell: u64, now: u64) -> Result<Event, Error> {
    p.claim(
        holder,
        CellRef::Raw(cell),
        Some(9),
        10,
        20,
        Disclosure::Public,
        0,
        None,
        SettlementPolicy::Holder,
        None,
        None,
        now,
    )
}

#[test]
fn a_claim_is_indexed_by_cell_and_dissolving_it_clears_the_index() {
    let mut p = pallet();
    assert_eq!(
        claim(&mut p, 1, 42, 5),
        Ok(Event::Claimed { pitch: 0, disclosure: Disclosure::Public, holder: 1 })
    );
    assert_eq!(p.by_cell(42), vec![0]);
    assert_eq!(p.dissolve(2, 0), Err(Error::NotHolder));
    assert_eq!(p.dissolve(1, 0), Ok(Event::Dissolved { pitch: 0 }));
    assert!(p.by_cell(42).is_empty());
    assert!(p.pitch(0).is_none());
    assert_eq!(p.dissolve(1, 0), Err(Error::PitchMissing));
}

#[test]
fn claims_are_checked() {
    let mut p = pallet();
    assert_eq!(claim(&mut p, 1, 42, 11), Err(Error::WindowInPast));
    let r = p.claim(
        1,
        CellRef::Raw(42),
        Some(16),
        10,
        20,
        Disclosure::Public,
        0,
        None,
        SettlementPolicy::Holder,
        None,
        None,
        5,
    );
    assert_eq!(r, Err(Error::BadResolution));
    let r = p.claim(
        1,
        CellRef::Commitment([0u8; 32]),
        None,
        10,
        20,
        Disclosure::Public,
        0,
        None,
        SettlementPolicy::Holder,
        None,
        None,
        5,
    );
    assert_eq!(r, Err(Error::BadCellRef));
}

#[test]
fn a_cell_holds_a_limited_number_of_pitches() {
    let mut p = pallet();
    assert!(claim(&mut p, 1, 42, 5).is_ok());
    assert!(claim(&mut p, 1, 42, 5).is_ok());
    assert_eq!(claim(&mut p, 1, 42, 5), Err(Error::IndexFull));
}

#[test]
fn joining_needs_a_live_pitch() {
    let mut p = pallet();
    claim(&mut p, 1, 42, 5).unwrap();
    assert_eq!(p.join::<()>(3, 0, &[], 5), Err(Error::NotLive));
    assert_eq!(p.join::<()>(3, 0, &[], 12), Ok(Event::Joined { pitch: 0, who: 3 }));
    assert!(p.has_joined(0, 3));
}

#[test]
fn the_pitch_account_is_a_sub_account_of_the_pallet() {
    let p = pallet();
    let account = p.pitch_account(1);
    let mut expected = Vec::new();
    expected.extend_from_slice(b"modl");
    expected.extend_from_slice(b"py/pitch");
    expected.extend_from_slice(&1u64.to_le_bytes());
    expected.extend_from_slice(b"pitch");
    expected.resize(32, 0);
    assert_eq!(account.to_vec(), expected);
}
