use frame_contrib::pitch::{
    CellRef, Disclosure, DisclosureScope, Error, Event, MembershipVerifier, Pallet,
    PitchConfig, SettlementPolicy,
};

const HOLDER: u64 = 1;
const MEMBER: u64 = 2;
const OUTSIDER: u64 = 3;
const CELL: u64 = 0x87283082bffffff;
const ROOT: frame_contrib::pitch::Hash = [42u8; 32];

/// Parts per million of a whole percent.
const PERCENT: u32 = 10_000;

struct TestVerifier;

impl MembershipVerifier for TestVerifier {
    fn verify(who: &u64, root: &frame_contrib::pitch::Hash, proof: &[u8]) -> bool {
        *who == MEMBER && *root == ROOT && proof == b"member"
    }
}

fn new_pallet() -> Pallet {
    Pallet::new(PitchConfig {
        pallet_id: *b"pitch___",
        max_pitches_per_cell: 4,
        max_proof_len: 32,
        max_residue_len: 128,
        grace_period: 2,
    })
}

fn claim_public(p: &mut Pallet) -> Result<Event, Error> {
    p.claim(
        HOLDER,
        CellRef::Raw(CELL),
        Some(7),
        1,
        10,
        Disclosure::Public,
        2 * PERCENT,
        None,
        SettlementPolicy::Holder,
        None,
        None,
        1,
    )
}

#[test]
fn public_pitch_is_claimed_and_indexed_by_cell() {
    let mut p = new_pallet();
    let event = claim_public(&mut p);

    let pitch = p.pitch(0).unwrap();
    assert_eq!(pitch.holder, HOLDER);
    assert_eq!(pitch.cell, CellRef::Raw(CELL));
    assert_eq!(p.by_cell(CELL).as_slice(), &[0]);

    assert_eq!(
        event,
        Ok(Event::Claimed { pitch: 0, disclosure: Disclosure::Public, holder: HOLDER })
    );
}

#[test]
fn committed_pitch_is_not_indexed_by_raw_cell() {
    let mut p = new_pallet();
    assert!(p
        .claim(
            HOLDER,
            CellRef::Commitment([7u8; 32]),
            None,
            1,
            10,
            Disclosure::Sealed,
            0,
            None,
            SettlementPolicy::Holder,
            None,
            Some(b"sealed-residue".to_vec()),
            1,
        )
        .is_ok());

    assert_eq!(p.by_cell(CELL).len(), 0);
    assert_eq!(p.pitch(0).unwrap().cell, CellRef::Commitment([7u8; 32]));
}

#[test]
fn validates_disclosure_and_resolution() {
    let mut p = new_pallet();
    assert_eq!(
        p.claim(
            HOLDER,
            CellRef::Commitment([1u8; 32]),
            None,
            1,
            10,
            Disclosure::Public,
            0,
            None,
            SettlementPolicy::Holder,
            None,
            None,
            1,
        ),
        Err(Error::BadCellRef)
    );
    assert!(p.pitch(0).is_none());
    assert_eq!(p.next_pitch_id(), 0);

    assert_eq!(
        p.claim(
            HOLDER,
            CellRef::Raw(CELL),
            Some(16),
            1,
            10,
            Disclosure::Public,
            0,
            None,
            SettlementPolicy::Holder,
            None,
            None,
            1,
        ),
        Err(Error::BadResolution)
    );
    assert!(p.pitch(0).is_none());
    assert_eq!(p.next_pitch_id(), 0);
    assert!(p.by_cell(CELL).is_empty());
}

#[test]
fn gated_pitch_requires_valid_membership_proof() {
    let mut p = new_pallet();
    assert!(p
        .claim(
            HOLDER,
            CellRef::Raw(CELL),
            Some(7),
            1,
            10,
            Disclosure::Gated,
            0,
            Some(ROOT),
            SettlementPolicy::Holder,
            None,
            None,
            1,
        )
        .is_ok());

    assert_eq!(
        p.join::<TestVerifier>(OUTSIDER, 0, b"member", 1),
        Err(Error::ProofInvalid)
    );
    assert!(!p.has_joined(0, OUTSIDER));

    assert_eq!(
        p.join::<TestVerifier>(MEMBER, 0, b"member", 1),
        Ok(Event::Joined { pitch: 0, who: MEMBER })
    );
    assert!(p.has_joined(0, MEMBER));
}

#[test]
fn holder_can_amend_and_grant_disclosure() {
    let mut p = new_pallet();
    claim_public(&mut p).unwrap();

    assert_eq!(
        p.amend(HOLDER, 0, Some(5 * PERCENT), Some(Some(ROOT)), Some(12), None, 1),
        Ok(Event::Amended { pitch: 0 })
    );
    assert_eq!(p.pitch(0).unwrap().local_tax, 5 * PERCENT);
    assert_eq!(p.pitch(0).unwrap().end, 12);

    assert_eq!(
        p.grant_disclosure(HOLDER, 0, MEMBER, DisclosureScope::Location),
        Ok(Event::DisclosureGranted { pitch: 0, to: MEMBER, scope: DisclosureScope::Location })
    );
    assert_eq!(p.disclosure_grant(0, MEMBER), Some(DisclosureScope::Location));
}

#[test]
fn dissolve_removes_pitch_and_public_index() {
    let mut p = new_pallet();
    claim_public(&mut p).unwrap();
    assert_eq!(p.dissolve(HOLDER, 0), Ok(Event::Dissolved { pitch: 0 }));

    assert!(p.pitch(0).is_none());
    assert_eq!(p.by_cell(CELL).len(), 0);
}

#[test]
fn reap_only_after_grace_period() {
    let mut p = new_pallet();
    claim_public(&mut p).unwrap();

    assert_eq!(p.reap(0, 11), Err(Error::NotLive));
    assert!(p.pitch(0).is_some());
    assert_eq!(p.by_cell(CELL).as_slice(), &[0]);

    assert_eq!(p.reap(0, 12), Ok(Event::Reaped { pitch: 0 }));
    assert!(p.pitch(0).is_none());
}

#[test]
fn derives_stable_pitch_account() {
    let p = new_pallet();
    assert_eq!(p.pitch_account(0), p.pitch_account(0));
}
