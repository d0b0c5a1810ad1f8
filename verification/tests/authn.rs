use frame_contrib::authn::{
    authority_from_pallet_id, challenge_matches, Authenticator, Challenger, DeviceChallengeResponse,
    Dummy, DummyAttestation, DummyCredential, Get, PalletId, UserAuthenticator, UserChallengeResponse,
    DUMMY_DEV, DUMMY_USER,
};

struct Authority;

impl Get<[u8; 32]> for Authority {
    fn value() -> [u8; 32] {
        [7u8; 32]
    }

    fn get() -> [u8; 32] {
        Self::value()
    }
}

struct OtherAuthority;

impl Get<[u8; 32]> for OtherAuthority {
    fn value() -> [u8; 32] {
        [8u8; 32]
    }

    fn get() -> [u8; 32] {
        Self::value()
    }
}

#[test]
fn the_authority_of_a_pallet_is_its_id_padded_with_zeros() {
    let a = authority_from_pallet_id(&PalletId(*b"py/pass_"));
    assert_eq!(&a[..8], b"py/pass_");
    assert!(a[8..].iter().all(|b| *b == 0));
}

#[test]
fn challenges_match_only_the_same_bytes() {
    let generated = [3u8; 32];
    assert_eq!(challenge_matches(&generated, &[3u8; 32]), Some(()));
    assert_eq!(challenge_matches(&generated, &[3u8; 31]), None);
    let mut other = [3u8; 32];
    other[31] = 4;
    assert_eq!(challenge_matches(&generated, &other), None);
    assert_eq!(<u8 as Challenger>::check_challenge(&3, &vec![1u8, 2], &[3u8; 32]), Some(()));
    assert_eq!(<u8 as Challenger>::generate(&9, &vec![]), [9u8; 32]);
}

#[test]
fn a_valid_dummy_attestation_gives_a_device() {
    let attestation = DummyAttestation::<Authority>::new(true, [1u8; 32]);
    assert!(attestation.is_valid());
    assert_eq!(*DeviceChallengeResponse::<u8>::device_id(&attestation), [1u8; 32]);
    assert_eq!(attestation.authority(), [7u8; 32]);
    let device = <Dummy<Authority> as Authenticator>::verify_device(attestation, &vec![]);
    assert!(device.is_some());
    assert_eq!(*device.unwrap().device_id(), [1u8; 32]);
}

#[test]
fn an_invalid_dummy_attestation_gives_no_device() {
    let attestation = DummyAttestation::<Authority>::new(false, [1u8; 32]);
    assert!(<Dummy<Authority> as Authenticator>::verify_device(attestation, &vec![]).is_none());
    let unnamed = DummyAttestation::<Authority>::default();
    assert_eq!(*DeviceChallengeResponse::<u8>::device_id(&unnamed), DUMMY_DEV);
}

#[test]
fn the_dummy_device_verifies_credentials_as_it_is_told() {
    let attestation = DummyAttestation::<Authority>::new(true, [1u8; 32]);
    let mut device = <Dummy<Authority> as Authenticator>::verify_device(attestation, &vec![]).unwrap();
    let credential = DummyCredential::<Authority>::new(true, DUMMY_USER);
    assert_eq!(credential.user_id(), DUMMY_USER);
    assert_eq!(device.verify_user(&credential, &vec![]), Some(()));
    let invalid = DummyCredential::<Authority>::new(false, DUMMY_USER);
    assert_eq!(device.verify_user(&invalid, &vec![]), None);
    let foreign = DummyCredential::<OtherAuthority>::new(true, DUMMY_USER);
    assert_eq!(foreign.authority(), [8u8; 32]);
}
