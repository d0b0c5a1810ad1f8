use frame_contrib::authn::{Authenticator, Dummy, DummyAttestation, DummyCredential, DummyDev, Get};
use frame_contrib::dispatch::DispatchError;
use frame_contrib::pass::consideration::{Consideration, Footprint};
use frame_contrib::pass::extension::{validate_session, validate_with_pass, AuthenticateParams, InvalidTransaction, TxOrigin};
use frame_contrib::pass::filter::DeviceFilter;
use frame_contrib::pass::pallet::{Error, Event, Pass, PassConfig};
use frame_contrib::weight::Weight;

struct TheAuthority;

impl Get<[u8; 32]> for TheAuthority {
    fn value() -> [u8; 32] {
        [1u8; 32]
    }

    fn get() -> [u8; 32] {
        Self::value()
    }
}

/// A deposit of an account with funds: always taken.
#[derive(Clone, Debug, PartialEq, Eq)]
struct Funded(u64);

impl Consideration<u64> for Funded {
    fn new(_: &u64, new: Footprint) -> Result<Self, DispatchError> {
        Ok(Funded(new.count))
    }
    fn update(self, _: &u64, new: Footprint) -> Result<Self, DispatchError> {
        Ok(Funded(new.count))
    }
    fn drop(self, _: &u64) -> Result<(), DispatchError> {
        Ok(())
    }
}

/// A deposit of an account with funds for one item only.
#[derive(Clone, Debug, PartialEq, Eq)]
struct FundsForOne(u64);

const FUNDS_UNAVAILABLE: DispatchError = DispatchError::Other("funds unavailable");

impl Consideration<u64> for FundsForOne {
    fn new(_: &u64, new: Footprint) -> Result<Self, DispatchError> {
        if new.count > 1 { Err(FUNDS_UNAVAILABLE) } else { Ok(FundsForOne(new.count)) }
    }
    fn update(self, _: &u64, new: Footprint) -> Result<Self, DispatchError> {
        if new.count > 1 { Err(FUNDS_UNAVAILABLE) } else { Ok(FundsForOne(new.count)) }
    }
    fn drop(self, _: &u64) -> Result<(), DispatchError> {
        Ok(())
    }
}

/// A deposit of an account without funds.
#[derive(Clone, Debug, PartialEq, Eq)]
struct Unfunded;

impl Consideration<u64> for Unfunded {
    fn new(_: &u64, new: Footprint) -> Result<Self, DispatchError> {
        if new.count > 0 { Err(FUNDS_UNAVAILABLE) } else { Ok(Unfunded) }
    }
    fn update(self, _: &u64, new: Footprint) -> Result<Self, DispatchError> {
        if new.count > 0 { Err(FUNDS_UNAVAILABLE) } else { Ok(Unfunded) }
    }
    fn drop(self, _: &u64) -> Result<(), DispatchError> {
        Ok(())
    }
}

type Device = DummyDev<TheAuthority>;

const ROOT: u64 = 0;
const SIGNER: u64 = 1;
const OTHER: u64 = 2;
const CHARLIE: u64 = 3;
const ACCOUNT_NAME_A: [u8; 32] = [10u8; 32];
const ACCOUNT_NAME_B: [u8; 32] = [11u8; 32];
const THE_DEVICE: [u8; 32] = [20u8; 32];
const OTHER_DEVICE: [u8; 32] = [21u8; 32];
const DURATION: u64 = 10;

fn config() -> PassConfig {
    PassConfig { max_session_duration: 10, user_id_size: 32, device_size: 8, session_key_size: 8 }
}

fn attest(valid: bool, device_id: [u8; 32]) -> Option<Device> {
    <Dummy<TheAuthority> as Authenticator>::verify_device(DummyAttestation::new(valid, device_id), &Vec::<u8>::new())
}

/// A pallet where `ACCOUNT_NAME_A` is registered with `THE_DEVICE`.
fn prepare<RC, DC, SC>() -> Pass<Device, RC, DC, SC>
where
    RC: Consideration<u64> + Clone,
    DC: Consideration<u64> + Clone,
    SC: Consideration<u64> + Clone,
{
    let mut p = Pass::new(config());
    p.register(ROOT, ACCOUNT_NAME_A, THE_DEVICE, attest(true, THE_DEVICE)).unwrap();
    p
}

fn address() -> u64 {
    Pass::<Device, Funded, Funded, Funded>::address_for(ACCOUNT_NAME_A)
}

fn credential(valid: bool, user: [u8; 32]) -> DummyCredential<TheAuthority> {
    DummyCredential::new(valid, user)
}

// register

#[test]
fn register_deposit_logic_works() {
    let mut funded: Pass<Device, Funded, Funded, Funded> = Pass::new(config());
    assert!(funded.register(ROOT, ACCOUNT_NAME_A, THE_DEVICE, attest(true, THE_DEVICE)).is_ok());
    let mut unfunded: Pass<Device, Unfunded, Funded, Funded> = Pass::new(config());
    assert_eq!(
        unfunded.register(SIGNER, ACCOUNT_NAME_A, THE_DEVICE, attest(true, THE_DEVICE)),
        Err(Error::Consideration(FUNDS_UNAVAILABLE))
    );
}

#[test]
fn tests_fail_if_attestation_is_invalid() {
    let mut p: Pass<Device, Funded, Funded, Funded> = Pass::new(config());
    assert_eq!(
        p.register(SIGNER, ACCOUNT_NAME_B, THE_DEVICE, attest(false, THE_DEVICE)),
        Err(Error::DeviceAttestationInvalid)
    );
}

#[test]
fn register_it_works() {
    let mut p: Pass<Device, Funded, Funded, Funded> = Pass::new(config());
    let account_id = address();
    let events = p.register(SIGNER, ACCOUNT_NAME_A, THE_DEVICE, attest(true, THE_DEVICE)).unwrap();
    assert!(events.contains(&Event::Registered { who: account_id }));
    assert!(events.contains(&Event::DeviceAdded { who: account_id, device_id: THE_DEVICE }));
}

// authenticate

#[test]
fn fail_if_cannot_find_account() {
    let p = prepare::<Funded, Funded, Funded>();
    assert_eq!(p.authenticate(&THE_DEVICE, &credential(true, ACCOUNT_NAME_B), &Vec::<u8>::new()), Err(Error::AccountNotFound));
}

#[test]
fn fail_if_cannot_find_device() {
    let p = prepare::<Funded, Funded, Funded>();
    assert_eq!(p.authenticate(&OTHER_DEVICE, &credential(true, ACCOUNT_NAME_A), &Vec::<u8>::new()), Err(Error::DeviceNotFound));
}

#[test]
fn authenticate_fail_if_attestation_is_invalid() {
    // The credential answers a challenge the device does not accept.
    let p = prepare::<Funded, Funded, Funded>();
    assert_eq!(
        p.authenticate(&THE_DEVICE, &credential(false, ACCOUNT_NAME_A), &Vec::<u8>::new()),
        Err(Error::CredentialInvalid)
    );
}

#[test]
fn fail_if_attested_with_credentials_from_a_different_device() {
    let mut p = prepare::<Funded, Funded, Funded>();
    assert!(p.authenticate(&THE_DEVICE, &credential(true, ACCOUNT_NAME_A), &Vec::<u8>::new()).is_ok());
    p.add_device(address(), OTHER_DEVICE, attest(true, OTHER_DEVICE)).unwrap();
    // A credential signed by the other device is not one that `THE_DEVICE` accepts.
    assert_eq!(
        p.authenticate(&THE_DEVICE, &credential(false, ACCOUNT_NAME_A), &Vec::<u8>::new()),
        Err(Error::CredentialInvalid)
    );
}

#[test]
fn fail_if_attested_with_credentials_from_a_different_users_device() {
    let mut p: Pass<Device, Funded, Funded, Funded> = Pass::new(config());
    p.register(ROOT, ACCOUNT_NAME_A, THE_DEVICE, attest(true, THE_DEVICE)).unwrap();
    p.register(ROOT, ACCOUNT_NAME_B, OTHER_DEVICE, attest(true, OTHER_DEVICE)).unwrap();
    // Signed by the other user's device: not accepted by the device of `ACCOUNT_NAME_A`.
    assert_eq!(
        p.authenticate(&THE_DEVICE, &credential(false, ACCOUNT_NAME_A), &Vec::<u8>::new()),
        Err(Error::CredentialInvalid)
    );
}

#[test]
fn authenticate_it_works() {
    let p = prepare::<Funded, Funded, Funded>();
    assert_eq!(p.authenticate(&THE_DEVICE, &credential(true, ACCOUNT_NAME_A), &Vec::<u8>::new()), Ok(address()));
}

#[test]
fn verify_credential_works() {
    let mut p: Pass<Device, Funded, Funded, Funded> = Pass::new(config());
    p.register(ROOT, ACCOUNT_NAME_A, THE_DEVICE, attest(true, THE_DEVICE)).unwrap();
    assert!(p.authenticate(&THE_DEVICE, &credential(true, ACCOUNT_NAME_A), &Vec::<u8>::new()).is_ok());
}

// add_device

#[test]
fn tests_fails_if_bad_origin() {
    let mut p = prepare::<Funded, Funded, Funded>();
    assert_eq!(p.add_device(ROOT, OTHER_DEVICE, attest(true, OTHER_DEVICE)), Err(Error::BadOrigin));
    assert_eq!(p.add_device(OTHER, OTHER_DEVICE, attest(true, OTHER_DEVICE)), Err(Error::BadOrigin));
}

#[test]
fn tests_deposit_logic_works() {
    // The account's funds cover its first device only.
    let mut p = prepare::<Funded, FundsForOne, Funded>();
    assert_eq!(
        p.add_device(address(), OTHER_DEVICE, attest(true, OTHER_DEVICE)),
        Err(Error::Consideration(FUNDS_UNAVAILABLE))
    );
}

#[test]
fn add_device_it_works() {
    let mut p = prepare::<Funded, Funded, Funded>();
    let events = p.add_device(address(), OTHER_DEVICE, attest(true, OTHER_DEVICE)).unwrap();
    assert!(events.contains(&Event::DeviceAdded { who: address(), device_id: OTHER_DEVICE }));
}

// add_session_key

#[test]
fn add_session_key_fails_if_bad_origin() {
    let mut p = prepare::<Funded, Funded, Funded>();
    assert_eq!(p.add_session_key(ROOT, OTHER, Some(DURATION)), Err(Error::BadOrigin));
    assert_eq!(p.add_session_key(OTHER, OTHER, Some(DURATION)), Err(Error::BadOrigin));
}

#[test]
fn fails_if_account_exists() {
    let mut p = prepare::<Funded, Funded, Funded>();
    p.create_account(CHARLIE).unwrap();
    assert_eq!(p.add_session_key(address(), CHARLIE, Some(DURATION)), Err(Error::AccountForSessionKeyAlreadyExists));
}

#[test]
fn add_session_key_it_works() {
    let mut p = prepare::<Funded, Funded, Funded>();
    let events = p.add_session_key(address(), OTHER, Some(DURATION)).unwrap();
    assert!(events.contains(&Event::SessionCreated { session_key: OTHER, until: DURATION }));
}

#[test]
fn add_session_key_deposit_logic_works() {
    let mut p = prepare::<Funded, Funded, FundsForOne>();
    assert!(p.add_session_key(address(), SIGNER, None).is_ok());
    assert_eq!(p.add_session_key(address(), OTHER, None), Err(Error::Consideration(FUNDS_UNAVAILABLE)));
    // With funds for more, it goes through.
    let mut q = prepare::<Funded, Funded, Funded>();
    q.add_session_key(address(), SIGNER, None).unwrap();
    assert!(q.add_session_key(address(), OTHER, None).is_ok());
}

// dispatch: the transaction extension

const REMARK: (u8, u8) = (0, 7);

fn admin() -> DeviceFilter {
    DeviceFilter::Admin
}

#[test]
fn bypasses_if_not_signed_by_a_session_key() {
    let p = prepare::<Funded, Funded, Funded>();
    let session = p.pass_account_from_session_key(CHARLIE);
    assert_eq!(session, None);
    let f = admin();
    let v = validate_session(TxOrigin::Signed(CHARLIE), session.map(|a| (a, &f)), REMARK, None, Weight::zero())
        .unwrap();
    assert_eq!(v.origin, TxOrigin::Signed(CHARLIE));
}

#[test]
fn it_works_if_signed_by_a_session_key() {
    let mut p = prepare::<Funded, Funded, Funded>();
    p.add_session_key(address(), OTHER, None).unwrap();
    let session = p.pass_account_from_session_key(OTHER);
    assert_eq!(session, Some(address()));
    let f = admin();
    let v = validate_session(TxOrigin::Signed(OTHER), session.map(|a| (a, &f)), REMARK, None, Weight::zero())
        .unwrap();
    assert_eq!(v.origin, TxOrigin::Signed(address()));
}

fn with_credential(device_id: [u8; 32], valid: bool, user: [u8; 32]) -> AuthenticateParams<DummyCredential<TheAuthority>> {
    AuthenticateParams { device_id, credential: credential(valid, user) }
}

#[test]
fn fail_with_credentials_if_account_not_found() {
    let p = prepare::<Funded, Funded, Funded>();
    let f = admin();
    assert_eq!(
        validate_with_pass(&p, &with_credential(OTHER_DEVICE, true, ACCOUNT_NAME_B), &Vec::<u8>::new(), Some(&f), REMARK, None),
        Err(InvalidTransaction::BadSigner)
    );
}

#[test]
fn fail_with_credentials_if_device_not_found() {
    let p = prepare::<Funded, Funded, Funded>();
    let f = admin();
    assert_eq!(
        validate_with_pass(&p, &with_credential(OTHER_DEVICE, true, ACCOUNT_NAME_A), &Vec::<u8>::new(), Some(&f), REMARK, None),
        Err(InvalidTransaction::BadSigner)
    );
}

#[test]
fn fail_with_credentials_if_credential_invalid() {
    // A challenge of an earlier block no longer verifies.
    let p = prepare::<Funded, Funded, Funded>();
    let f = admin();
    assert_eq!(
        validate_with_pass(&p, &with_credential(THE_DEVICE, false, ACCOUNT_NAME_A), &Vec::<u8>::new(), Some(&f), REMARK, None),
        Err(InvalidTransaction::BadSigner)
    );
}

#[test]
fn with_credentials_it_works() {
    let p = prepare::<Funded, Funded, Funded>();
    let f = admin();
    let v = validate_with_pass(&p, &with_credential(THE_DEVICE, true, ACCOUNT_NAME_A), &Vec::<u8>::new(), Some(&f), REMARK, None)
        .unwrap();
    assert_eq!(v.origin, TxOrigin::Signed(address()));
}

#[test]
fn session_duration_is_met() {
    let mut p = prepare::<Funded, Funded, Funded>();
    let f = admin();
    assert!(validate_with_pass(&p, &with_credential(THE_DEVICE, true, ACCOUNT_NAME_A), &Vec::<u8>::new(), Some(&f), REMARK, None)
        .is_ok());
    let events = p.add_session_key(address(), SIGNER, None).unwrap();
    // The session lasts the longest duration: its removal is scheduled after it.
    assert!(events.contains(&Event::SessionCreated { session_key: SIGNER, until: 10 }));
    assert_eq!(p.pass_account_from_session_key(SIGNER), Some(address()));
    // The scheduled removal runs once the duration is met.
    p.remove_session_key(SIGNER).unwrap();
    assert_eq!(p.pass_account_from_session_key(SIGNER), None);
    assert!(p.add_session_key(address(), SIGNER, None).is_ok());
}
