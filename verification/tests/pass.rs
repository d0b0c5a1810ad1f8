use frame_contrib::dispatch::DispatchError;
use frame_contrib::pass::consideration::{Consideration, ConsiderationHandler, Footprint};
use frame_contrib::pass::extension::{
    post_dispatch, prepare, unsigned_refund, validate_credential, validate_session,
    validate_with_pass, AuthenticateParams, ChargeTransactionToPassAccount, InvalidTransaction, PassAuthenticate, TxOrigin, Validated,
};
use frame_contrib::pass::filter::{AssetSpendLimit, DeviceFilter};
use frame_contrib::pass::pallet::{Error, Event, Pass, PassConfig};
use frame_contrib::weight::{RuntimeDbWeight, Weight};
use std::collections::HashMap;

/// A deposit that can be refused when it grows past a limit.
#[derive(Clone, Debug, PartialEq, Eq)]
struct Deposit(u64);

impl Consideration<u64> for Deposit {
    fn new(_: &u64, new: Footprint) -> Result<Self, DispatchError> {
        Ok(Deposit(new.count))
    }
    fn update(self, _: &u64, new: Footprint) -> Result<Self, DispatchError> {
        if new.count > 3 {
            Err(DispatchError::Other("too much"))
        } else {
            Ok(Deposit(new.count))
        }
    }
    fn drop(self, _: &u64) -> Result<(), DispatchError> {
        Ok(())
    }
}

type P = Pass<u32, Deposit, Deposit, Deposit>;

fn pass() -> P {
    Pass::new(PassConfig { max_session_duration: 10, user_id_size: 32, device_size: 8, session_key_size: 8 })
}

#[test]
fn registering_creates_an_account_with_its_first_device() {
    let mut p = pass();
    let address = P::address_for([1u8; 32]);
    let events = p.register(99, [1u8; 32], [5u8; 32], Some(7)).unwrap();
    assert_eq!(events, vec![Event::Registered { who: address }, Event::DeviceAdded { who: address, device_id: [5u8; 32] }]);
    assert!(p.is_pass_account(address));
    assert!(p.account_exists(address));
    assert!(p.has_device(address, &[5u8; 32]));
    assert_eq!(p.register(99, [1u8; 32], [6u8; 32], Some(7)), Err(Error::AccountAlreadyRegistered));
    assert_eq!(p.register(99, [2u8; 32], [6u8; 32], None), Err(Error::DeviceAttestationInvalid));
    assert!(!p.is_pass_account(P::address_for([2u8; 32])));
}

#[test]
fn devices_are_added_and_removed_by_the_pass_account() {
    let mut p = pass();
    let address = P::address_for([1u8; 32]);
    p.register(99, [1u8; 32], [5u8; 32], Some(7)).unwrap();
    assert_eq!(p.add_device(12345, [6u8; 32], Some(8)), Err(Error::BadOrigin));
    assert_eq!(p.add_device(address, [6u8; 32], None), Err(Error::DeviceAttestationInvalid));
    assert_eq!(p.add_device(address, [6u8; 32], Some(8)), Ok(vec![Event::DeviceAdded { who: address, device_id: [6u8; 32] }]));
    assert_eq!(p.remove_device(address, [9u8; 32]), Err(Error::DeviceNotFound));
    assert_eq!(p.remove_device(address, [6u8; 32]), Ok(vec![Event::DeviceRemoved { who: address, device_id: [6u8; 32] }]));
    assert!(!p.has_device(address, &[6u8; 32]));
    assert!(p.has_device(address, &[5u8; 32]));
    // Removing the last device ends the pass account.
    p.remove_device(address, [5u8; 32]).unwrap();
    assert!(!p.is_pass_account(address));
}

#[test]
fn a_refused_deposit_leaves_the_account_unchanged() {
    let mut p = pass();
    let address = P::address_for([1u8; 32]);
    p.register(99, [1u8; 32], [5u8; 32], Some(7)).unwrap();
    p.add_device(address, [6u8; 32], Some(8)).unwrap();
    p.add_device(address, [7u8; 32], Some(8)).unwrap();
    assert_eq!(p.add_device(address, [8u8; 32], Some(8)), Err(Error::Consideration(DispatchError::Other("too much"))));
    assert!(!p.has_device(address, &[8u8; 32]));
}

#[test]
fn session_keys_act_for_their_pass_account_for_a_capped_time() {
    let mut p = pass();
    let address = P::address_for([1u8; 32]);
    p.register(99, [1u8; 32], [5u8; 32], Some(7)).unwrap();
    assert_eq!(p.add_session_key(address, address, None), Err(Error::AccountForSessionKeyAlreadyExists));
    assert_eq!(p.add_session_key(1, 2, None), Err(Error::BadOrigin));
    assert_eq!(p.add_session_key(address, 500, Some(50)), Ok(vec![Event::SessionCreated { session_key: 500, until: 10 }]));
    assert_eq!(p.pass_account_from_session_key(500), Some(address));
    assert_eq!(
        p.add_session_key(address, 500, Some(3)),
        Ok(vec![Event::SessionRemoved { session_key: 500 }, Event::SessionCreated { session_key: 500, until: 3 }])
    );
    assert_eq!(p.remove_session_key(500), Ok(vec![Event::SessionRemoved { session_key: 500 }]));
    assert_eq!(p.pass_account_from_session_key(500), None);
    assert_eq!(p.remove_session_key(500), Ok(vec![]));
}

#[test]
fn the_address_of_a_user_is_derived_by_hashing() {
    let mut input = vec![0u8; 32];
    input.extend_from_slice(&[1u8; 32]);
    let hash = sp_crypto_hashing::blake2_256(&input);
    let expected = u64::from_le_bytes(hash[..8].try_into().unwrap());
    assert_eq!(P::address_for([1u8; 32]), expected);
}

#[test]
fn consideration_counts_go_up_and_down() {
    let mut storage: HashMap<u64, (Deposit, u32)> = HashMap::new();
    ConsiderationHandler::increment(&mut storage, 1, 8).unwrap();
    ConsiderationHandler::increment(&mut storage, 1, 8).unwrap();
    assert_eq!(storage[&1].1, 2);
    ConsiderationHandler::decrement(&mut storage, 1, 8).unwrap();
    assert_eq!(storage[&1].1, 1);
}

#[test]
fn a_credential_passes_when_the_device_filter_allows_the_call() {
    let filter = DeviceFilter::Pallets(vec![4]);
    assert_eq!(
        validate_credential(Ok(3), [1u8; 32], Some(&filter), (4, 0), None),
        Ok(Validated { authenticated: Some((3, [1u8; 32])), unspent: Weight::zero(), origin: TxOrigin::Signed(3) })
    );
    assert_eq!(validate_credential(Ok(3), [1u8; 32], Some(&filter), (5, 0), None), Err(InvalidTransaction::Call));
    assert_eq!(validate_credential(Ok(3), [1u8; 32], None, (4, 0), None), Err(InvalidTransaction::Call));
    assert_eq!(
        validate_credential(Err(Error::CredentialInvalid), [1u8; 32], Some(&filter), (4, 0), None),
        Err(InvalidTransaction::BadSigner)
    );
}

#[test]
fn a_session_key_signs_for_its_pass_account_within_its_filter() {
    let filter = DeviceFilter::Spend(vec![AssetSpendLimit { asset: 1, max_amount: 10 }]);
    let refund = Weight::from_parts(5, 5);
    assert_eq!(
        validate_session(TxOrigin::Signed(9), Some((3, &filter)), (4, 0), Some((1, 10)), refund).unwrap().origin,
        TxOrigin::Signed(3)
    );
    assert_eq!(
        validate_session(TxOrigin::Signed(9), Some((3, &filter)), (4, 0), Some((1, 11)), refund),
        Err(InvalidTransaction::Call)
    );
    assert_eq!(validate_session(TxOrigin::Signed(9), None, (4, 0), None, refund).unwrap().origin, TxOrigin::Signed(9));
    assert_eq!(validate_session(TxOrigin::Unsigned, None, (4, 0), None, refund).unwrap().unspent, refund);
}

#[test]
fn the_authenticated_device_lives_for_one_transaction() {
    let mut current = Some((1, [2u8; 32]));
    let val = Validated { authenticated: Some((3, [4u8; 32])), unspent: Weight::from_parts(1, 0), origin: TxOrigin::Signed(3) };
    prepare(&mut current, val);
    assert_eq!(current, Some((3, [4u8; 32])));
    assert_eq!(post_dispatch(&mut current, val), Weight::from_parts(1, 0));
    assert_eq!(current, None);
}

#[test]
fn unsigned_origins_are_refunded_the_lookup() {
    let db = RuntimeDbWeight { read: 7, write: 9 };
    assert_eq!(unsigned_refund(Weight::from_parts(100, 40), db), Weight::from_parts(7, 40));
    assert_eq!(unsigned_refund(Weight::from_parts(3, 40), db), Weight::from_parts(3, 40));
    assert_eq!(
        ChargeTransactionToPassAccount::<(), ()>::convert_origin(TxOrigin::Signed(9), Some(3)),
        TxOrigin::Signed(3)
    );
    assert_eq!(ChargeTransactionToPassAccount::<(), ()>::convert_origin(TxOrigin::Unsigned, Some(3)), TxOrigin::Unsigned);
    let ext = PassAuthenticate::from([1u8; 32], 5u8);
    assert_eq!(ext.weight(Weight::from_parts(2, 0), Weight::from_parts(1, 0)), Weight::from_parts(2, 0));
}


use frame_contrib::authn::{Authenticator, Dummy, DummyAttestation, DummyCredential, DummyDev, Get};

struct PassAuthority;

impl Get<[u8; 32]> for PassAuthority {
    fn value() -> [u8; 32] {
        [1u8; 32]
    }

    fn get() -> [u8; 32] {
        Self::value()
    }
}

#[test]
fn a_registered_device_authenticates_its_user() {
    let user = [3u8; 32];
    let attestation = DummyAttestation::<PassAuthority>::new(true, [9u8; 32]);
    let device = <Dummy<PassAuthority> as Authenticator>::verify_device(attestation, &vec![]);
    let mut p: Pass<DummyDev<PassAuthority>, Deposit, Deposit, Deposit> =
        Pass::new(PassConfig { max_session_duration: 10, user_id_size: 32, device_size: 8, session_key_size: 8 });
    p.register(99, user, [9u8; 32], device).unwrap();
    let address = Pass::<DummyDev<PassAuthority>, Deposit, Deposit, Deposit>::address_for(user);
    let good = DummyCredential::<PassAuthority>::new(true, user);
    assert_eq!(p.authenticate(&[9u8; 32], &good, &vec![1u8]), Ok(address));
    assert_eq!(p.authenticate(&[8u8; 32], &good, &vec![1u8]), Err(Error::DeviceNotFound));
    let stranger = DummyCredential::<PassAuthority>::new(true, [4u8; 32]);
    assert_eq!(p.authenticate(&[9u8; 32], &stranger, &vec![1u8]), Err(Error::AccountNotFound));
    let invalid = DummyCredential::<PassAuthority>::new(false, user);
    assert_eq!(p.authenticate(&[9u8; 32], &invalid, &vec![1u8]), Err(Error::CredentialInvalid));
}

#[test]
fn validating_with_a_pass_authenticates_then_checks_the_filter() {
    let user = [3u8; 32];
    let attestation = DummyAttestation::<PassAuthority>::new(true, [9u8; 32]);
    let device = <Dummy<PassAuthority> as Authenticator>::verify_device(attestation, &vec![]);
    let mut p: Pass<DummyDev<PassAuthority>, Deposit, Deposit, Deposit> =
        Pass::new(PassConfig { max_session_duration: 10, user_id_size: 32, device_size: 8, session_key_size: 8 });
    p.register(99, user, [9u8; 32], device).unwrap();
    let address = Pass::<DummyDev<PassAuthority>, Deposit, Deposit, Deposit>::address_for(user);
    let good = AuthenticateParams { device_id: [9u8; 32], credential: DummyCredential::<PassAuthority>::new(true, user) };
    let pallets = DeviceFilter::Pallets(vec![4]);
    let ok = validate_with_pass(&p, &good, &vec![1u8], Some(&pallets), (4, 0), None).unwrap();
    assert_eq!(ok.origin, TxOrigin::Signed(address));
    assert_eq!(ok.authenticated, Some((address, [9u8; 32])));
    assert_eq!(
        validate_with_pass(&p, &good, &vec![1u8], Some(&pallets), (5, 0), None),
        Err(InvalidTransaction::Call)
    );
    assert_eq!(validate_with_pass(&p, &good, &vec![1u8], None, (4, 0), None), Err(InvalidTransaction::Call));
    let stranger =
        AuthenticateParams { device_id: [9u8; 32], credential: DummyCredential::<PassAuthority>::new(true, [4u8; 32]) };
    assert_eq!(
        validate_with_pass(&p, &stranger, &vec![1u8], Some(&pallets), (4, 0), None),
        Err(InvalidTransaction::BadSigner)
    );
}

#[test]
fn the_stored_ticket_is_the_one_recharged_for_the_new_count() {
    let mut storage: HashMap<u64, (Deposit, u32)> = HashMap::new();
    ConsiderationHandler::increment(&mut storage, 1, 8).unwrap();
    ConsiderationHandler::increment(&mut storage, 1, 8).unwrap();
    assert_eq!(storage[&1], (Deposit(2), 2));
    ConsiderationHandler::increment(&mut storage, 1, 8).unwrap();
    // A fourth item is refused by the deposit, and nothing changes.
    assert_eq!(ConsiderationHandler::increment(&mut storage, 1, 8), Err(DispatchError::Other("too much")));
    assert_eq!(storage[&1], (Deposit(3), 3));
}

#[test]
fn registering_with_an_attestation_binds_the_attested_device() {
    let user = [3u8; 32];
    let mut p: Pass<DummyDev<PassAuthority>, Deposit, Deposit, Deposit> =
        Pass::new(PassConfig { max_session_duration: 10, user_id_size: 32, device_size: 8, session_key_size: 8 });
    let invalid = DummyAttestation::<PassAuthority>::new(false, [9u8; 32]);
    assert_eq!(
        p.register_attested::<Dummy<PassAuthority>, _>(99, user, invalid, &vec![]),
        Err(Error::DeviceAttestationInvalid)
    );
    let attestation = DummyAttestation::<PassAuthority>::new(true, [9u8; 32]);
    p.register_attested::<Dummy<PassAuthority>, _>(99, user, attestation, &vec![]).unwrap();
    let address = Pass::<DummyDev<PassAuthority>, Deposit, Deposit, Deposit>::address_for(user);
    assert!(p.has_device(address, &[9u8; 32]));
    let second = DummyAttestation::<PassAuthority>::new(true, [5u8; 32]);
    p.add_device_attested::<Dummy<PassAuthority>, _>(address, second, &vec![]).unwrap();
    assert!(p.has_device(address, &[5u8; 32]));
}

#[test]
fn fail_if_already_registered() {
    let mut p = pass();
    let address = P::address_for([1u8; 32]);
    assert_eq!(p.create_account(address), Ok(vec![Event::Registered { who: address }]));
    assert_eq!(p.register(99, [1u8; 32], [5u8; 32], Some(7)), Err(Error::AccountAlreadyRegistered));
    // Nothing changed: no device, no deposit for the registrar.
    assert!(p.account_exists(address));
    assert!(!p.is_pass_account(address));
    assert!(!p.has_device(address, &[5u8; 32]));
    assert_eq!(p.create_account(address), Err(Error::AccountAlreadyRegistered));
}
