//! What a registrar of account names and a raw device authenticator provide to passes.

use vstd::prelude::*;

use crate::authn::DeviceId;

verus! {

/// Why a registrar refused an account name.
#[derive(Clone, Copy, Debug, PartialEq, Eq, Structural)]
pub enum RegistrarError {
    CannotClaim,
    CannotInitialize,
    AlreadyRegistered,
}

/// What a registrar answers.
pub type RegistrarResult = Result<(), RegistrarError>;

/// Why a device could not authenticate.
#[derive(Clone, Copy, Debug, PartialEq, Eq, Structural)]
pub enum AuthenticateError {
    ChallengeFailed,
}

/// Authenticates encoded devices against challenges.
pub trait Authenticator {
    /// The id of an encoded device, if it is one.
    fn get_device_id(&self, device: Vec<u8>) -> Option<DeviceId>;

    /// Checks that the device signed the payload for the challenge.
    fn authenticate(&self, device: Vec<u8>, challenge: &[u8], payload: &[u8]) -> Result<(), AuthenticateError>;
}

/// Registers account names for the accounts that claim them.
pub trait Registrar<AccountId, AccountName> {
    fn is_claimable(account_name: &AccountName, claimer: &AccountId) -> RegistrarResult;

    fn claim(account_name: &AccountName, claimer: &AccountId) -> RegistrarResult;

    fn claimer_pays_fees(account_name: &AccountName, claimer: &AccountId) -> bool;
}

} // verus!
