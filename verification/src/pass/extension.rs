//! The transaction extensions of passes: one authenticates a pass account with a device's
//! credential (or a session key) and checks the call against the device's filter; the other
//! charges a session key's transactions to the pass account it acts for.

use core::marker::PhantomData;
use vstd::prelude::*;

use crate::authn::{user_verified, DeviceId, ExtrinsicContext, UserAuthenticator, UserChallengeResponse};
use crate::pass::filter::{allows_spec, AssetId, Balance, DeviceFilter};
use crate::pass::pallet::{address_of, device_of, has_device, AccountId, Error, Pass};
use crate::scale::{blake2_256, blake2_256_of};
use crate::weight::{Weight, RuntimeDbWeight};

verus! {

/// The extrinsic context a credential is bound to: the BLAKE2b hash of the SCALE encoding of
/// what the transaction's extensions imply (`encoded_implication`).
pub fn implication_context(encoded_implication: &[u8]) -> (r: [u8; 32])
    ensures
        r@ == blake2_256_of(encoded_implication@),
{
    blake2_256(encoded_implication)
}

/// The origin of a transaction, as the extensions see it: signed by an account, or not.
#[derive(Clone, Copy, Debug, PartialEq, Eq, Structural)]
pub enum TxOrigin {
    Signed(AccountId),
    Unsigned,
}

/// Why a transaction is invalid.
#[derive(Clone, Copy, Debug, PartialEq, Eq, Structural)]
pub enum InvalidTransaction {
    /// The credential did not authenticate.
    BadSigner,
    /// The call is not allowed.
    Call,
}

/// What validating a transaction gives: the authenticated account and device, if a credential
/// was presented, the part of the charged weight that was not spent, and the origin the call
/// is dispatched with.
#[derive(Clone, Copy, Debug, PartialEq, Eq)]
pub struct Validated {
    pub authenticated: Option<(AccountId, DeviceId)>,
    pub unspent: Weight,
    pub origin: TxOrigin,
}

/// The credential of a device.
pub struct AuthenticateParams<C> {
    pub device_id: DeviceId,
    pub credential: C,
}

/// Authenticates a pass account with the credential of one of its devices; without a
/// credential, a session key acts for its pass account, and other signers pass through.
pub struct PassAuthenticate<C>(pub Option<AuthenticateParams<C>>);

impl<C> PassAuthenticate<C> {
    /// An extension that authenticates with the credential of the device `device_id`.
    pub fn from(device_id: DeviceId, credential: C) -> (r: Self)
        ensures
            r.0 matches Some(p) && p.device_id == device_id && p.credential == credential,
    {
        PassAuthenticate(Some(AuthenticateParams { device_id, credential }))
    }

    /// The weight charged: the authentication's with a credential, the session key lookup's
    /// without.
    pub fn weight(&self, authenticate: Weight, authenticate_none: Weight) -> (r: Weight)
        ensures
            r == (if self.0 is Some {
                authenticate
            } else {
                authenticate_none
            }),
    {
        match &self.0 {
            Some(_) => authenticate,
            None => authenticate_none,
        }
    }
}

/// Validating with a credential: the pass account it authenticated (or the error it did
/// not), and the filter of the device, when it has one.
pub open spec fn validate_credential_spec(
    authenticated: Result<AccountId, Error>,
    device_id: DeviceId,
    filter: Option<DeviceFilter>,
    call_index: (u8, u8),
    spend: Option<(AssetId, Balance)>,
) -> Result<Validated, InvalidTransaction> {
    match authenticated {
        Err(_) => Err(InvalidTransaction::BadSigner),
        Ok(address) => match filter {
            None => Err(InvalidTransaction::Call),
            Some(f) => if !allows_spec(f@, call_index, spend) {
                Err(InvalidTransaction::Call)
            } else {
                Ok(
                    Validated {
                        authenticated: Some((address, device_id)),
                        unspent: Weight { ref_time: 0, proof_size: 0 },
                        origin: TxOrigin::Signed(address),
                    },
                )
            },
        },
    }
}

/// Validating without a credential: a signer that is a session key acts for its pass account
/// if the session's filter allows the call; another signer passes through; an unsigned origin
/// did not spend the session key lookup.
pub open spec fn validate_session_spec(
    origin: TxOrigin,
    session: Option<(AccountId, DeviceFilter)>,
    call_index: (u8, u8),
    spend: Option<(AssetId, Balance)>,
    unsigned_refund: Weight,
) -> Result<Validated, InvalidTransaction> {
    match origin {
        TxOrigin::Signed(who) => match session {
            Some((account, f)) => if !allows_spec(f@, call_index, spend) {
                Err(InvalidTransaction::Call)
            } else {
                Ok(
                    Validated {
                        authenticated: None,
                        unspent: Weight { ref_time: 0, proof_size: 0 },
                        origin: TxOrigin::Signed(account),
                    },
                )
            },
            None => Ok(
                Validated {
                    authenticated: None,
                    unspent: Weight { ref_time: 0, proof_size: 0 },
                    origin: TxOrigin::Signed(who),
                },
            ),
        },
        TxOrigin::Unsigned => Ok(Validated { authenticated: None, unspent: unsigned_refund, origin }),
    }
}

/// Validates a transaction that presents the credential of the device `device_id`, given what
/// authenticating it gave and the device's filter.
pub fn validate_credential(
    authenticated: Result<AccountId, Error>,
    device_id: DeviceId,
    filter: Option<&DeviceFilter>,
    call_index: (u8, u8),
    spend: Option<(AssetId, Balance)>,
) -> (r: Result<Validated, InvalidTransaction>)
    ensures
        r == validate_credential_spec(
            authenticated,
            device_id,
            match filter {
                Some(f) => Some(*f),
                None => None,
            },
            call_index,
            spend,
        ),
{
    let address = match authenticated {
        Err(_) => return Err(InvalidTransaction::BadSigner),
        Ok(a) => a,
    };
    let f = match filter {
        None => return Err(InvalidTransaction::Call),
        Some(f) => f,
    };
    if !f.allows(call_index, spend) {
        return Err(InvalidTransaction::Call);
    }
    Ok(Validated { authenticated: Some((address, device_id)), unspent: Weight::zero(), origin: TxOrigin::Signed(address) })
}

/// Validates a transaction that presents a credential: the pass authenticates it, bound to
/// the context `xtc`, and the call is checked against `filter`, the filter kept for the
/// credential user's account and the device (`None` when it has none). An account that is
/// missing or lacks the device makes a bad signer; otherwise the device's answer decides
/// between a bad signer and the filter's verdict.
pub fn validate_with_pass<D: UserAuthenticator + Clone, RC, DC, SC, X: ExtrinsicContext + ?Sized>(
    pass: &Pass<D, RC, DC, SC>,
    params: &AuthenticateParams<D::Credential>,
    xtc: &X,
    filter: Option<&DeviceFilter>,
    call_index: (u8, u8),
    spend: Option<(AssetId, Balance)>,
) -> (r: Result<Validated, InvalidTransaction>)
    ensures
        ({
            let address = address_of(params.credential.identified_user());
            &&& !has_device(pass@.devices, address, params.device_id) ==> r == Err::<
                Validated,
                InvalidTransaction,
            >(InvalidTransaction::BadSigner)
            &&& has_device(pass@.devices, address, params.device_id) ==> (r == Err::<
                Validated,
                InvalidTransaction,
            >(InvalidTransaction::BadSigner) || r == validate_credential_spec(
                Ok(address),
                params.device_id,
                match filter {
                    Some(f) => Some(*f),
                    None => None,
                },
                call_index,
                spend,
            ))
            &&& has_device(pass@.devices, address, params.device_id) ==> exists|device: D|
                #[trigger] cloned(device_of(pass@.devices, address, params.device_id), device) && if user_verified(
                    device,
                    params.credential,
                    xtc.context(),
                ) {
                    r == validate_credential_spec(
                        Ok(address),
                        params.device_id,
                        match filter {
                            Some(f) => Some(*f),
                            None => None,
                        },
                        call_index,
                        spend,
                    )
                } else {
                    r == Err::<Validated, InvalidTransaction>(InvalidTransaction::BadSigner)
                }
        }),
{
    let authenticated = pass.authenticate(&params.device_id, &params.credential, xtc);
    validate_credential(authenticated, params.device_id, filter, call_index, spend)
}

/// Validates a transaction without a credential, given the session of its signer, if it is a
/// session key.
pub fn validate_session(
    origin: TxOrigin,
    session: Option<(AccountId, &DeviceFilter)>,
    call_index: (u8, u8),
    spend: Option<(AssetId, Balance)>,
    unsigned_refund: Weight,
) -> (r: Result<Validated, InvalidTransaction>)
    ensures
        r == validate_session_spec(
            origin,
            match session {
                Some((a, f)) => Some((a, *f)),
                None => None,
            },
            call_index,
            spend,
            unsigned_refund,
        ),
{
    match origin {
        TxOrigin::Signed(who) => match session {
            Some((account, f)) => {
                if !f.allows(call_index, spend) {
                    Err(InvalidTransaction::Call)
                } else {
                    Ok(Validated { authenticated: None, unspent: Weight::zero(), origin: TxOrigin::Signed(account) })
                }
            },
            None => Ok(Validated { authenticated: None, unspent: Weight::zero(), origin: TxOrigin::Signed(who) }),
        },
        TxOrigin::Unsigned => Ok(Validated { authenticated: None, unspent: unsigned_refund, origin }),
    }
}

/// Before dispatch: the authenticated account and device of the transaction become the
/// current ones (a stale one from an earlier transaction is cleared), for the calls that check
/// against them.
pub fn prepare(current: &mut Option<(AccountId, DeviceId)>, val: Validated) -> (r: Validated)
    ensures
        *final(current) == val.authenticated,
        r == val,
{
    *current = None;
    match val.authenticated {
        Some(auth) => {
            *current = Some(auth);
        },
        None => {},
    }
    val
}

/// After dispatch, whatever its result: the current authenticated device is cleared when the
/// transaction had one, and the weight it did not spend is refunded.
pub fn post_dispatch(current: &mut Option<(AccountId, DeviceId)>, pre: Validated) -> (r: Weight)
    ensures
        pre.authenticated is Some ==> *final(current) == None::<(AccountId, DeviceId)>,
        pre.authenticated is None ==> *final(current) == *old(current),
        r == pre.unspent,
{
    if pre.authenticated.is_some() {
        *current = None;
    }
    pre.unspent
}

/// The part of the weight charged without a credential that an unsigned origin does not
/// spend: the time of one database read, and the proof size, at most what was charged.
pub fn unsigned_refund(charged: Weight, db: RuntimeDbWeight) -> (r: Weight)
    ensures
        r.ref_time == (if db.read <= charged.ref_time {
            db.read
        } else {
            charged.ref_time
        }),
        r.proof_size == charged.proof_size,
{
    let read = db.reads(1);
    Weight::from_parts(read.ref_time, charged.proof_size).min(charged)
}

/// Charges the transactions of a session key to the pass account it acts for, by handing the
/// inner extension `S` that account as the signer.
pub struct ChargeTransactionToPassAccount<S, T>(pub S, PhantomData<T>);

impl<S, T> ChargeTransactionToPassAccount<S, T> {
    /// The inner extension.
    pub closed spec fn inner(&self) -> S {
        self.0
    }

    /// Wraps the inner extension.
    pub fn new(s: S) -> (r: Self)
        ensures
            r.inner() == s,
    {
        ChargeTransactionToPassAccount(s, PhantomData)
    }

    /// The origin handed to the inner extension: a session key's pass account when the signer
    /// is one, the signer otherwise, and an unsigned origin unchanged.
    pub fn convert_origin(origin: TxOrigin, pass_account: Option<AccountId>) -> (r: TxOrigin)
        ensures
            r == match origin {
                TxOrigin::Signed(who) => TxOrigin::Signed(
                    match pass_account {
                        Some(a) => a,
                        None => who,
                    },
                ),
                TxOrigin::Unsigned => TxOrigin::Unsigned,
            },
    {
        match origin {
            TxOrigin::Signed(who) => TxOrigin::Signed(
                match pass_account {
                    Some(a) => a,
                    None => who,
                },
            ),
            TxOrigin::Unsigned => TxOrigin::Unsigned,
        }
    }
}

} // verus!
