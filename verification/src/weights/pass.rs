//! The weights of the pass pallet's calls.

use core::marker::PhantomData;
use vstd::prelude::*;

use crate::authn::Get;
use crate::weight::{benchmarked, benchmarked_weight, rocks_db_weight, weight_add, RuntimeDbWeight, Weight};

verus! {

pub trait WeightInfo {
    fn register() -> Weight;

    /// The weight of authenticating with a credential, without verifying the credential.
    fn authenticate() -> Weight;

    /// The weight of authenticating without a credential: at most one session key lookup.
    fn authenticate_none() -> Weight;

    fn add_device() -> Weight;

    fn remove_device() -> Weight;

    fn add_session_key() -> Weight;

    fn remove_session_key() -> Weight;
}

/// The measured weight of the calls that manage accounts, devices and session keys.
pub open spec fn call_weight_spec() -> Weight {
    weight_add(Weight { ref_time: 8_586_000, proof_size: 0 }, Weight { ref_time: 1_359, proof_size: 0 })
}

fn call_weight() -> (r: Weight)
    ensures
        r == call_weight_spec(),
{
    Weight::from_parts(8_586_000, 0).saturating_add(Weight::from_parts(1_359, 0))
}

/// The weight of authenticating with a credential, for the given database weights.
pub fn authenticate_weight(db: RuntimeDbWeight) -> (r: Weight)
    ensures
        r == benchmarked(20_000_000, 7_000, db, 2, 1),
{
    benchmarked_weight(20_000_000, 7_000, db, 2, 1)
}

/// The weight of authenticating without a credential, for the given database weights.
pub fn authenticate_none_weight(db: RuntimeDbWeight) -> (r: Weight)
    ensures
        r == benchmarked(10_000_000, 4_000, db, 1, 0),
{
    benchmarked_weight(10_000_000, 4_000, db, 1, 0)
}

/// The weights measured on reference hardware, with the runtime's database weights.
pub struct SubstrateWeight<T>(PhantomData<T>);

impl<T: Get<RuntimeDbWeight>> WeightInfo for SubstrateWeight<T> {
    fn register() -> (r: Weight)
        ensures
            r == call_weight_spec(),
    {
        call_weight()
    }

    fn authenticate() -> (r: Weight)
        ensures
            r == benchmarked(20_000_000, 7_000, T::value(), 2, 1),
    {
        let db = T::get();
        authenticate_weight(db)
    }

    fn authenticate_none() -> (r: Weight)
        ensures
            r == benchmarked(10_000_000, 4_000, T::value(), 1, 0),
    {
        let db = T::get();
        authenticate_none_weight(db)
    }

    fn add_device() -> (r: Weight)
        ensures
            r == call_weight_spec(),
    {
        call_weight()
    }

    fn remove_device() -> (r: Weight)
        ensures
            r == call_weight_spec(),
    {
        call_weight()
    }

    fn add_session_key() -> (r: Weight)
        ensures
            r == call_weight_spec(),
    {
        call_weight()
    }

    fn remove_session_key() -> (r: Weight)
        ensures
            r == call_weight_spec(),
    {
        call_weight()
    }
}

/// The weights of the authentication with RocksDB's database weights; the calls are free.
impl WeightInfo for () {
    fn register() -> (r: Weight)
        ensures
            r == call_weight_spec(),
    {
        call_weight()
    }

    fn authenticate() -> (r: Weight)
        ensures
            r == benchmarked(20_000_000, 7_000, RuntimeDbWeight { read: 25_000_000, write: 100_000_000 }, 2, 1),
    {
        authenticate_weight(rocks_db_weight())
    }

    fn authenticate_none() -> (r: Weight)
        ensures
            r == benchmarked(10_000_000, 4_000, RuntimeDbWeight { read: 25_000_000, write: 100_000_000 }, 1, 0),
    {
        authenticate_none_weight(rocks_db_weight())
    }

    fn add_device() -> (r: Weight)
        ensures
            r == (Weight { ref_time: 0, proof_size: 0 }),
    {
        Weight::from_parts(0, 0).saturating_add(Weight::from_parts(0, 0))
    }

    fn remove_device() -> (r: Weight)
        ensures
            r == (Weight { ref_time: 0, proof_size: 0 }),
    {
        Weight::from_parts(0, 0).saturating_add(Weight::from_parts(0, 0))
    }

    fn add_session_key() -> (r: Weight)
        ensures
            r == (Weight { ref_time: 0, proof_size: 0 }),
    {
        Weight::from_parts(0, 0).saturating_add(Weight::from_parts(0, 0))
    }

    fn remove_session_key() -> (r: Weight)
        ensures
            r == (Weight { ref_time: 0, proof_size: 0 }),
    {
        Weight::from_parts(0, 0).saturating_add(Weight::from_parts(0, 0))
    }
}

} // verus!
