//! The weights of the pitch pallet's calls.

use core::marker::PhantomData;
use vstd::prelude::*;

use crate::weight::Weight;

verus! {

pub trait WeightInfo {
    fn claim() -> Weight;

    fn join() -> Weight;

    fn amend() -> Weight;

    fn dissolve() -> Weight;

    fn grant_disclosure() -> Weight;

    fn reap() -> Weight;
}

/// The weights measured on reference hardware: time only.
pub struct SubstrateWeight<T>(PhantomData<T>);

impl<T> WeightInfo for SubstrateWeight<T> {
    fn claim() -> (r: Weight)
        ensures
            r == (Weight { ref_time: 20_000_000, proof_size: 0 }),
    {
        Weight::from_parts(20_000_000, 0)
    }

    fn join() -> (r: Weight)
        ensures
            r == (Weight { ref_time: 10_000_000, proof_size: 0 }),
    {
        Weight::from_parts(10_000_000, 0)
    }

    fn amend() -> (r: Weight)
        ensures
            r == (Weight { ref_time: 15_000_000, proof_size: 0 }),
    {
        Weight::from_parts(15_000_000, 0)
    }

    fn dissolve() -> (r: Weight)
        ensures
            r == (Weight { ref_time: 15_000_000, proof_size: 0 }),
    {
        Weight::from_parts(15_000_000, 0)
    }

    fn grant_disclosure() -> (r: Weight)
        ensures
            r == (Weight { ref_time: 10_000_000, proof_size: 0 }),
    {
        Weight::from_parts(10_000_000, 0)
    }

    fn reap() -> (r: Weight)
        ensures
            r == (Weight { ref_time: 15_000_000, proof_size: 0 }),
    {
        Weight::from_parts(15_000_000, 0)
    }
}

/// The same weights.
impl WeightInfo for () {
    fn claim() -> (r: Weight)
        ensures
            r == (Weight { ref_time: 20_000_000, proof_size: 0 }),
    {
        SubstrateWeight::<()>::claim()
    }

    fn join() -> (r: Weight)
        ensures
            r == (Weight { ref_time: 10_000_000, proof_size: 0 }),
    {
        SubstrateWeight::<()>::join()
    }

    fn amend() -> (r: Weight)
        ensures
            r == (Weight { ref_time: 15_000_000, proof_size: 0 }),
    {
        SubstrateWeight::<()>::amend()
    }

    fn dissolve() -> (r: Weight)
        ensures
            r == (Weight { ref_time: 15_000_000, proof_size: 0 }),
    {
        SubstrateWeight::<()>::dissolve()
    }

    fn grant_disclosure() -> (r: Weight)
        ensures
            r == (Weight { ref_time: 10_000_000, proof_size: 0 }),
    {
        SubstrateWeight::<()>::grant_disclosure()
    }

    fn reap() -> (r: Weight)
        ensures
            r == (Weight { ref_time: 15_000_000, proof_size: 0 }),
    {
        SubstrateWeight::<()>::reap()
    }
}

} // verus!
