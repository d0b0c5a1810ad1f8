//! The weights of the payments pallet's calls.

use core::marker::PhantomData;
use vstd::prelude::*;

use crate::authn::Get;
use crate::weight::{benchmarked, benchmarked_weight, db_reads, db_writes, rocks_db_weight, weight_add, RuntimeDbWeight, Weight};

verus! {

pub trait WeightInfo {
    fn pay(q: u32) -> Weight;

    fn release() -> Weight;

    fn cancel() -> Weight;

    fn request_refund() -> Weight;

    fn dispute_refund() -> Weight;

    fn resolve_dispute() -> Weight;

    fn request_payment() -> Weight;

    fn accept_and_pay() -> Weight;
}

/// The weight of paying with a remark of `q` bytes.
pub open spec fn pay_weight_spec(db: RuntimeDbWeight, q: u32) -> Weight {
    weight_add(
        weight_add(
            weight_add(
                weight_add(
                    Weight { ref_time: 218_726_681, proof_size: 0 },
                    Weight { ref_time: 0, proof_size: 8517 },
                ),
                Weight { ref_time: crate::weight::sat_mul(900_944, q as u64), proof_size: 0 },
            ),
            db_reads(db, 6),
        ),
        db_writes(db, 6),
    )
}

/// The weight of paying with a remark of `q` bytes, for the given database weights.
pub fn pay_weight(db: RuntimeDbWeight, q: u32) -> (r: Weight)
    ensures
        r == pay_weight_spec(db, q),
{
    Weight::from_parts(218_726_681, 0).saturating_add(Weight::from_parts(0, 8517)).saturating_add(
        Weight::from_parts(900_944, 0).saturating_mul(q as u64),
    ).saturating_add(db.reads(6)).saturating_add(db.writes(6))
}

/// The weight of `release`, for the given database weights.
pub fn release_weight(db: RuntimeDbWeight) -> (r: Weight)
    ensures
        r == benchmarked(404_550_000, 8856, db, 8, 8),
{
    benchmarked_weight(404_550_000, 8856, db, 8, 8)
}

/// The weight of `cancel`, for the given database weights.
pub fn cancel_weight(db: RuntimeDbWeight) -> (r: Weight)
    ensures
        r == benchmarked(308_347_000, 8517, db, 7, 7),
{
    benchmarked_weight(308_347_000, 8517, db, 7, 7)
}

/// The weight of `request_refund`, for the given database weights.
pub fn request_refund_weight(db: RuntimeDbWeight) -> (r: Weight)
    ensures
        r == benchmarked(82_549_000, 159279, db, 3, 3),
{
    benchmarked_weight(82_549_000, 159279, db, 3, 3)
}

/// The weight of `dispute_refund`, for the given database weights.
pub fn dispute_refund_weight(db: RuntimeDbWeight) -> (r: Weight)
    ensures
        r == benchmarked(216_604_000, 159279, db, 7, 6),
{
    benchmarked_weight(216_604_000, 159279, db, 7, 6)
}

/// The weight of `resolve_dispute`, for the given database weights.
pub fn resolve_dispute_weight(db: RuntimeDbWeight) -> (r: Weight)
    ensures
        r == benchmarked(602_119_000, 8856, db, 9, 8),
{
    benchmarked_weight(602_119_000, 8856, db, 9, 8)
}

/// The weight of `request_payment`, for the given database weights.
pub fn request_payment_weight(db: RuntimeDbWeight) -> (r: Weight)
    ensures
        r == benchmarked(58_829_000, 8517, db, 2, 2),
{
    benchmarked_weight(58_829_000, 8517, db, 2, 2)
}

/// The weight of `accept_and_pay`, for the given database weights.
pub fn accept_and_pay_weight(db: RuntimeDbWeight) -> (r: Weight)
    ensures
        r == benchmarked(369_330_000, 8856, db, 7, 6),
{
    benchmarked_weight(369_330_000, 8856, db, 7, 6)
}

/// The weights measured on reference hardware, with the runtime's database weights.
pub struct SubstrateWeight<T>(PhantomData<T>);

impl<T: Get<RuntimeDbWeight>> WeightInfo for SubstrateWeight<T> {
    fn pay(q: u32) -> (r: Weight)
        ensures
            r == pay_weight_spec(T::value(), q),
    {
        let db = T::get();
        pay_weight(db, q)
    }

    fn release() -> (r: Weight)
        ensures
            r == benchmarked(404_550_000, 8856, T::value(), 8, 8),
    {
        let db = T::get();
        release_weight(db)
    }

    fn cancel() -> (r: Weight)
        ensures
            r == benchmarked(308_347_000, 8517, T::value(), 7, 7),
    {
        let db = T::get();
        cancel_weight(db)
    }

    fn request_refund() -> (r: Weight)
        ensures
            r == benchmarked(82_549_000, 159279, T::value(), 3, 3),
    {
        let db = T::get();
        request_refund_weight(db)
    }

    fn dispute_refund() -> (r: Weight)
        ensures
            r == benchmarked(216_604_000, 159279, T::value(), 7, 6),
    {
        let db = T::get();
        dispute_refund_weight(db)
    }

    fn resolve_dispute() -> (r: Weight)
        ensures
            r == benchmarked(602_119_000, 8856, T::value(), 9, 8),
    {
        let db = T::get();
        resolve_dispute_weight(db)
    }

    fn request_payment() -> (r: Weight)
        ensures
            r == benchmarked(58_829_000, 8517, T::value(), 2, 2),
    {
        let db = T::get();
        request_payment_weight(db)
    }

    fn accept_and_pay() -> (r: Weight)
        ensures
            r == benchmarked(369_330_000, 8856, T::value(), 7, 6),
    {
        let db = T::get();
        accept_and_pay_weight(db)
    }
}

/// The weights measured on reference hardware, with RocksDB's database weights.
impl WeightInfo for () {
    fn pay(q: u32) -> (r: Weight)
        ensures
            r == pay_weight_spec(RuntimeDbWeight { read: 25_000_000, write: 100_000_000 }, q),
    {
        pay_weight(rocks_db_weight(), q)
    }

    fn release() -> (r: Weight)
        ensures
            r == benchmarked(404_550_000, 8856, RuntimeDbWeight { read: 25_000_000, write: 100_000_000 }, 8, 8),
    {
        release_weight(rocks_db_weight())
    }

    fn cancel() -> (r: Weight)
        ensures
            r == benchmarked(308_347_000, 8517, RuntimeDbWeight { read: 25_000_000, write: 100_000_000 }, 7, 7),
    {
        cancel_weight(rocks_db_weight())
    }

    fn request_refund() -> (r: Weight)
        ensures
            r == benchmarked(82_549_000, 159279, RuntimeDbWeight { read: 25_000_000, write: 100_000_000 }, 3, 3),
    {
        request_refund_weight(rocks_db_weight())
    }

    fn dispute_refund() -> (r: Weight)
        ensures
            r == benchmarked(216_604_000, 159279, RuntimeDbWeight { read: 25_000_000, write: 100_000_000 }, 7, 6),
    {
        dispute_refund_weight(rocks_db_weight())
    }

    fn resolve_dispute() -> (r: Weight)
        ensures
            r == benchmarked(602_119_000, 8856, RuntimeDbWeight { read: 25_000_000, write: 100_000_000 }, 9, 8),
    {
        resolve_dispute_weight(rocks_db_weight())
    }

    fn request_payment() -> (r: Weight)
        ensures
            r == benchmarked(58_829_000, 8517, RuntimeDbWeight { read: 25_000_000, write: 100_000_000 }, 2, 2),
    {
        request_payment_weight(rocks_db_weight())
    }

    fn accept_and_pay() -> (r: Weight)
        ensures
            r == benchmarked(369_330_000, 8856, RuntimeDbWeight { read: 25_000_000, write: 100_000_000 }, 7, 6),
    {
        accept_and_pay_weight(rocks_db_weight())
    }
}

} // verus!
