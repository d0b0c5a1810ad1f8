//! Two-dimensional weights (computation time and proof size) and the cost of database
//! accesses.

use vstd::prelude::*;

verus! {

pub open spec fn sat_add(a: u64, b: u64) -> u64 {
    if a + b > u64::MAX {
        u64::MAX
    } else {
        (a + b) as u64
    }
}

pub open spec fn sat_sub(a: u64, b: u64) -> u64 {
    if a < b {
        0
    } else {
        (a - b) as u64
    }
}

pub open spec fn sat_mul(a: u64, b: u64) -> u64 {
    if a * b > u64::MAX {
        u64::MAX
    } else {
        (a * b) as u64
    }
}

pub fn saturating_add(a: u64, b: u64) -> (r: u64)
    ensures
        r == sat_add(a, b),
{
    a.saturating_add(b)
}

pub fn saturating_sub(a: u64, b: u64) -> (r: u64)
    ensures
        r == sat_sub(a, b),
{
    a.saturating_sub(b)
}

pub fn saturating_mul(a: u64, b: u64) -> (r: u64)
    ensures
        r == sat_mul(a, b),
{
    if b == 0 {
        return 0;
    }
    if a > u64::MAX / b {
        proof {
            assert(a * b > u64::MAX) by (nonlinear_arith)
                requires
                    a > u64::MAX / b,
                    b > 0,
            ;
        }
        u64::MAX
    } else {
        proof {
            assert(a * b <= u64::MAX) by (nonlinear_arith)
                requires
                    a <= u64::MAX / b,
                    b > 0,
            ;
        }
        a * b
    }
}

/// Component-wise addition, `None` if either component overflows.
pub open spec fn weight_checked_add(a: Weight, b: Weight) -> Option<Weight> {
    if a.ref_time + b.ref_time <= u64::MAX && a.proof_size + b.proof_size <= u64::MAX {
        Some(
            Weight {
                ref_time: (a.ref_time + b.ref_time) as u64,
                proof_size: (a.proof_size + b.proof_size) as u64,
            },
        )
    } else {
        None
    }
}

/// Component-wise subtraction, `None` if either component underflows.
pub open spec fn weight_checked_sub(a: Weight, b: Weight) -> Option<Weight> {
    if a.ref_time >= b.ref_time && a.proof_size >= b.proof_size {
        Some(
            Weight {
                ref_time: (a.ref_time - b.ref_time) as u64,
                proof_size: (a.proof_size - b.proof_size) as u64,
            },
        )
    } else {
        None
    }
}

/// Component-wise subtraction, floored at zero.
pub open spec fn weight_saturating_sub(a: Weight, b: Weight) -> Weight {
    Weight { ref_time: sat_sub(a.ref_time, b.ref_time), proof_size: sat_sub(a.proof_size, b.proof_size) }
}

/// The largest weight.
pub open spec fn weight_max() -> Weight {
    Weight { ref_time: u64::MAX, proof_size: u64::MAX }
}

/// Component-wise addition, capped at the largest value.
pub open spec fn weight_add(a: Weight, b: Weight) -> Weight {
    Weight { ref_time: sat_add(a.ref_time, b.ref_time), proof_size: sat_add(a.proof_size, b.proof_size) }
}

/// The weight of `reads` reads and `writes` writes, separately.
pub open spec fn db_reads(db: RuntimeDbWeight, reads: u64) -> Weight {
    Weight { ref_time: sat_mul(db.read, reads), proof_size: 0 }
}

pub open spec fn db_writes(db: RuntimeDbWeight, writes: u64) -> Weight {
    Weight { ref_time: sat_mul(db.write, writes), proof_size: 0 }
}

/// The zero weight.
pub open spec fn weight_zero() -> Weight {
    Weight { ref_time: 0, proof_size: 0 }
}

/// A weight: computation time and proof size.
#[derive(Clone, Copy, Debug, PartialEq, Eq, Default, Structural)]
pub struct Weight {
    pub ref_time: u64,
    pub proof_size: u64,
}

impl Weight {
    pub fn from_parts(ref_time: u64, proof_size: u64) -> (r: Weight)
        ensures
            r.ref_time == ref_time,
            r.proof_size == proof_size,
    {
        Weight { ref_time, proof_size }
    }

    pub fn zero() -> (r: Weight)
        ensures
            r.ref_time == 0,
            r.proof_size == 0,
    {
        Weight { ref_time: 0, proof_size: 0 }
    }

    pub fn max_value() -> (r: Weight)
        ensures
            r.ref_time == u64::MAX,
            r.proof_size == u64::MAX,
    {
        Weight { ref_time: u64::MAX, proof_size: u64::MAX }
    }

    /// Component-wise saturating addition.
    pub fn saturating_add(self, other: Weight) -> (r: Weight)
        ensures
            r.ref_time == sat_add(self.ref_time, other.ref_time),
            r.proof_size == sat_add(self.proof_size, other.proof_size),
    {
        Weight {
            ref_time: saturating_add(self.ref_time, other.ref_time),
            proof_size: saturating_add(self.proof_size, other.proof_size),
        }
    }

    /// Component-wise saturating subtraction.
    pub fn saturating_sub(self, other: Weight) -> (r: Weight)
        ensures
            r.ref_time == sat_sub(self.ref_time, other.ref_time),
            r.proof_size == sat_sub(self.proof_size, other.proof_size),
    {
        Weight {
            ref_time: saturating_sub(self.ref_time, other.ref_time),
            proof_size: saturating_sub(self.proof_size, other.proof_size),
        }
    }

    /// Component-wise checked addition: `None` if either component overflows.
    pub fn checked_add(self, other: Weight) -> (r: Option<Weight>)
        ensures
            r == weight_checked_add(self, other),
    {
        match (self.ref_time.checked_add(other.ref_time), self.proof_size.checked_add(other.proof_size)) {
            (Some(a), Some(b)) => Some(Weight { ref_time: a, proof_size: b }),
            _ => None,
        }
    }

    /// Component-wise checked subtraction: `None` if either component underflows.
    pub fn checked_sub(self, other: Weight) -> (r: Option<Weight>)
        ensures
            r == weight_checked_sub(self, other),
    {
        match (self.ref_time.checked_sub(other.ref_time), self.proof_size.checked_sub(other.proof_size)) {
            (Some(a), Some(b)) => Some(Weight { ref_time: a, proof_size: b }),
            _ => None,
        }
    }

    /// Component-wise saturating multiplication by a scalar.
    pub fn saturating_mul(self, b: u64) -> (r: Weight)
        ensures
            r.ref_time == sat_mul(self.ref_time, b),
            r.proof_size == sat_mul(self.proof_size, b),
    {
        Weight { ref_time: saturating_mul(self.ref_time, b), proof_size: saturating_mul(self.proof_size, b) }
    }

    /// The component-wise minimum.
    pub fn min(self, other: Weight) -> (r: Weight)
        ensures
            r.ref_time == (if self.ref_time <= other.ref_time {
                self.ref_time
            } else {
                other.ref_time
            }),
            r.proof_size == (if self.proof_size <= other.proof_size {
                self.proof_size
            } else {
                other.proof_size
            }),
    {
        Weight {
            ref_time: if self.ref_time <= other.ref_time {
                self.ref_time
            } else {
                other.ref_time
            },
            proof_size: if self.proof_size <= other.proof_size {
                self.proof_size
            } else {
                other.proof_size
            },
        }
    }
}

/// The time cost of one database read and of one database write.
/// The weights of one database read and one database write.
#[derive(Clone, Copy, Debug, PartialEq, Eq)]
pub struct RuntimeDbWeight {
    pub read: u64,
    pub write: u64,
}

impl RuntimeDbWeight {
    /// The weight of `r` reads.
    pub fn reads(self, r: u64) -> (w: Weight)
        ensures
            w.ref_time == sat_mul(self.read, r),
            w.proof_size == 0,
    {
        Weight { ref_time: saturating_mul(self.read, r), proof_size: 0 }
    }

    /// The weight of `w` writes.
    pub fn writes(self, w: u64) -> (r: Weight)
        ensures
            r.ref_time == sat_mul(self.write, w),
            r.proof_size == 0,
    {
        Weight { ref_time: saturating_mul(self.write, w), proof_size: 0 }
    }

    pub open spec fn reads_writes_spec(self, r: u64, w: u64) -> Weight {
        Weight { ref_time: sat_add(sat_mul(self.read, r), sat_mul(self.write, w)), proof_size: 0 }
    }

    /// The weight of `r` reads and `w` writes.
    pub fn reads_writes(self, r: u64, w: u64) -> (res: Weight)
        ensures
            res == self.reads_writes_spec(r, w),
    {
        let read_weight = saturating_mul(self.read, r);
        let write_weight = saturating_mul(self.write, w);
        Weight { ref_time: saturating_add(read_weight, write_weight), proof_size: 0 }
    }
}

/// The database weights of RocksDB: 25 µs a read, 100 µs a write.
pub fn rocks_db_weight() -> (r: RuntimeDbWeight)
    ensures
        r.read == 25_000_000 && r.write == 100_000_000,
{
    RuntimeDbWeight { read: 25_000_000, write: 100_000_000 }
}

/// A benchmarked weight: time and proof size, then the reads and writes.
pub open spec fn benchmarked(ref_time: u64, proof_size: u64, db: RuntimeDbWeight, reads: u64, writes: u64) -> Weight {
    weight_add(
        weight_add(
            weight_add(Weight { ref_time, proof_size: 0 }, Weight { ref_time: 0, proof_size }),
            db_reads(db, reads),
        ),
        db_writes(db, writes),
    )
}

/// Computes a benchmarked weight.
pub fn benchmarked_weight(ref_time: u64, proof_size: u64, db: RuntimeDbWeight, reads: u64, writes: u64) -> (r: Weight)
    ensures
        r == benchmarked(ref_time, proof_size, db, reads, writes),
{
    Weight::from_parts(ref_time, 0).saturating_add(Weight::from_parts(0, proof_size)).saturating_add(db.reads(reads)).saturating_add(
        db.writes(writes),
    )
}

} // verus!
