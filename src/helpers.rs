//! Block and sample arithmetic of a series.

use vstd::prelude::*;
use crate::meta::{BlockLength, SampleLength, SeriesMeta, StorageType, TimeResolution};

verus! {

/// Samples per block that a derived block size aims for at least.
pub const MIN_BLOCK_LENGTH: u64 = 1024;

/// `len` units of `res`, in milliseconds.
pub fn duration(res: TimeResolution, len: u64) -> (r: u64)
    requires
        len * res.spec_ms() <= u64::MAX,
    ensures
        r == len * res.spec_ms(),
{
    len * res.ms()
}

/// The millisecond offset at which block `block_id` starts.
pub fn get_block_start_as_offset(meta: &SeriesMeta, block_id: u64) -> (r: u64)
    requires
        meta.wf(),
        block_id * meta.block_ms() <= u64::MAX,
    ensures
        r == block_id * meta.block_ms(),
{
    let d = duration(meta.block_resolution, meta.block_length.0);
    block_id * d
}

/// The block that holds the millisecond timestamp `unix_ms`.
pub fn get_block_id(meta: &SeriesMeta, unix_ms: u64) -> (r: u64)
    requires
        meta.wf(),
    ensures
        r == unix_ms as int / meta.block_ms(),
{
    unix_ms / duration(meta.block_resolution, meta.block_length.0)
}

/// The sample slot that lies `delta_from_block_start` milliseconds into a block.
pub fn get_sample_offset(meta: &SeriesMeta, delta_from_block_start: u64) -> (r: u64)
    requires
        meta.wf(),
    ensures
        r == delta_from_block_start as int / meta.sample_ms(),
{
    delta_from_block_start / duration(meta.sample_resolution, meta.sample_length.0)
}

/// Samples per block.
pub fn get_block_length(meta: &SeriesMeta) -> (r: u64)
    requires
        meta.wf(),
    ensures
        r == meta.capacity(),
        0 < r <= u32::MAX,
{
    let block_duration = duration(meta.block_resolution, meta.block_length.0);
    let sample_duration = duration(meta.sample_resolution, meta.sample_length.0);
    proof {
        let b = meta.block_ms();
        let s = meta.sample_ms();
        assert(b / s >= 1) by (nonlinear_arith)
            requires
                b > s,
                s > 0,
        ;
    }
    block_duration / sample_duration
}

/// A duration as a length and a unit.
#[derive(Clone, Copy, Debug)]
pub struct TimeDuration {
    pub len: u64,
    pub res: TimeResolution,
}

/// The standard block durations as a length and unit, ascending.
pub open spec fn bucket_spec(i: int) -> (u64, TimeResolution) {
    if i == 0 {
        (1, TimeResolution::Second)
    } else if i == 1 {
        (5, TimeResolution::Second)
    } else if i == 2 {
        (15, TimeResolution::Second)
    } else if i == 3 {
        (30, TimeResolution::Second)
    } else if i == 4 {
        (1, TimeResolution::Minute)
    } else if i == 5 {
        (5, TimeResolution::Minute)
    } else if i == 6 {
        (15, TimeResolution::Minute)
    } else if i == 7 {
        (30, TimeResolution::Minute)
    } else if i == 8 {
        (1, TimeResolution::Hour)
    } else if i == 9 {
        (2, TimeResolution::Hour)
    } else if i == 10 {
        (6, TimeResolution::Hour)
    } else if i == 11 {
        (12, TimeResolution::Hour)
    } else if i == 12 {
        (24, TimeResolution::Hour)
    } else if i == 13 {
        (36, TimeResolution::Hour)
    } else if i == 14 {
        (48, TimeResolution::Hour)
    } else if i == 15 {
        (72, TimeResolution::Hour)
    } else if i == 16 {
        (144, TimeResolution::Hour)
    } else if i == 17 {
        (288, TimeResolution::Hour)
    } else if i == 18 {
        (576, TimeResolution::Hour)
    } else {
        (1152, TimeResolution::Hour)
    }
}

/// The standard block durations, in milliseconds.
pub open spec fn bucket_ms(i: int) -> int {
    bucket_spec(i).0 * bucket_spec(i).1.spec_ms()
}

/// Number of standard block durations.
pub const N_BUCKETS: usize = 20;

/// The first standard duration at or above `ms`, searching from `i` on.
pub open spec fn first_bucket_from(ms: int, i: int) -> Option<int>
    decreases 20 - i,
{
    if i >= 20 || i < 0 {
        None
    } else if ms <= bucket_ms(i) {
        Some(i)
    } else {
        first_bucket_from(ms, i + 1)
    }
}

impl TimeDuration {
    pub open spec fn spec_ms(self) -> int {
        self.len * self.res.spec_ms()
    }

    /// The standard duration `i`, as a length and unit.
    pub fn bucket(i: usize) -> (r: TimeDuration)
        requires
            i < N_BUCKETS,
        ensures
            (r.len, r.res) == bucket_spec(i as int),
            r.spec_ms() == bucket_ms(i as int),
    {
        let (len, res): (u64, TimeResolution) = if i == 0 {
            (1, TimeResolution::Second)
        } else if i == 1 {
            (5, TimeResolution::Second)
        } else if i == 2 {
            (15, TimeResolution::Second)
        } else if i == 3 {
            (30, TimeResolution::Second)
        } else if i == 4 {
            (1, TimeResolution::Minute)
        } else if i == 5 {
            (5, TimeResolution::Minute)
        } else if i == 6 {
            (15, TimeResolution::Minute)
        } else if i == 7 {
            (30, TimeResolution::Minute)
        } else if i == 8 {
            (1, TimeResolution::Hour)
        } else if i == 9 {
            (2, TimeResolution::Hour)
        } else if i == 10 {
            (6, TimeResolution::Hour)
        } else if i == 11 {
            (12, TimeResolution::Hour)
        } else if i == 12 {
            (24, TimeResolution::Hour)
        } else if i == 13 {
            (36, TimeResolution::Hour)
        } else if i == 14 {
            (48, TimeResolution::Hour)
        } else if i == 15 {
            (72, TimeResolution::Hour)
        } else if i == 16 {
            (144, TimeResolution::Hour)
        } else if i == 17 {
            (288, TimeResolution::Hour)
        } else if i == 18 {
            (576, TimeResolution::Hour)
        } else {
            (1152, TimeResolution::Hour)
        };
        TimeDuration { len, res }
    }

    /// The smallest standard duration at least as long as `self`, or `self`
    /// when it exceeds them all.
    pub fn clamp(&self) -> (r: TimeDuration)
        requires
            self.spec_ms() <= u64::MAX,
        ensures
            match first_bucket_from(self.spec_ms(), 0) {
                Some(i) => (r.len, r.res) == bucket_spec(i),
                None => r == *self,
            },
    {
        let ms = duration(self.res, self.len);
        let mut i: usize = 0;
        while i < N_BUCKETS
            invariant
                ms == self.spec_ms(),
                i <= N_BUCKETS,
                first_bucket_from(self.spec_ms(), 0) == first_bucket_from(self.spec_ms(), i as int),
            decreases N_BUCKETS - i,
        {
            let b = Self::bucket(i);
            if ms <= duration(b.res, b.len) {
                return b;
            }
            i = i + 1;
        }
        *self
    }

    /// The standard block duration for a block of `len` units of `res`.
    pub fn find_bucket(len: u64, res: TimeResolution) -> (r: TimeDuration)
        requires
            len > 0,
            len * res.spec_ms() <= u64::MAX,
        ensures
            match first_bucket_from(len * res.spec_ms(), 0) {
                Some(i) => (r.len, r.res) == bucket_spec(i),
                None => r.len == len && r.res == res,
            },
    {
        TimeDuration { len, res }.clamp()
    }
}

/// The length and unit that `derive_block_size` starts from: `ms`
/// milliseconds in the largest unit below them.
pub open spec fn initial_block_size(ms: int) -> (int, TimeResolution) {
    if ms < 1000 {
        (ms, TimeResolution::Millisecond)
    } else if ms < 60_000 {
        (ms / 1000, TimeResolution::Second)
    } else if ms < 3_600_000 {
        (ms / 60_000, TimeResolution::Minute)
    } else {
        (ms / 3_600_000, TimeResolution::Hour)
    }
}

/// A block size for a series with no explicit one: at least
/// `MIN_BLOCK_LENGTH` samples, rounded up to a standard duration.
pub fn derive_block_size(
    storage_type: StorageType,
    sample_res: TimeResolution,
    sample_len: SampleLength,
) -> (r: (BlockLength, TimeResolution))
    requires
        sample_len.0 > 0,
        sample_len.0 * sample_res.spec_ms() * MIN_BLOCK_LENGTH <= u64::MAX,
    ensures
        ({
            let ms = sample_len.0 * sample_res.spec_ms() * MIN_BLOCK_LENGTH;
            let (l, u) = initial_block_size(ms);
            match first_bucket_from(l * u.spec_ms(), 0) {
                Some(i) => (r.0.0, r.1) == bucket_spec(i),
                None => r.0.0 == l && r.1 == u,
            }
        }),
{
    let ms_per_sample = duration(sample_res, sample_len.0);
    proof {
        assert(ms_per_sample * MIN_BLOCK_LENGTH >= 1024) by (nonlinear_arith)
            requires
                ms_per_sample >= 1,
        ;
        assert(sample_len.0 * sample_res.spec_ms() >= 1) by (nonlinear_arith)
            requires
                sample_len.0 >= 1,
                sample_res.spec_ms() >= 1,
        ;
    }
    let ms = ms_per_sample * MIN_BLOCK_LENGTH;
    let (block_len, block_res): (u64, TimeResolution) = if ms < 1000 {
        (ms, TimeResolution::Millisecond)
    } else if ms < 60_000 {
        (ms / 1000, TimeResolution::Second)
    } else if ms < 3_600_000 {
        (ms / 60_000, TimeResolution::Minute)
    } else {
        (ms / 3_600_000, TimeResolution::Hour)
    };
    proof {
        let u = block_res.spec_ms();
        assert(block_len * u <= ms) by (nonlinear_arith)
            requires
                u > 0,
                block_len == ms as int / u as int,
        ;
    }
    let bucket = TimeDuration::find_bucket(block_len, block_res);
    (BlockLength(bucket.len), bucket.res)
}

} // verus!
