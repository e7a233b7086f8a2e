//! Per-block statistics, sized blocks and writes into them.

use vstd::prelude::*;
use crate::meta::{
    bits_fit, sample_int, sample_value, spec_type_max, spec_type_min, type_max, type_min,
    BlockNumber, Quality, SeriesMeta, StorageType, QUALITY_MISSING,
};
use crate::wal::TxId;

verus! {

/// Quality accumulator flag of a good slot.
pub const ACC_GOOD: u32 = 1;

/// Quality accumulator flag of a bad slot.
pub const ACC_BAD: u32 = 2;

/// Quality accumulator flag of an uncertain slot.
pub const ACC_UNCERTAIN: u32 = 4;

/// Quality accumulator flag of a missing slot.
pub const ACC_NODATA: u32 = 8;

/// A widened sum: `i64`/`i128` for signed samples, `u64`/`u128` for
/// unsigned ones, the bits of an `f64` for floating-point ones.
#[derive(Clone, Copy, PartialEq, Eq, Structural, Debug)]
pub enum Accum {
    Signed(i128),
    Unsigned(u128),
    Float(u64),
}

/// Lower bound of the accumulator of a sample type.
pub open spec fn acc_lo(st: StorageType) -> int {
    match st {
        StorageType::Int32 => i64::MIN as int,
        StorageType::Int64 => i128::MIN as int,
        _ => 0,
    }
}

/// Upper bound of the accumulator of a sample type.
pub open spec fn acc_hi(st: StorageType) -> int {
    match st {
        StorageType::Int32 => i64::MAX as int,
        StorageType::Int64 => i128::MAX as int,
        StorageType::UInt32 => u64::MAX as int,
        StorageType::Enumeration => u64::MAX as int,
        StorageType::UInt64 => u128::MAX as int,
        _ => 0,
    }
}

/// `x` clamped to the accumulator's range.
pub open spec fn saturate(st: StorageType, x: int) -> int {
    if x < acc_lo(st) {
        acc_lo(st)
    } else if x > acc_hi(st) {
        acc_hi(st)
    } else {
        x
    }
}

/// The accumulator of a sample type holding `x`.
pub open spec fn accum_of(st: StorageType, x: int) -> Accum {
    match st {
        StorageType::Float32 | StorageType::Float64 => Accum::Float(0),
        StorageType::Int32 | StorageType::Int64 => Accum::Signed(x as i128),
        _ => Accum::Unsigned(x as u128),
    }
}

/// Whether a slot of quality `q` counts: valid slots, or non-missing ones.
pub open spec fn picks(q: Quality, valid_only: bool) -> bool {
    if valid_only {
        q.spec_is_valid()
    } else {
        !q.spec_is_missing()
    }
}

/// Number of counted slots among the first `n`.
pub open spec fn count_picks(qs: Seq<Quality>, n: int, valid_only: bool) -> nat
    decreases n,
{
    if n <= 0 {
        0
    } else {
        count_picks(qs, n - 1, valid_only) + if picks(qs[n - 1], valid_only) {
            1nat
        } else {
            0nat
        }
    }
}

/// Some slot among the first `n` counts.
pub open spec fn any_pick(qs: Seq<Quality>, n: int, valid_only: bool) -> bool {
    exists|j: int| 0 <= j < n && #[trigger] picks(qs[j], valid_only)
}

/// The 4-bit flag of a slot's quality.
pub open spec fn qual_flag(q: Quality) -> u32 {
    if q.spec_is_missing() {
        ACC_NODATA
    } else if q.major() == 0 {
        ACC_BAD
    } else if q.major() == 1 {
        ACC_UNCERTAIN
    } else {
        ACC_GOOD
    }
}

/// OR of the flags of the first `n` slots.
pub open spec fn acc_or(qs: Seq<Quality>, n: int) -> u32
    decreases n,
{
    if n <= 0 {
        0
    } else {
        acc_or(qs, n - 1) | qual_flag(qs[n - 1])
    }
}

/// AND of the flags of the first `n` slots.
pub open spec fn acc_and(qs: Seq<Quality>, n: int) -> u32
    decreases n,
{
    if n <= 0 {
        u32::MAX
    } else {
        acc_and(qs, n - 1) & qual_flag(qs[n - 1])
    }
}

/// The saturating widened sum of the valid samples among the first `n`.
pub open spec fn valid_sum(st: StorageType, vals: Seq<u64>, qs: Seq<Quality>, n: int) -> int
    decreases n,
{
    if n <= 0 {
        0
    } else {
        let s = valid_sum(st, vals, qs, n - 1);
        if qs[n - 1].spec_is_valid() {
            saturate(st, s + sample_int(st, vals[n - 1]))
        } else {
            s
        }
    }
}

/// `off`, `v`, `q` describe the first counted slot among the first `n`, or
/// the empty sentinel when there is none.
pub open spec fn first_ok(
    off: u32,
    v: u64,
    q: Quality,
    vals: Seq<u64>,
    qs: Seq<Quality>,
    n: int,
    valid_only: bool,
) -> bool {
    if any_pick(qs, n, valid_only) {
        &&& off < n
        &&& picks(qs[off as int], valid_only)
        &&& v == vals[off as int]
        &&& q == qs[off as int]
        &&& forall|j: int| 0 <= j < off ==> !#[trigger] picks(qs[j], valid_only)
    } else {
        off == u32::MAX && v == 0 && q.0 == QUALITY_MISSING
    }
}

/// `off`, `v`, `q` describe the last counted slot among the first `n`, or
/// the empty sentinel when there is none.
pub open spec fn last_ok(
    off: u32,
    v: u64,
    q: Quality,
    vals: Seq<u64>,
    qs: Seq<Quality>,
    n: int,
    valid_only: bool,
) -> bool {
    if any_pick(qs, n, valid_only) {
        &&& off < n
        &&& picks(qs[off as int], valid_only)
        &&& v == vals[off as int]
        &&& q == qs[off as int]
        &&& forall|j: int| off < j < n ==> !#[trigger] picks(qs[j], valid_only)
    } else {
        off == 0 && v == 0 && q.0 == QUALITY_MISSING
    }
}

/// `m` is the least (or, with `largest`, the greatest) valid sample among the
/// first `n`.
pub open spec fn extreme_ok(
    m: u64,
    st: StorageType,
    vals: Seq<u64>,
    qs: Seq<Quality>,
    n: int,
    largest: bool,
) -> bool {
    &&& exists|j: int| 0 <= j < n && #[trigger] qs[j].spec_is_valid() && vals[j] == m
    &&& forall|j: int|
        0 <= j < n && #[trigger] qs[j].spec_is_valid() ==> if largest {
            sample_int(st, vals[j]) <= sample_int(st, m)
        } else {
            sample_int(st, m) <= sample_int(st, vals[j])
        }
}

/// Statistics of a block.
#[derive(Clone, Debug)]
pub struct BlockMeta {
    pub count_non_missing: u32,
    pub count_valid: u32,
    pub sum: Accum,
    pub min: u64,
    pub max: u64,
    pub fst_valid: u64,
    pub fst_valid_q: Quality,
    pub lst_valid: u64,
    pub lst_valid_q: Quality,
    pub fst_valid_offset: u32,
    pub lst_valid_offset: u32,
    pub fst: u64,
    pub fst_q: Quality,
    pub lst: u64,
    pub lst_q: Quality,
    pub fst_offset: u32,
    pub lst_offset: u32,
    pub qual_acc_or: u32,
    pub qual_acc_and: u32,
    pub object_key: String,
}

/// The statistics `m` are those of the values `vals` with qualities `qs`,
/// for samples of type `st`.  Floating-point aggregates (min, max, sum) are
/// not computed here and stay zero.
pub open spec fn stats_ok(m: BlockMeta, st: StorageType, vals: Seq<u64>, qs: Seq<Quality>) -> bool {
    let n = qs.len() as int;
    &&& m.count_non_missing == count_picks(qs, n, false)
    &&& m.count_valid == count_picks(qs, n, true)
    &&& m.qual_acc_or == acc_or(qs, n)
    &&& m.qual_acc_and == acc_and(qs, n)
    &&& first_ok(m.fst_offset, m.fst, m.fst_q, vals, qs, n, false)
    &&& last_ok(m.lst_offset, m.lst, m.lst_q, vals, qs, n, false)
    &&& first_ok(m.fst_valid_offset, m.fst_valid, m.fst_valid_q, vals, qs, n, true)
    &&& last_ok(m.lst_valid_offset, m.lst_valid, m.lst_valid_q, vals, qs, n, true)
    &&& if st.spec_is_float() || !any_pick(qs, n, true) {
        m.min == 0 && m.max == 0
    } else {
        extreme_ok(m.min, st, vals, qs, n, false) && extreme_ok(m.max, st, vals, qs, n, true)
    }
    &&& m.sum == accum_of(st, valid_sum(st, vals, qs, n))
}

/// Adds one sample to a widened sum, saturating at the accumulator's bounds.
fn accumulate(st: StorageType, sum: Accum, bits: u64, Ghost(s): Ghost<int>) -> (r: Accum)
    requires
        !st.spec_is_float(),
        acc_lo(st) <= s <= acc_hi(st),
        sum == accum_of(st, s),
        bits_fit(st, bits),
    ensures
        r == accum_of(st, saturate(st, s + sample_int(st, bits))),
{
    match sum {
        Accum::Signed(a) => {
            let v = sample_value(st, bits);
            match st {
                StorageType::Int32 => {
                    let t = a + v;
                    if t > i64::MAX as i128 {
                        Accum::Signed(i64::MAX as i128)
                    } else if t < i64::MIN as i128 {
                        Accum::Signed(i64::MIN as i128)
                    } else {
                        Accum::Signed(t)
                    }
                },
                _ => {
                    if v >= 0 {
                        if a > i128::MAX - v {
                            Accum::Signed(i128::MAX)
                        } else {
                            Accum::Signed(a + v)
                        }
                    } else {
                        if a < i128::MIN - v {
                            Accum::Signed(i128::MIN)
                        } else {
                            Accum::Signed(a + v)
                        }
                    }
                },
            }
        },
        Accum::Unsigned(a) => {
            let v = bits as u128;
            match st {
                StorageType::UInt64 => Accum::Unsigned(a.saturating_add(v)),
                _ => {
                    let t = a + v;
                    if t > u64::MAX as u128 {
                        Accum::Unsigned(u64::MAX as u128)
                    } else {
                        Accum::Unsigned(t)
                    }
                },
            }
        },
        Accum::Float(_) => sum,
    }
}

/// `sample_int(st, a) < sample_int(st, b)`.
pub fn sample_lt(st: StorageType, a: u64, b: u64) -> (r: bool)
    ensures
        r == (sample_int(st, a) < sample_int(st, b)),
{
    sample_value(st, a) < sample_value(st, b)
}

pub proof fn lemma_valid_sum_range(st: StorageType, vals: Seq<u64>, qs: Seq<Quality>, n: int)
    requires
        !st.spec_is_float(),
    ensures
        acc_lo(st) <= valid_sum(st, vals, qs, n) <= acc_hi(st),
    decreases n,
{
    if n > 0 {
        lemma_valid_sum_range(st, vals, qs, n - 1);
    }
}

impl BlockMeta {
    /// Empty statistics for samples of type `st`.
    pub fn new(st: StorageType) -> (r: BlockMeta)
        ensures
            r.count_non_missing == 0,
            r.count_valid == 0,
            r.sum == accum_of(st, 0),
            r.min == spec_type_max(st),
            r.max == spec_type_min(st),
            r.fst_offset == u32::MAX,
            r.lst_offset == 0,
            r.fst_valid_offset == u32::MAX,
            r.lst_valid_offset == 0,
            r.fst == 0 && r.lst == 0 && r.fst_valid == 0 && r.lst_valid == 0,
            r.fst_q.0 == QUALITY_MISSING && r.lst_q.0 == QUALITY_MISSING,
            r.fst_valid_q.0 == QUALITY_MISSING && r.lst_valid_q.0 == QUALITY_MISSING,
            r.qual_acc_or == 0,
            r.qual_acc_and == u32::MAX,
            r.object_key@.len() == 0,
    {
        let sum = if st.is_float() {
            Accum::Float(0)
        } else {
            match st {
                StorageType::Int32 | StorageType::Int64 => Accum::Signed(0),
                _ => Accum::Unsigned(0),
            }
        };
        BlockMeta {
            count_non_missing: 0,
            count_valid: 0,
            sum,
            min: type_max(st),
            max: type_min(st),
            fst_valid: 0,
            fst_valid_q: Quality::missing(),
            lst_valid: 0,
            lst_valid_q: Quality::missing(),
            fst_valid_offset: u32::MAX,
            lst_valid_offset: 0,
            fst: 0,
            fst_q: Quality::missing(),
            lst: 0,
            lst_q: Quality::missing(),
            fst_offset: u32::MAX,
            lst_offset: 0,
            qual_acc_or: 0,
            qual_acc_and: u32::MAX,
            object_key: String::new(),
        }
    }
}


impl BlockMeta {
    /// Recomputes every statistic from the block's values and qualities in
    /// one scan.  The object key is kept.
    #[verifier::rlimit(50)]
    pub fn recalc_block_data_full(&mut self, st: StorageType, vals: &[u64], qs: &[Quality])
        requires
            vals@.len() == qs@.len(),
            qs@.len() > 0,
            qs@.len() <= u32::MAX,
            forall|i: int| 0 <= i < vals@.len() ==> bits_fit(st, #[trigger] vals@[i]),
        ensures
            stats_ok(*final(self), st, vals@, qs@),
            final(self).object_key == old(self).object_key,
    {
        let float = st.is_float();
        self.count_non_missing = 0;
        self.count_valid = 0;
        self.sum = if float {
            Accum::Float(0)
        } else {
            match st {
                StorageType::Int32 | StorageType::Int64 => Accum::Signed(0),
                _ => Accum::Unsigned(0),
            }
        };
        self.min = type_max(st);
        self.max = type_min(st);
        self.fst_offset = u32::MAX;
        self.lst_offset = 0;
        self.fst = 0;
        self.fst_q = Quality::missing();
        self.lst = 0;
        self.lst_q = Quality::missing();
        self.fst_valid_offset = u32::MAX;
        self.lst_valid_offset = 0;
        self.fst_valid = 0;
        self.fst_valid_q = Quality::missing();
        self.lst_valid = 0;
        self.lst_valid_q = Quality::missing();
        self.qual_acc_or = 0;
        self.qual_acc_and = u32::MAX;
        let n = qs.len();
        let mut i: usize = 0;
        while i < n
            invariant
                n == qs@.len(),
                vals@.len() == n,
                n <= u32::MAX,
                forall|k: int| 0 <= k < vals@.len() ==> bits_fit(st, #[trigger] vals@[k]),
                float == st.spec_is_float(),
                0 <= i <= n,
                self.object_key == old(self).object_key,
                self.count_non_missing == count_picks(qs@, i as int, false),
                self.count_valid == count_picks(qs@, i as int, true),
                count_picks(qs@, i as int, false) <= i,
                count_picks(qs@, i as int, true) <= i,
                (count_picks(qs@, i as int, false) > 0) == any_pick(qs@, i as int, false),
                (count_picks(qs@, i as int, true) > 0) == any_pick(qs@, i as int, true),
                self.qual_acc_or == acc_or(qs@, i as int),
                self.qual_acc_and == acc_and(qs@, i as int),
                first_ok(self.fst_offset, self.fst, self.fst_q, vals@, qs@, i as int, false),
                last_ok(self.lst_offset, self.lst, self.lst_q, vals@, qs@, i as int, false),
                first_ok(
                    self.fst_valid_offset,
                    self.fst_valid,
                    self.fst_valid_q,
                    vals@,
                    qs@,
                    i as int,
                    true,
                ),
                last_ok(
                    self.lst_valid_offset,
                    self.lst_valid,
                    self.lst_valid_q,
                    vals@,
                    qs@,
                    i as int,
                    true,
                ),
                self.sum == accum_of(st, valid_sum(st, vals@, qs@, i as int)),
                !float && any_pick(qs@, i as int, true) ==> extreme_ok(
                    self.min,
                    st,
                    vals@,
                    qs@,
                    i as int,
                    false,
                ) && extreme_ok(self.max, st, vals@, qs@, i as int, true),
            decreases n - i,
        {
            let v = vals[i];
            let q = qs[i];
            let ghost old_min = self.min;
            let ghost old_max = self.max;
            let ghost had_valid = any_pick(qs@, i as int, true);
            let flag = if q.is_missing() {
                ACC_NODATA
            } else if q.is_bad() {
                ACC_BAD
            } else if q.is_uncertain() {
                ACC_UNCERTAIN
            } else {
                ACC_GOOD
            };
            self.qual_acc_or = self.qual_acc_or | flag;
            self.qual_acc_and = self.qual_acc_and & flag;
            proof {
                assert(qs@[i as int] == q);
                assert(vals@[i as int] == v);
                if picks(q, false) {
                    assert(picks(qs@[i as int], false));
                }
                if picks(q, true) {
                    assert(picks(qs@[i as int], true));
                }
            }
            if !q.is_missing() {
                if self.count_non_missing == 0 {
                    self.fst_offset = i as u32;
                    self.fst = v;
                    self.fst_q = q;
                }
                self.lst_offset = i as u32;
                self.lst = v;
                self.lst_q = q;
                if q.is_valid() {
                    if !float {
                        proof {
                            lemma_valid_sum_range(st, vals@, qs@, i as int);
                        }
                        self.sum = accumulate(
                            st,
                            self.sum,
                            v,
                            Ghost(valid_sum(st, vals@, qs@, i as int)),
                        );
                    }
                    if self.count_valid == 0 {
                        self.fst_valid_offset = i as u32;
                        self.fst_valid = v;
                        self.fst_valid_q = q;
                        if !float {
                            self.min = v;
                            self.max = v;
                        }
                    } else if !float {
                        if sample_lt(st, v, self.min) {
                            self.min = v;
                        }
                        if sample_lt(st, self.max, v) {
                            self.max = v;
                        }
                    }
                    self.lst_valid_offset = i as u32;
                    self.lst_valid = v;
                    self.lst_valid_q = q;
                    self.count_valid = self.count_valid + 1;
                }
                self.count_non_missing = self.count_non_missing + 1;
            }
            proof {
                let k = i as int + 1;
                if !float && any_pick(qs@, k, true) {
                    if q.spec_is_valid() {
                        assert(qs@[i as int].spec_is_valid() && vals@[i as int] == v);
                        if !had_valid {
                            assert(self.min == v && self.max == v);
                            assert forall|j: int| 0 <= j < k && #[trigger] qs@[j].spec_is_valid() implies j
                                == i by {
                                if j < i {
                                    assert(picks(qs@[j], true));
                                }
                            }
                        } else {
                            assert(extreme_ok(old_min, st, vals@, qs@, i as int, false));
                            assert(extreme_ok(old_max, st, vals@, qs@, i as int, true));
                            let jm = choose|j: int|
                                0 <= j < i && #[trigger] qs@[j].spec_is_valid() && vals@[j] == old_min;
                            let jx = choose|j: int|
                                0 <= j < i && #[trigger] qs@[j].spec_is_valid() && vals@[j] == old_max;
                            assert(qs@[jm].spec_is_valid() && vals@[jm] == old_min);
                            assert(qs@[jx].spec_is_valid() && vals@[jx] == old_max);
                        }
                    } else {
                        assert(!picks(qs@[i as int], true));
                        let w = choose|j: int| 0 <= j < k && #[trigger] picks(qs@[j], true);
                        assert(picks(qs@[w], true));
                        assert(any_pick(qs@, i as int, true));
                        assert(extreme_ok(old_min, st, vals@, qs@, i as int, false));
                        assert(extreme_ok(old_max, st, vals@, qs@, i as int, true));
                        let jm = choose|j: int|
                            0 <= j < i && #[trigger] qs@[j].spec_is_valid() && vals@[j] == old_min;
                        let jx = choose|j: int|
                            0 <= j < i && #[trigger] qs@[j].spec_is_valid() && vals@[j] == old_max;
                        assert(qs@[jm].spec_is_valid() && vals@[jm] == old_min);
                        assert(qs@[jx].spec_is_valid() && vals@[jx] == old_max);
                    }
                }
            }
            i = i + 1;
        }
        if self.count_valid == 0 || float {
            self.min = 0;
            self.max = 0;
        }
    }
}

proof fn lemma_flags_subset(qs: Seq<Quality>, n: int)
    requires
        n > 0,
    ensures
        acc_and(qs, n) & !acc_or(qs, n) == 0,
{
    let a = acc_and(qs, n - 1);
    let o = acc_or(qs, n - 1);
    let f = qual_flag(qs[n - 1]);
    assert((a & f) & !(o | f) == 0) by (bit_vector);
}

proof fn lemma_counts_ordered(qs: Seq<Quality>, n: int)
    requires
        0 <= n <= qs.len(),
    ensures
        count_picks(qs, n, true) <= count_picks(qs, n, false) <= n,
    decreases n,
{
    if n > 0 {
        lemma_counts_ordered(qs, n - 1);
    }
}

/// Statistics of a non-empty block satisfy: every quality flag in the AND
/// accumulator is also in the OR accumulator, and
/// `count_valid <= count_non_missing <= capacity`.
pub proof fn lemma_stats_invariants(
    m: BlockMeta,
    st: StorageType,
    vals: Seq<u64>,
    qs: Seq<Quality>,
)
    requires
        stats_ok(m, st, vals, qs),
        qs.len() > 0,
    ensures
        m.qual_acc_and & !m.qual_acc_or == 0,
        m.qual_acc_and & m.qual_acc_or == m.qual_acc_and,
        m.count_valid <= m.count_non_missing <= qs.len(),
        m.count_valid > 0 ==> sample_int(st, m.min) <= sample_int(st, m.max),
{
    lemma_flags_subset(qs, qs.len() as int);
    let a = m.qual_acc_and;
    let o = m.qual_acc_or;
    assert(a & !o == 0 ==> a & o == a) by (bit_vector);
    lemma_counts_ordered(qs, qs.len() as int);
    if m.count_valid > 0 && !st.spec_is_float() {
        assert(any_pick(qs, qs.len() as int, true)) by {
            if !any_pick(qs, qs.len() as int, true) {
                lemma_no_pick_count(qs, qs.len() as int, true);
            }
        }
        let j = choose|j: int|
            0 <= j < qs.len() && #[trigger] qs[j].spec_is_valid() && vals[j] == m.min;
        assert(qs[j].spec_is_valid());
    }
}

proof fn lemma_no_pick_count(qs: Seq<Quality>, n: int, valid_only: bool)
    requires
        0 <= n <= qs.len(),
        !any_pick(qs, n, valid_only),
    ensures
        count_picks(qs, n, valid_only) == 0,
    decreases n,
{
    if n > 0 {
        assert(!picks(qs[n - 1], valid_only));
        assert(!any_pick(qs, n - 1, valid_only)) by {
            if any_pick(qs, n - 1, valid_only) {
                let j = choose|j: int| 0 <= j < n - 1 && #[trigger] picks(qs[j], valid_only);
                assert(picks(qs[j], valid_only));
            }
        }
        lemma_no_pick_count(qs, n - 1, valid_only);
    }
}

/// The slot of timestamp `t` in block `block` of a series.
pub open spec fn slot_of(meta: SeriesMeta, block: u64, t: u64) -> int {
    (t - block * meta.block_ms()) / meta.sample_ms()
}

/// `base` after writing `items[i]` at the slot of `ts[i]`, for `i` in `0..n`
/// in order.
pub open spec fn apply_writes<A>(
    base: Seq<A>,
    meta: SeriesMeta,
    block: u64,
    ts: Seq<u64>,
    items: Seq<A>,
    n: int,
) -> Seq<A>
    decreases n,
{
    if n <= 0 {
        base
    } else {
        apply_writes(base, meta, block, ts, items, n - 1).update(
            slot_of(meta, block, ts[n - 1]),
            items[n - 1],
        )
    }
}

/// A timestamp inside a block lies at or after the block's start, and its
/// slot is below the block's capacity.
pub proof fn lemma_slot_in_block(meta: SeriesMeta, block: u64, t: u64)
    requires
        meta.wf(),
        t as int / meta.block_ms() == block,
    ensures
        block * meta.block_ms() <= t,
        0 <= slot_of(meta, block, t) < meta.capacity(),
{
    let b = meta.block_ms();
    let s = meta.sample_ms();
    vstd::arithmetic::div_mod::lemma_fundamental_div_mod(t as int, b);
    vstd::arithmetic::div_mod::lemma_fundamental_div_mod(b, s);
    let x = t - block * b;
    assert(x == t as int % b) by (nonlinear_arith)
        requires
            t == b * (t as int / b) + t as int % b,
            t as int / b == block,
            x == t - block * b,
    ;
    vstd::arithmetic::div_mod::lemma_fundamental_div_mod(x, s);
    assert(0 <= x / s < b / s) by (nonlinear_arith)
        requires
            0 <= x < b,
            s > 0,
            b == s * (b / s) + 0,
            x == s * (x / s) + x % s,
            0 <= x % s < s,
    ;
}

/// A block of one series: its storage type, statistics, values (as native
/// bit patterns) and qualities, one of each per sample slot.
#[derive(Debug)]
pub struct SizedBlock {
    pub stype: StorageType,
    pub meta: BlockMeta,
    pub vals: Vec<u64>,
    pub qs: Vec<Quality>,
}

/// One batch of samples for one block of one series.
pub struct WriteBatch<'a> {
    pub series: &'a SeriesMeta,
    pub block_id: BlockNumber,
    pub ts: &'a [u64],
    pub vals: &'a [u64],
    pub qs: &'a [Quality],
    pub tx: TxId,
}

impl<'a> WriteBatch<'a> {
    /// A batch whose samples all fall into its block and fit their type.
    pub open spec fn wf(&self) -> bool {
        &&& self.series.wf()
        &&& self.ts@.len() == self.vals@.len()
        &&& self.vals@.len() == self.qs@.len()
        &&& forall|i: int|
            0 <= i < self.ts@.len() ==> #[trigger] self.ts@[i] as int / self.series.block_ms()
                == self.block_id.0
        &&& forall|i: int|
            0 <= i < self.vals@.len() ==> bits_fit(self.series.storage_type, #[trigger] self.vals@[i])
    }

    pub fn new(
        series: &'a SeriesMeta,
        block_id: BlockNumber,
        ts: &'a [u64],
        vals: &'a [u64],
        qs: &'a [Quality],
        tx: TxId,
    ) -> (r: WriteBatch<'a>)
        requires
            ts@.len() == vals@.len(),
            vals@.len() == qs@.len(),
        ensures
            r.series == series && r.block_id == block_id && r.tx == tx,
            r.ts@ == ts@ && r.vals@ == vals@ && r.qs@ == qs@,
    {
        WriteBatch { series, block_id, ts, vals, qs, tx }
    }

    /// Whether the batch is well formed: a valid series, equal lengths,
    /// every timestamp inside the block and every value within its type.
    pub fn check(&self) -> (r: bool)
        requires
            self.series.wf(),
        ensures
            r == self.wf(),
    {
        if self.ts.len() != self.vals.len() || self.vals.len() != self.qs.len() {
            return false;
        }
        let n = self.ts.len();
        let mut i: usize = 0;
        while i < n
            invariant
                self.series.wf(),
                n == self.ts@.len(),
                n == self.vals@.len(),
                i <= n,
                forall|j: int|
                    0 <= j < i ==> #[trigger] self.ts@[j] as int / self.series.block_ms()
                        == self.block_id.0,
                forall|j: int|
                    0 <= j < i ==> bits_fit(self.series.storage_type, #[trigger] self.vals@[j]),
            decreases n - i,
        {
            let b = crate::helpers::get_block_id(self.series, self.ts[i]);
            if b != self.block_id.0 {
                return false;
            }
            if !crate::meta::value_fits(self.series.storage_type, self.vals[i]) {
                return false;
            }
            i = i + 1;
        }
        true
    }
}

impl SizedBlock {
    /// Lengths agree, fit 32-bit offsets, and every value fits its type.
    pub open spec fn wf(&self) -> bool {
        &&& self.vals@.len() == self.qs@.len()
        &&& 0 < self.qs@.len() <= u32::MAX
        &&& forall|i: int| 0 <= i < self.vals@.len() ==> bits_fit(self.stype, #[trigger] self.vals@[i])
    }

    /// Number of slots that hold a sample.
    pub fn get_count_written(&self) -> (r: u32)
        ensures
            r == self.meta.count_non_missing,
    {
        self.meta.count_non_missing
    }

    /// A block of `len` slots, all zero and missing, with its statistics.
    pub fn new(stype: StorageType, len: usize) -> (r: SizedBlock)
        requires
            0 < len <= u32::MAX,
        ensures
            r.wf(),
            r.stype == stype,
            r.vals@ == Seq::new(len as nat, |i: int| 0u64),
            r.qs@ == Seq::new(len as nat, |i: int| Quality(QUALITY_MISSING)),
            stats_ok(r.meta, stype, r.vals@, r.qs@),
            r.meta.object_key@.len() == 0,
    {
        let mut vals: Vec<u64> = Vec::new();
        let mut qs: Vec<Quality> = Vec::new();
        let mut i: usize = 0;
        while i < len
            invariant
                i <= len,
                vals@ == Seq::new(i as nat, |k: int| 0u64),
                qs@ == Seq::new(i as nat, |k: int| Quality(QUALITY_MISSING)),
            decreases len - i,
        {
            vals.push(0);
            qs.push(Quality::missing());
            i = i + 1;
            assert(vals@ =~= Seq::new(i as nat, |k: int| 0u64));
            assert(qs@ =~= Seq::new(i as nat, |k: int| Quality(QUALITY_MISSING)));
        }
        let mut meta = BlockMeta::new(stype);
        meta.recalc_block_data_full(stype, vals.as_slice(), qs.as_slice());
        SizedBlock { stype, meta, vals, qs }
    }

    /// Writes each sample of the batch at its slot, in order, then
    /// recomputes the statistics.
    pub fn write(&mut self, batch: &WriteBatch)
        requires
            old(self).wf(),
            batch.wf(),
            old(self).stype == batch.series.storage_type,
            old(self).vals@.len() == batch.series.capacity(),
        ensures
            final(self).wf(),
            final(self).stype == old(self).stype,
            final(self).vals@.len() == old(self).vals@.len(),
            final(self).vals@ == apply_writes(
                old(self).vals@,
                *batch.series,
                batch.block_id.0,
                batch.ts@,
                batch.vals@,
                batch.ts@.len() as int,
            ),
            final(self).qs@ == apply_writes(
                old(self).qs@,
                *batch.series,
                batch.block_id.0,
                batch.ts@,
                batch.qs@,
                batch.ts@.len() as int,
            ),
            stats_ok(final(self).meta, final(self).stype, final(self).vals@, final(self).qs@),
            final(self).meta.object_key == old(self).meta.object_key,
    {
        let n = batch.ts.len();
        let ghost meta = *batch.series;
        let ghost b = batch.block_id.0;
        let mut i: usize = 0;
        while i < n
            invariant
                batch.wf(),
                meta == *batch.series,
                b == batch.block_id.0,
                n == batch.ts@.len(),
                i <= n,
                self.stype == old(self).stype,
                self.meta == old(self).meta,
                self.vals@.len() == old(self).vals@.len(),
                self.qs@.len() == old(self).qs@.len(),
                old(self).wf(),
                old(self).stype == batch.series.storage_type,
                old(self).vals@.len() == batch.series.capacity(),
                forall|k: int| 0 <= k < self.vals@.len() ==> bits_fit(self.stype, #[trigger] self.vals@[k]),
                self.vals@ == apply_writes(old(self).vals@, meta, b, batch.ts@, batch.vals@, i as int),
                self.qs@ == apply_writes(old(self).qs@, meta, b, batch.ts@, batch.qs@, i as int),
            decreases n - i,
        {
            let t = batch.ts[i];
            proof {
                assert(batch.ts@[i as int] as int / meta.block_ms() == b);
                lemma_slot_in_block(meta, b, t);
                assert(bits_fit(self.stype, batch.vals@[i as int]));
            }
            let start = crate::helpers::get_block_start_as_offset(batch.series, batch.block_id.0);
            let idx = crate::helpers::get_sample_offset(batch.series, t - start) as usize;
            self.vals.set(idx, batch.vals[i]);
            self.qs.set(idx, batch.qs[i]);
            i = i + 1;
        }
        self.meta.recalc_block_data_full(self.stype, self.vals.as_slice(), self.qs.as_slice());
    }
}

/// The last position below `n` whose timestamp falls into slot `k`, or -1.
pub open spec fn last_write(meta: SeriesMeta, block: u64, ts: Seq<u64>, k: int, n: int) -> int
    decreases n,
{
    if n <= 0 {
        -1
    } else if slot_of(meta, block, ts[n - 1]) == k {
        n - 1
    } else {
        last_write(meta, block, ts, k, n - 1)
    }
}

/// After a run of offset writes each slot holds the last value written to
/// it, or its old value when none was.
pub proof fn lemma_apply_writes_at<A>(
    base: Seq<A>,
    meta: SeriesMeta,
    block: u64,
    ts: Seq<u64>,
    items: Seq<A>,
    n: int,
    k: int,
)
    requires
        0 <= n <= ts.len(),
        n <= items.len(),
        0 <= k < base.len(),
        forall|i: int| 0 <= i < n ==> 0 <= #[trigger] slot_of(meta, block, ts[i]) < base.len(),
    ensures
        apply_writes(base, meta, block, ts, items, n).len() == base.len(),
        apply_writes(base, meta, block, ts, items, n)[k] == if last_write(meta, block, ts, k, n)
            >= 0 {
            items[last_write(meta, block, ts, k, n)]
        } else {
            base[k]
        },
        -1 <= last_write(meta, block, ts, k, n) < n,
    decreases n,
{
    if n > 0 {
        lemma_apply_writes_at(base, meta, block, ts, items, n - 1, k);
        assert(0 <= slot_of(meta, block, ts[n - 1]) < base.len());
    }
}

proof fn lemma_apply_writes_len<A>(
    base: Seq<A>,
    meta: SeriesMeta,
    block: u64,
    ts: Seq<u64>,
    items: Seq<A>,
    n: int,
)
    requires
        n <= ts.len(),
        forall|i: int| 0 <= i < n ==> 0 <= #[trigger] slot_of(meta, block, ts[i]) < base.len(),
    ensures
        apply_writes(base, meta, block, ts, items, n).len() == base.len(),
    decreases n,
{
    if n > 0 {
        lemma_apply_writes_len(base, meta, block, ts, items, n - 1);
    }
}

/// Replaying a batch onto the block it was already applied to changes
/// nothing: the cold path may see a WRITE again on a later recovery and
/// reach the same block.
pub proof fn lemma_apply_writes_idempotent<A>(
    base: Seq<A>,
    meta: SeriesMeta,
    block: u64,
    ts: Seq<u64>,
    items: Seq<A>,
)
    requires
        ts.len() == items.len(),
        forall|i: int| 0 <= i < ts.len() ==> 0 <= #[trigger] slot_of(meta, block, ts[i]) < base.len(),
    ensures
        ({
            let once = apply_writes(base, meta, block, ts, items, ts.len() as int);
            apply_writes(once, meta, block, ts, items, ts.len() as int) == once
        }),
{
    let n = ts.len() as int;
    let once = apply_writes(base, meta, block, ts, items, n);
    lemma_apply_writes_len(base, meta, block, ts, items, n);
    let twice = apply_writes(once, meta, block, ts, items, n);
    assert forall|k: int| 0 <= k < once.len() implies twice[k] == once[k] by {
        lemma_apply_writes_at(base, meta, block, ts, items, n, k);
        lemma_apply_writes_at(once, meta, block, ts, items, n, k);
    }
    lemma_apply_writes_len(once, meta, block, ts, items, n);
    assert(twice =~= once);
}

/// Every timestamp of a well-formed batch lands in a slot of its block.
pub proof fn lemma_batch_slots(batch: &WriteBatch)
    requires
        batch.wf(),
    ensures
        forall|i: int|
            0 <= i < batch.ts@.len() ==> 0 <= #[trigger] slot_of(
                *batch.series,
                batch.block_id.0,
                batch.ts@[i],
            ) < batch.series.capacity(),
{
    assert forall|i: int| 0 <= i < batch.ts@.len() implies 0 <= #[trigger] slot_of(
        *batch.series,
        batch.block_id.0,
        batch.ts@[i],
    ) < batch.series.capacity() by {
        assert(batch.ts@[i] as int / batch.series.block_ms() == batch.block_id.0);
        lemma_slot_in_block(*batch.series, batch.block_id.0, batch.ts@[i]);
    }
}

/// The value written last by a batch is what its slot then holds; so a
/// backfilled sample is there when the block is read back.
pub proof fn lemma_last_sample_applied<A>(base: Seq<A>, batch: &WriteBatch, items: Seq<A>)
    requires
        batch.wf(),
        items.len() == batch.ts@.len(),
        batch.ts@.len() > 0,
        base.len() == batch.series.capacity(),
    ensures
        ({
            let n = batch.ts@.len() as int;
            apply_writes(base, *batch.series, batch.block_id.0, batch.ts@, items, n)[slot_of(
                *batch.series,
                batch.block_id.0,
                batch.ts@[n - 1],
            )] == items[n - 1]
        }),
{
    lemma_batch_slots(batch);
    let n = batch.ts@.len() as int;
    let k = slot_of(*batch.series, batch.block_id.0, batch.ts@[n - 1]);
    lemma_apply_writes_at(base, *batch.series, batch.block_id.0, batch.ts@, items, n, k);
}

} // verus!
