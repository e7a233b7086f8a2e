//! Batch validation, partitioning by block, and the decisions around a hot
//! write.

use vstd::prelude::*;
use crate::hot::WriteResult;
use crate::meta::{bits_fit, BlockNumber, Quality, SeriesId, SeriesMeta, StorageType};

verus! {

/// Attempts at a hot write before a busy slot is reported.
pub const MAX_RETRIES: u32 = 3;

/// Why a batch was refused.
#[derive(Debug)]
pub enum IngestError {
    LengthMismatch,
    InvalidTimestamp(String),
    TypeMismatch,
}

/// Errors surfaced to clients.
#[derive(Debug)]
pub enum ApiError {
    BadRequest(String),
    NotFound(String),
    Conflict(String),
    Unprocessable(String),
    Internal,
    ResourceLocked,
}

/// Sample values of one storage type, as native bit patterns.
#[derive(Debug)]
pub struct ValueVec {
    pub stype: StorageType,
    pub bits: Vec<u64>,
}

impl ValueVec {
    pub fn len(&self) -> (r: usize)
        ensures
            r == self.bits@.len(),
    {
        self.bits.len()
    }

    pub fn is_empty(&self) -> (r: bool)
        ensures
            r == (self.bits@.len() == 0),
    {
        self.len() == 0
    }
}

/// A batch of samples for one series.
#[derive(Debug)]
pub struct BatchIngest {
    pub series: SeriesId,
    pub ts: Vec<u64>,
    pub qs: Vec<Quality>,
    pub vals: ValueVec,
}

/// Timestamps never decrease.
pub open spec fn non_decreasing(ts: Seq<u64>) -> bool {
    forall|i: int| 0 <= i < ts.len() - 1 ==> ts[i] <= #[trigger] ts[i + 1]
}

impl BatchIngest {
    /// Checks lengths and timestamps: `LengthMismatch` unless timestamps,
    /// qualities and values have one length; then `InvalidTimestamp` when
    /// the batch is empty or a timestamp is smaller than the one before.
    pub fn validate(&self) -> (r: Result<(), IngestError>)
        ensures
            !(self.ts@.len() == self.qs@.len() && self.qs@.len() == self.vals.bits@.len()) ==> r
                matches Err(IngestError::LengthMismatch),
            self.ts@.len() == self.qs@.len() && self.qs@.len() == self.vals.bits@.len() ==> (
            match r {
                Ok(()) => self.ts@.len() > 0 && non_decreasing(self.ts@),
                Err(e) => e is InvalidTimestamp && !(self.ts@.len() > 0 && non_decreasing(
                    self.ts@,
                )),
            }),
    {
        if self.ts.len() != self.qs.len() || self.qs.len() != self.vals.len() {
            return Err(IngestError::LengthMismatch);
        }
        if self.ts.len() == 0 {
            return Err(IngestError::InvalidTimestamp("no timestamps given".to_string()));
        }
        let mut i: usize = 1;
        while i < self.ts.len()
            invariant
                self.ts@.len() == self.qs@.len(),
                self.qs@.len() == self.vals.bits@.len(),
                1 <= i <= self.ts@.len(),
                forall|j: int| 0 <= j < i - 1 ==> self.ts@[j] <= #[trigger] self.ts@[j + 1],
            decreases self.ts@.len() - i,
        {
            if self.ts[i - 1] > self.ts[i] {
                assert(!(self.ts@[(i - 1) as int] <= self.ts@[(i - 1) + 1]));
                return Err(
                    IngestError::InvalidTimestamp(
                        "timestamps must be sorted in ascending order".to_string(),
                    ),
                );
            }
            i = i + 1;
        }
        Ok(())
    }

    /// `TypeMismatch` unless the values are of the series' storage type
    /// and each fits that type's width.
    pub fn check_type(&self, stype: StorageType) -> (r: Result<(), IngestError>)
        ensures
            r is Ok <==> (self.vals.stype == stype && forall|i: int|
                0 <= i < self.vals.bits@.len() ==> bits_fit(stype, #[trigger] self.vals.bits@[i])),
            r matches Err(e) ==> e is TypeMismatch,
    {
        if self.vals.stype != stype {
            return Err(IngestError::TypeMismatch);
        }
        let mut i: usize = 0;
        while i < self.vals.bits.len()
            invariant
                i <= self.vals.bits@.len(),
                forall|j: int| 0 <= j < i ==> bits_fit(stype, #[trigger] self.vals.bits@[j]),
            decreases self.vals.bits@.len() - i,
        {
            if !crate::meta::value_fits(stype, self.vals.bits[i]) {
                return Err(IngestError::TypeMismatch);
            }
            i = i + 1;
        }
        Ok(())
    }
}

impl IngestError {
    /// The message of the error.
    pub fn message(&self) -> String {
        match self {
            IngestError::LengthMismatch => "timestamp and value length mismatch".to_string(),
            IngestError::InvalidTimestamp(m) => {
                let mut s = String::from_str("invalid timestamp: ");
                s.append(m.as_str());
                s
            },
            IngestError::TypeMismatch => "value type does not match series type".to_string(),
        }
    }

    /// The client error: bad timestamps are unprocessable, the rest bad
    /// requests.
    pub fn to_api_error(&self) -> (r: ApiError)
        ensures
            self is InvalidTimestamp <==> r is Unprocessable,
            !(self is InvalidTimestamp) <==> r is BadRequest,
    {
        let msg = self.message();
        match self {
            IngestError::InvalidTimestamp(_) => ApiError::Unprocessable(msg),
            _ => ApiError::BadRequest(msg),
        }
    }
}

/// A run of batch positions `[start, end)` that fall into one block.
#[derive(Clone, Copy, Debug, PartialEq, Eq, Structural)]
pub struct Partition {
    pub block: BlockNumber,
    pub start: usize,
    pub end: usize,
}

/// `p` splits positions `0..ts.len()` into maximal consecutive runs of one
/// block each, in order.
pub open spec fn partition_ok(p: Seq<Partition>, meta: SeriesMeta, ts: Seq<u64>) -> bool {
    &&& p.len() > 0
    &&& p[0].start == 0
    &&& p.last().end == ts.len()
    &&& forall|i: int| 0 <= i < p.len() ==> (#[trigger] p[i]).start < p[i].end
    &&& forall|i: int|
        0 <= i < p.len() - 1 ==> (#[trigger] p[i]).end == p[i + 1].start && p[i].block
            != p[i + 1].block
    &&& forall|i: int, j: int|
        0 <= i < p.len() && p[i].start <= j < p[i].end ==> ts[j] as int / meta.block_ms()
            == (#[trigger] p[i]).block.0 && #[trigger] ts[j] == ts[j]
}

/// Splits a non-empty batch's positions into maximal runs that fall into
/// one block each.
pub fn partition_by_block(meta: &SeriesMeta, ts: &[u64]) -> (r: Vec<Partition>)
    requires
        meta.wf(),
        ts@.len() > 0,
    ensures
        partition_ok(r@, *meta, ts@),
{
    let mut out: Vec<Partition> = Vec::new();
    let mut start: usize = 0;
    let mut current = crate::helpers::get_block_id(meta, ts[0]);
    let mut i: usize = 1;
    while i < ts.len()
        invariant
            meta.wf(),
            0 <= start < i <= ts@.len(),
            current == ts@[start as int] as int / meta.block_ms(),
            forall|j: int| start <= j < i ==> ts@[j] as int / meta.block_ms() == current,
            out@.len() == 0 ==> start == 0,
            out@.len() > 0 ==> out@[0].start == 0 && out@.last().end == start && out@.last().block.0
                != current,
            forall|k: int| 0 <= k < out@.len() ==> (#[trigger] out@[k]).start < out@[k].end,
            forall|k: int|
                0 <= k < out@.len() - 1 ==> (#[trigger] out@[k]).end == out@[k + 1].start
                    && out@[k].block != out@[k + 1].block,
            forall|k: int, j: int|
                0 <= k < out@.len() && out@[k].start <= j < out@[k].end ==> ts@[j] as int
                    / meta.block_ms() == (#[trigger] out@[k]).block.0 && #[trigger] ts@[j]
                    == ts@[j],
        decreases ts@.len() - i,
    {
        let next = crate::helpers::get_block_id(meta, ts[i]);
        if next != current {
            out.push(Partition { block: BlockNumber(current), start, end: i });
            start = i;
            current = next;
        }
        i = i + 1;
    }
    out.push(Partition { block: BlockNumber(current), start, end: ts.len() });
    out
}

/// What the coordinator does after one hot write attempt.
#[derive(Debug)]
pub enum ChunkAction {
    /// The partition is applied and nothing awaits flush.
    Done,
    /// The partition is applied; flush these blocks in the background.
    Flush(Vec<BlockNumber>),
    /// Yield, then try the hot write again.
    Retry,
    /// Apply the partition through the cold path.
    WriteCold,
    /// Give up with this error.
    Fail(ApiError),
}

/// Decides the next step of a partition's write from the hot set's answer
/// and the number of busy answers before this one; returns the step and
/// the new count.
pub fn on_hot_result(result: WriteResult, attempt: u32) -> (r: (ChunkAction, u32))
    requires
        attempt < MAX_RETRIES,
    ensures
        match result {
            WriteResult::Applied { flushing, .. } => r.1 == attempt && if flushing@.len() == 0 {
                r.0 is Done
            } else {
                r.0 matches ChunkAction::Flush(f) && f@ == flushing@
            },
            WriteResult::Busy => r.1 == attempt + 1 && if attempt + 1 >= MAX_RETRIES {
                r.0 matches ChunkAction::Fail(ApiError::ResourceLocked)
            } else {
                r.0 is Retry
            },
            WriteResult::NeedsColdStore => r.1 == attempt && r.0 is WriteCold,
        },
{
    match result {
        WriteResult::Applied { flushing, .. } => {
            if flushing.len() == 0 {
                (ChunkAction::Done, attempt)
            } else {
                (ChunkAction::Flush(flushing), attempt)
            }
        },
        WriteResult::Busy => {
            let a = attempt + 1;
            if a >= MAX_RETRIES {
                (ChunkAction::Fail(ApiError::ResourceLocked), a)
            } else {
                (ChunkAction::Retry, a)
            }
        },
        WriteResult::NeedsColdStore => (ChunkAction::WriteCold, attempt),
    }
}

} // verus!
