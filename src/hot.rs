//! Per-series hot state: one live block and the blocks awaiting flush.

use vstd::prelude::*;
use crate::block::{apply_writes, stats_ok, SizedBlock, WriteBatch};
use crate::meta::{BlockNumber, Quality, SeriesMeta, QUALITY_MISSING};
use crate::wal::TxId;

verus! {

/// A block rotated out of the live slot, with the highest transaction that
/// touched it.
#[derive(Debug)]
pub struct FlushingBlock {
    pub block: BlockNumber,
    pub tx: TxId,
    pub data: SizedBlock,
}

/// What a write into the hot set came to.
#[derive(Debug)]
pub enum WriteResult {
    /// Applied; the live block and the blocks now awaiting flush.
    Applied { live: BlockNumber, flushing: Vec<BlockNumber> },
    /// The series' slot was held by another writer.
    Busy,
    /// The batch targets a block older than the live one.
    NeedsColdStore,
}

/// Block numbers of a flushing list are pairwise distinct.
pub open spec fn keys_unique(f: Seq<FlushingBlock>) -> bool {
    forall|i: int, j: int| 0 <= i < j < f.len() ==> f[i].block != f[j].block
}

/// Some entry of `f` is for block `b`.
pub open spec fn has_key(f: Seq<FlushingBlock>, b: BlockNumber) -> bool {
    exists|i: int| 0 <= i < f.len() && #[trigger] f[i].block == b
}

/// `new_f` is `old_f` with `e` put in: an entry of the same block is
/// replaced, and `e` goes last.
pub open spec fn put_flushing(old_f: Seq<FlushingBlock>, new_f: Seq<FlushingBlock>, e: FlushingBlock) -> bool {
    if has_key(old_f, e.block) {
        exists|i: int|
            0 <= i < old_f.len() && #[trigger] old_f[i].block == e.block && new_f == old_f.remove(
                i,
            ).push(e)
    } else {
        new_f == old_f.push(e)
    }
}

/// The block numbers of a flushing list, in order.
pub open spec fn flush_keys(f: Seq<FlushingBlock>) -> Seq<BlockNumber> {
    f.map_values(|e: FlushingBlock| e.block)
}

/// A fresh block of a series: zero values, missing qualities.
pub open spec fn fresh_block_ok(b: SizedBlock, series: SeriesMeta) -> bool {
    &&& b.stype == series.storage_type
    &&& b.vals@ == Seq::new(series.capacity() as nat, |i: int| 0u64)
    &&& b.qs@ == Seq::new(series.capacity() as nat, |i: int| Quality(QUALITY_MISSING))
}

/// A block is well formed and shaped for `series`.
pub open spec fn block_fits(b: SizedBlock, series: SeriesMeta) -> bool {
    b.wf() && b.stype == series.storage_type && b.vals@.len() == series.capacity()
}

/// Every flushing block is well formed and shaped for `series`.
pub open spec fn all_fit(f: Seq<FlushingBlock>, series: SeriesMeta) -> bool {
    forall|i: int| 0 <= i < f.len() ==> block_fits(#[trigger] f[i].data, series)
}

proof fn lemma_put_fits(
    old_f: Seq<FlushingBlock>,
    new_f: Seq<FlushingBlock>,
    e: FlushingBlock,
    series: SeriesMeta,
)
    requires
        put_flushing(old_f, new_f, e),
        all_fit(old_f, series),
        block_fits(e.data, series),
    ensures
        all_fit(new_f, series),
{
    if has_key(old_f, e.block) {
        let i = choose|i: int|
            0 <= i < old_f.len() && #[trigger] old_f[i].block == e.block && new_f == old_f.remove(
                i,
            ).push(e);
        assert forall|k: int| 0 <= k < new_f.len() implies block_fits(#[trigger] new_f[k].data, series) by {
            if k < i {
                assert(new_f[k] == old_f[k]);
            } else if k < new_f.len() - 1 {
                assert(new_f[k] == old_f[k + 1]);
            }
        }
    } else {
        assert forall|k: int| 0 <= k < new_f.len() implies block_fits(#[trigger] new_f[k].data, series) by {
            if k < old_f.len() {
                assert(new_f[k] == old_f[k]);
            }
        }
    }
}

/// Hot state of one series.
#[derive(Debug)]
pub struct HotData {
    pub live: Option<(TxId, SizedBlock)>,
    pub flushing: Vec<FlushingBlock>,
    pub live_id: Option<BlockNumber>,
}

impl HotData {
    /// A live block has a block number; flushing block numbers are distinct.
    pub open spec fn wf(&self) -> bool {
        &&& self.live is Some ==> self.live_id is Some
        &&& keys_unique(self.flushing@)
    }

    /// Every block held is well formed and shaped for `series`.
    pub open spec fn fits(&self, series: SeriesMeta) -> bool {
        &&& self.live matches Some((_, b)) ==> b.wf() && b.stype == series.storage_type
            && b.vals@.len() == series.capacity()
        &&& all_fit(self.flushing@, series)
    }

    /// Empty hot state.
    pub fn new() -> (r: HotData)
        ensures
            r.wf(),
            r.live is None,
            r.live_id is None,
            r.flushing@.len() == 0,
    {
        HotData { live: None, flushing: Vec::new(), live_id: None }
    }

    fn find_flushing(&self, block: BlockNumber) -> (r: Option<usize>)
        ensures
            match r {
                Some(i) => i < self.flushing@.len() && self.flushing@[i as int].block == block,
                None => !has_key(self.flushing@, block),
            },
    {
        let mut i: usize = 0;
        while i < self.flushing.len()
            invariant
                i <= self.flushing@.len(),
                forall|j: int| 0 <= j < i ==> self.flushing@[j].block != block,
            decreases self.flushing@.len() - i,
        {
            if self.flushing[i].block.0 == block.0 {
                return Some(i);
            }
            i = i + 1;
        }
        None
    }

    /// Puts `e` into the flushing list, replacing an entry of the same block.
    fn put_flushing(&mut self, e: FlushingBlock)
        requires
            keys_unique(old(self).flushing@),
        ensures
            put_flushing(old(self).flushing@, final(self).flushing@, e),
            keys_unique(final(self).flushing@),
            final(self).live == old(self).live,
            final(self).live_id == old(self).live_id,
    {
        let ghost e2 = e;
        match self.find_flushing(e.block) {
            Some(i) => {
                let _ = self.flushing.remove(i);
                self.flushing.push(e);
                assert(self.flushing@ == old(self).flushing@.remove(i as int).push(e2));
            },
            None => {
                self.flushing.push(e);
            },
        }
    }

    /// Moves the live block into the flushing list under its block number.
    pub fn flush_live(&mut self)
        requires
            old(self).wf(),
        ensures
            final(self).wf(),
            final(self).live is None,
            final(self).live_id == old(self).live_id,
            match old(self).live {
                Some((tx, b)) => put_flushing(
                    old(self).flushing@,
                    final(self).flushing@,
                    FlushingBlock { block: old(self).live_id.unwrap(), tx, data: b },
                ),
                None => final(self).flushing@ == old(self).flushing@,
            },
    {
        match self.live.take() {
            Some((tx, data)) => {
                match self.live_id {
                    Some(block) => self.put_flushing(FlushingBlock { block, tx, data }),
                    None => {},
                }
            },
            None => {},
        }
    }

    /// Removes and returns the flushing entry of `block`, if any.
    pub fn take_flushing_block(&mut self, block: BlockNumber) -> (r: Option<(TxId, SizedBlock)>)
        requires
            old(self).wf(),
        ensures
            final(self).wf(),
            final(self).live == old(self).live,
            final(self).live_id == old(self).live_id,
            r is Some <==> has_key(old(self).flushing@, block),
            r matches Some((tx, b)) ==> exists|i: int|
                0 <= i < old(self).flushing@.len() && #[trigger] old(self).flushing@[i].block
                    == block && old(self).flushing@[i].tx == tx && old(self).flushing@[i].data
                    == b && final(self).flushing@ == old(self).flushing@.remove(i),
            r is None ==> final(self).flushing@ == old(self).flushing@,
    {
        match self.find_flushing(block) {
            Some(i) => {
                let e = self.flushing.remove(i);
                assert(old(self).flushing@[i as int].block == block);
                Some((e.tx, e.data))
            },
            None => None,
        }
    }

    /// The block numbers awaiting flush, in order.
    pub fn flushing_keys(&self) -> (r: Vec<BlockNumber>)
        ensures
            r@ == flush_keys(self.flushing@),
    {
        let mut r: Vec<BlockNumber> = Vec::new();
        let mut i: usize = 0;
        while i < self.flushing.len()
            invariant
                i <= self.flushing@.len(),
                r@ == flush_keys(self.flushing@.subrange(0, i as int)),
            decreases self.flushing@.len() - i,
        {
            r.push(self.flushing[i].block);
            i = i + 1;
            assert(flush_keys(self.flushing@.subrange(0, i as int)) =~= flush_keys(
                self.flushing@.subrange(0, i - 1),
            ).push(self.flushing@[i - 1].block));
        }
        assert(self.flushing@.subrange(0, i as int) =~= self.flushing@);
        r
    }

    /// The live block number and the block numbers awaiting flush.
    pub fn live_blocks(&self) -> (r: (Option<BlockNumber>, Vec<BlockNumber>))
        ensures
            r.0 == self.live_id,
            r.1@ == flush_keys(self.flushing@),
    {
        (self.live_id, self.flushing_keys())
    }

    /// Applies a batch to the hot state.  A batch for a block newer than
    /// the live one first rotates the live block into the flushing list; one
    /// for an older block is refused with `NeedsColdStore` and changes
    /// nothing; otherwise the live block (fresh when there is none) takes
    /// the samples, its statistics are recomputed, and its transaction mark
    /// becomes the larger of the old one and the batch's.
    pub fn write_into_block(&mut self, batch: &WriteBatch) -> (r: WriteResult)
        requires
            old(self).wf(),
            old(self).fits(*batch.series),
            batch.wf(),
        ensures
            final(self).wf(),
            final(self).fits(*batch.series),
            ({
                let older = old(self).live is Some && old(self).live_id.unwrap().0
                    > batch.block_id.0;
                let same = old(self).live is Some && old(self).live_id.unwrap()
                    == batch.block_id;
                let rotated = old(self).live is Some && old(self).live_id.unwrap().0
                    < batch.block_id.0;
                match r {
                    WriteResult::NeedsColdStore => older && *final(self) == *old(self),
                    WriteResult::Busy => false,
                    WriteResult::Applied { live, flushing } => {
                        &&& !older
                        &&& live == batch.block_id
                        &&& final(self).live_id == Some(batch.block_id)
                        &&& flushing@ == flush_keys(final(self).flushing@)
                        &&& final(self).live matches Some((tx, blk)) && {
                            &&& tx.0 == if same && old(self).live.unwrap().0.0 > batch.tx.0 {
                                old(self).live.unwrap().0.0
                            } else {
                                batch.tx.0
                            }
                            &&& blk.vals@ == apply_writes(
                                if same {
                                    old(self).live.unwrap().1.vals@
                                } else {
                                    Seq::new(batch.series.capacity() as nat, |i: int| 0u64)
                                },
                                *batch.series,
                                batch.block_id.0,
                                batch.ts@,
                                batch.vals@,
                                batch.ts@.len() as int,
                            )
                            &&& blk.qs@ == apply_writes(
                                if same {
                                    old(self).live.unwrap().1.qs@
                                } else {
                                    Seq::new(
                                        batch.series.capacity() as nat,
                                        |i: int| Quality(QUALITY_MISSING),
                                    )
                                },
                                *batch.series,
                                batch.block_id.0,
                                batch.ts@,
                                batch.qs@,
                                batch.ts@.len() as int,
                            )
                            &&& stats_ok(blk.meta, blk.stype, blk.vals@, blk.qs@)
                            &&& blk.stype == batch.series.storage_type
                            &&& if same {
                                blk.meta.object_key == old(self).live.unwrap().1.meta.object_key
                            } else {
                                blk.meta.object_key@.len() == 0
                            }
                        }
                        &&& rotated ==> has_key(final(self).flushing@, old(self).live_id.unwrap())
                        &&& final(self).live.unwrap().0.0 >= batch.tx.0
                        &&& same ==> final(self).live.unwrap().0.0 >= old(self).live.unwrap().0.0
                        &&& if rotated {
                            put_flushing(
                                old(self).flushing@,
                                final(self).flushing@,
                                FlushingBlock {
                                    block: old(self).live_id.unwrap(),
                                    tx: old(self).live.unwrap().0,
                                    data: old(self).live.unwrap().1,
                                },
                            )
                        } else {
                            final(self).flushing@ == old(self).flushing@
                        }
                    },
                }
            }),
    {
        let ghost series = *batch.series;
        let (tx, mut current) = if self.live.is_some() && self.live_id.is_some() {
            let live_block = self.live_id.unwrap();
            if live_block.0 < batch.block_id.0 {
                let len = crate::helpers::get_block_length(batch.series) as usize;
                self.flush_live();
                self.live_id = Some(batch.block_id);
                (batch.tx, SizedBlock::new(batch.series.storage_type, len))
            } else if live_block.0 > batch.block_id.0 {
                return WriteResult::NeedsColdStore;
            } else {
                match self.live.take() {
                    Some(l) => l,
                    None => {
                        let len = crate::helpers::get_block_length(batch.series) as usize;
                        (batch.tx, SizedBlock::new(batch.series.storage_type, len))
                    },
                }
            }
        } else {
            self.live_id = Some(batch.block_id);
            let len = crate::helpers::get_block_length(batch.series) as usize;
            (batch.tx, SizedBlock::new(batch.series.storage_type, len))
        };
        current.write(batch);
        let tx = if batch.tx.0 > tx.0 {
            batch.tx
        } else {
            tx
        };
        self.live = Some((tx, current));
        self.live_id = Some(batch.block_id);
        let flushing = self.flushing_keys();
        proof {
            if old(self).live is Some && old(self).live_id.unwrap().0 < batch.block_id.0 {
                let (otx, ob) = old(self).live.unwrap();
                lemma_put_fits(
                    old(self).flushing@,
                    self.flushing@,
                    FlushingBlock { block: old(self).live_id.unwrap(), tx: otx, data: ob },
                    series,
                );
                let last = self.flushing@.len() - 1;
                assert(self.flushing@[last].block == old(self).live_id.unwrap());
            }
        }
        WriteResult::Applied { live: batch.block_id, flushing }
    }

    /// Rotates the live block, if any, into the flushing list, then removes
    /// and returns every flushing entry.
    pub fn take_all(&mut self) -> (r: Vec<FlushingBlock>)
        requires
            old(self).wf(),
        ensures
            final(self).wf(),
            final(self).live is None,
            final(self).live_id == old(self).live_id,
            final(self).flushing@.len() == 0,
            match old(self).live {
                Some((tx, b)) => put_flushing(
                    old(self).flushing@,
                    r@,
                    FlushingBlock { block: old(self).live_id.unwrap(), tx, data: b },
                ),
                None => r@ == old(self).flushing@,
            },
    {
        self.flush_live();
        let mut out: Vec<FlushingBlock> = Vec::new();
        std::mem::swap(&mut out, &mut self.flushing);
        out
    }
}

/// The largest of a non-empty sequence of transaction ids.
pub open spec fn max_tx(txs: Seq<u64>) -> u64
    decreases txs.len(),
{
    if txs.len() <= 1 {
        txs[0]
    } else {
        let m = max_tx(txs.drop_last());
        if txs.last() > m {
            txs.last()
        } else {
            m
        }
    }
}

/// Transaction mark of a live block over its writes: when the block became
/// live with the first write (mark = its tx) and each later write into it
/// set the mark to the larger of the old mark and its tx, as
/// `write_into_block` ensures, the mark is the largest tx of all the writes,
/// so at least the tx of each of them.
pub proof fn lemma_tx_high_is_max(txs: Seq<u64>, marks: Seq<u64>)
    requires
        txs.len() > 0,
        marks.len() == txs.len(),
        marks[0] == txs[0],
        forall|k: int|
            0 <= k < txs.len() - 1 ==> #[trigger] marks[k + 1] == if marks[k] > txs[k + 1] {
                marks[k]
            } else {
                txs[k + 1]
            },
    ensures
        marks.last() == max_tx(txs),
        forall|k: int| 0 <= k < txs.len() ==> marks.last() >= #[trigger] txs[k],
    decreases txs.len(),
{
    if txs.len() > 1 {
        let t2 = txs.drop_last();
        let m2 = marks.drop_last();
        assert forall|k: int| 0 <= k < t2.len() - 1 implies #[trigger] m2[k + 1] == if m2[k]
            > t2[k + 1] {
            m2[k]
        } else {
            t2[k + 1]
        } by {
            assert(marks[k + 1] == m2[k + 1]);
        }
        lemma_tx_high_is_max(t2, m2);
        let n = txs.len() - 1;
        let j = n - 1;
        assert(marks[j + 1] == if marks[j] > txs[j + 1] {
            marks[j]
        } else {
            txs[j + 1]
        });
        assert(m2.last() == marks[j]);
        assert forall|k: int| 0 <= k < txs.len() implies marks.last() >= #[trigger] txs[k] by {
            if k < n {
                assert(t2[k] == txs[k]);
            }
        }
    }
}

} // verus!
