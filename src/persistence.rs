//! Object keys, the cold read-modify-write of a block, and the catalog's
//! byte form of sums.

use vstd::prelude::*;
use crate::block::{apply_writes, stats_ok, BlockMeta, SizedBlock, WriteBatch};
use crate::codec::CodecError;
use crate::meta::{BlockNumber, Quality, SeriesId, QUALITY_MISSING};
use crate::text::{dec_digits, decimal};

verus! {

/// Relies on `ulid::Ulid::new` and its `Display`: a time-ordered unique
/// identifier rendered as 26 Crockford base-32 characters.
#[verifier::external_body]
fn new_unique_token() -> (r: String)
    ensures
        r@.len() == 26,
{
    ulid::Ulid::new().to_string()
}

/// The object key of a block write:
/// `data/{series mod 100}/{series}/{block}_{token}.blk`.
pub open spec fn spec_object_key(series: u64, block: u64, token: Seq<char>) -> Seq<char> {
    seq!['d', 'a', 't', 'a', '/'] + dec_digits((series % 100) as nat) + seq!['/'] + dec_digits(
        series as nat,
    ) + seq!['/'] + dec_digits(block as nat) + seq!['_'] + token + seq!['.', 'b', 'l', 'k']
}

/// Builds the object key of a block write from its unique token.
pub fn object_key(series: SeriesId, block: BlockNumber, token: &str) -> (r: String)
    ensures
        r@ == spec_object_key(series.0, block.0, token@),
{
    proof {
        reveal_strlit("data/");
        reveal_strlit("/");
        reveal_strlit("_");
        reveal_strlit(".blk");
    }
    let mut s = String::from_str("data/");
    let p = decimal(series.0 % 100);
    s.append(p.as_str());
    s.append("/");
    let sid = decimal(series.0);
    s.append(sid.as_str());
    s.append("/");
    let b = decimal(block.0);
    s.append(b.as_str());
    s.append("_");
    s.append(token);
    s.append(".blk");
    s
}

/// A fresh object key for a block write, with a new time-ordered token.
pub fn new_object_key(series: SeriesId, block: BlockNumber) -> (r: String)
    ensures
        exists|t: Seq<char>| t.len() == 26 && r@ == spec_object_key(series.0, block.0, t),
{
    let token = new_unique_token();
    object_key(series, block, token.as_str())
}

/// Records the key a block was read under in its statistics.
pub fn set_object_key(block: &mut SizedBlock, key: String)
    ensures
        final(block).meta == (BlockMeta { object_key: key, ..old(block).meta }),
        final(block).stype == old(block).stype,
        final(block).vals == old(block).vals,
        final(block).qs == old(block).qs,
{
    block.meta.object_key = key;
}

/// The block a cold write starts from and applies the batch to: the stored
/// one when there is one, else a fresh block of the series' capacity.
/// Fails with `InvalidData` when the stored block does not match the
/// series' storage type or capacity.
pub fn write_cold(existing: Option<SizedBlock>, batch: &WriteBatch) -> (r: Result<
    SizedBlock,
    CodecError,
>)
    requires
        batch.wf(),
        existing matches Some(b) ==> b.wf(),
    ensures
        match existing {
            Some(b) => if b.stype == batch.series.storage_type && b.vals@.len()
                == batch.series.capacity() {
                r matches Ok(nb) && nb.wf() && nb.stype == b.stype && nb.vals@ == apply_writes(
                    b.vals@,
                    *batch.series,
                    batch.block_id.0,
                    batch.ts@,
                    batch.vals@,
                    batch.ts@.len() as int,
                ) && nb.qs@ == apply_writes(
                    b.qs@,
                    *batch.series,
                    batch.block_id.0,
                    batch.ts@,
                    batch.qs@,
                    batch.ts@.len() as int,
                ) && stats_ok(nb.meta, nb.stype, nb.vals@, nb.qs@)
            } else {
                r matches Err(CodecError::InvalidData(_))
            },
            None => r matches Ok(nb) && nb.wf() && nb.stype == batch.series.storage_type
                && nb.vals@ == apply_writes(
                Seq::new(batch.series.capacity() as nat, |i: int| 0u64),
                *batch.series,
                batch.block_id.0,
                batch.ts@,
                batch.vals@,
                batch.ts@.len() as int,
            ) && nb.qs@ == apply_writes(
                Seq::new(batch.series.capacity() as nat, |i: int| Quality(QUALITY_MISSING)),
                *batch.series,
                batch.block_id.0,
                batch.ts@,
                batch.qs@,
                batch.ts@.len() as int,
            ) && stats_ok(nb.meta, nb.stype, nb.vals@, nb.qs@),
        },
{
    let cap = crate::helpers::get_block_length(batch.series) as usize;
    let mut block = match existing {
        Some(b) => {
            if b.stype != batch.series.storage_type || b.vals.len() != cap {
                return Err(CodecError::InvalidData("stored block does not match series".to_string()));
            }
            b
        },
        None => SizedBlock::new(batch.series.storage_type, cap),
    };
    block.write(batch);
    Ok(block)
}

} // verus!
