//! The versioned little-endian encoding of a block.
//!
//! Layout: magic `VDNK`, version byte, storage-type tag, capacity (`u32`),
//! the fixed statistics as eighteen `u64`s, the sum as a length byte and
//! that many raw bytes, the values (capacity × sample width) and the
//! qualities (one byte each).  The object key is not encoded.

use vstd::prelude::*;
use crate::block::{lemma_valid_sum_range, stats_ok, Accum, BlockMeta, SizedBlock};
use crate::bytes::{
    le_bytes, le_value, lemma_le_round_trip, lemma_le_value_bound,
    lemma_pow256_values, pow256, push_all_le, push_le, read_all_le, read_le, read_u32_at,
};
use crate::meta::{bits_fit, Quality, StorageType};
use crate::bytes::le_concat;
use crate::wal::quality_codes;

verus! {

/// Encoding version.
pub const CODEC_VERSION: u8 = 1;

/// Number of fixed statistics fields.
pub const N_STATS: usize = 18;

/// Bytes before the statistics: magic, version, tag, capacity.
pub const PREFIX_LEN: usize = 10;

/// Errors of block encoding.
#[derive(Debug)]
pub enum CodecError {
    SerializationFailed(String),
    DeserializationFailed(String),
    InvalidData(String),
}

/// The fixed statistics fields, in encoding order.
pub open spec fn stat_fields(m: BlockMeta) -> Seq<u64> {
    seq![
        m.count_non_missing as u64,
        m.count_valid as u64,
        m.min,
        m.max,
        m.fst_valid,
        m.fst_valid_q.0 as u64,
        m.lst_valid,
        m.lst_valid_q.0 as u64,
        m.fst_valid_offset as u64,
        m.lst_valid_offset as u64,
        m.fst,
        m.fst_q.0 as u64,
        m.lst,
        m.lst_q.0 as u64,
        m.fst_offset as u64,
        m.lst_offset as u64,
        m.qual_acc_or as u64,
        m.qual_acc_and as u64,
    ]
}

/// The exclusive bound of statistics field `k`: quality bytes below 256,
/// counts, offsets and quality flags below 2^32, sample values below 2^64.
pub open spec fn field_bound(k: int) -> nat {
    if k == 5 || k == 7 || k == 11 || k == 13 {
        0x100
    } else if k == 0 || k == 1 || k == 8 || k == 9 || k == 14 || k == 15 || k == 16 || k == 17 {
        0x1_0000_0000
    } else {
        pow256(8)
    }
}

/// Width in bytes of the sum of a sample type.
pub open spec fn sum_width(st: StorageType) -> nat {
    match st {
        StorageType::Int64 | StorageType::UInt64 => 16,
        _ => 8,
    }
}

/// The sum fits the accumulator of its sample type.
pub open spec fn accum_fits(st: StorageType, a: Accum) -> bool {
    match st {
        StorageType::Float32 | StorageType::Float64 => a is Float,
        StorageType::Int32 => a matches Accum::Signed(x) && i64::MIN <= x <= i64::MAX,
        StorageType::Int64 => a is Signed,
        StorageType::UInt64 => a is Unsigned,
        _ => a matches Accum::Unsigned(x) && x <= u64::MAX,
    }
}

/// The raw two's-complement bits of a sum in its accumulator's width.
pub open spec fn sum_raw(st: StorageType, a: Accum) -> nat {
    match a {
        Accum::Signed(x) => if x >= 0 {
            x as nat
        } else {
            (pow256(sum_width(st)) + x) as nat
        },
        Accum::Unsigned(x) => x as nat,
        Accum::Float(x) => x as nat,
    }
}

/// The sum that raw bits denote for a sample type.
pub open spec fn sum_of_raw(st: StorageType, raw: nat) -> Accum {
    match st {
        StorageType::Float32 | StorageType::Float64 => Accum::Float(raw as u64),
        StorageType::Int32 => Accum::Signed(
            (if raw < 0x8000_0000_0000_0000 {
                raw as int
            } else {
                raw - 0x1_0000_0000_0000_0000
            }) as i128,
        ),
        StorageType::Int64 => Accum::Signed(
            (if raw < 0x8000_0000_0000_0000_0000_0000_0000_0000 {
                raw as int
            } else {
                raw - 0x1_0000_0000_0000_0000_0000_0000_0000_0000
            }) as i128,
        ),
        _ => Accum::Unsigned(raw as u128),
    }
}

/// A block as plain values, without its object key.
pub struct BlockModel {
    pub stype: StorageType,
    pub stats: Seq<u64>,
    pub sum: Accum,
    pub vals: Seq<u64>,
    pub qs: Seq<u8>,
}

/// The plain values of a block.
pub open spec fn block_model(b: SizedBlock) -> BlockModel {
    BlockModel {
        stype: b.stype,
        stats: stat_fields(b.meta),
        sum: b.meta.sum,
        vals: b.vals@,
        qs: quality_codes(b.qs@),
    }
}

/// The encoding of a block.
pub open spec fn block_bytes(b: SizedBlock) -> Seq<u8> {
    let w = b.stype.width();
    let sw = sum_width(b.stype);
    seq![0x56u8, 0x44u8, 0x4eu8, 0x4bu8, CODEC_VERSION, b.stype.spec_tag()] + le_bytes(
        b.vals@.len(),
        4,
    ) + le_concat(stat_fields(b.meta), 8) + seq![sw as u8] + le_bytes(sum_raw(b.stype, b.meta.sum), sw)
        + le_concat(b.vals@, w) + quality_codes(b.qs@)
}

/// The storage type of a tag byte.
pub open spec fn type_of_tag(t: u8) -> StorageType {
    if t == 0 {
        StorageType::Float32
    } else if t == 1 {
        StorageType::Float64
    } else if t == 2 {
        StorageType::Int32
    } else if t == 3 {
        StorageType::Int64
    } else if t == 4 {
        StorageType::UInt32
    } else if t == 5 {
        StorageType::UInt64
    } else {
        StorageType::Enumeration
    }
}

/// The block that bytes encode, if they are a well-formed encoding.
pub open spec fn parse_block(s: Seq<u8>) -> Option<BlockModel> {
    if s.len() < 10 + 8 * 18 + 1 {
        None
    } else {
        let st = type_of_tag(s[5]);
        let w = st.width();
        let sw = sum_width(st);
        let c = le_value(s.subrange(6, 10)) as int;
        let so: int = 154;
        let stats = Seq::new(18, |k: int| le_value(s.subrange(10 + 8 * k, 18 + 8 * k)) as u64);
        let vo = so + 1 + sw as int;
        let qo = vo + w as int * c;
        if s[0] != 0x56 || s[1] != 0x44 || s[2] != 0x4e || s[3] != 0x4b || s[4] != CODEC_VERSION
            || s[5] > 6 || c == 0 || s[so] as nat != sw || s.len() != qo + c {
            None
        } else if exists|k: int| 0 <= k < 18 && #[trigger] stats[k] as nat >= field_bound(k) {
            None
        } else {
            let vals = Seq::new(
                c as nat,
                |k: int| le_value(s.subrange(vo + w * k, vo + w * k + w)) as u64,
            );
            if exists|k: int| 0 <= k < c && !bits_fit(st, #[trigger] vals[k]) {
                None
            } else {
                Some(
                    BlockModel {
                        stype: st,
                        stats,
                        sum: sum_of_raw(st, le_value(s.subrange(so + 1, vo as int))),
                        vals,
                        qs: s.subrange(qo, qo + c),
                    },
                )
            }
        }
    }
}

proof fn lemma_sum_round_trip(st: StorageType, a: Accum)
    requires
        accum_fits(st, a),
    ensures
        sum_raw(st, a) < pow256(sum_width(st)),
        sum_of_raw(st, sum_raw(st, a)) == a,
{
    lemma_pow256_values();
}

/// Block round trip: decoding the encoding of a well-formed block gives back
/// its storage type, statistics, sum, values and qualities; only the object
/// key is left out of the encoding.
pub proof fn lemma_block_round_trip(b: SizedBlock)
    requires
        b.wf(),
        accum_fits(b.stype, b.meta.sum),
    ensures
        parse_block(block_bytes(b)) == Some(block_model(b)),
{
    lemma_pow256_values();
    let st = b.stype;
    let w = st.width();
    let sw = sum_width(st);
    let c = b.vals@.len() as int;
    let stats = stat_fields(b.meta);
    let raw = sum_raw(st, b.meta.sum);
    lemma_sum_round_trip(st, b.meta.sum);
    lemma_le_round_trip(c as nat, 4);
    lemma_le_round_trip(raw, sw);
    crate::bytes::lemma_le_concat_len(stats, 8);
    crate::bytes::lemma_le_concat_len(b.vals@, w);
    let hd = seq![0x56u8, 0x44u8, 0x4eu8, 0x4bu8, CODEC_VERSION, st.spec_tag()];
    let cb = le_bytes(c as nat, 4);
    let sb = le_concat(stats, 8);
    let rb = le_bytes(raw, sw);
    let vb = le_concat(b.vals@, w);
    let qb = quality_codes(b.qs@);
    let s = block_bytes(b);
    assert(s =~= hd + cb + sb + seq![sw as u8] + rb + vb + qb);
    let so: int = 154;
    let vo = so + 1 + sw as int;
    let qo = vo + w as int * c;
    assert(w * c == c * w) by (nonlinear_arith);
    assert(stats.len() == 18);
    assert(sb.len() == 144);
    assert(qb.len() == c);
    assert(vb.len() == c * w);
    assert(s.len() == qo + c);
    assert(s.subrange(6, 10) =~= cb);
    assert(type_of_tag(s[5]) == st);
    assert(s[so] == sw as u8);
    assert(s.subrange(so + 1, vo) =~= rb);
    let pst = Seq::new(18, |k: int| le_value(s.subrange(10 + 8 * k, 18 + 8 * k)) as u64);
    assert forall|k: int| 0 <= k < 18 implies pst[k] == stats[k] by {
        crate::bytes::lemma_le_concat_index(stats, 8, k);
        assert(s.subrange(10 + 8 * k, 18 + 8 * k) =~= sb.subrange(k * 8, k * 8 + 8));
        lemma_le_round_trip(stats[k] as nat, 8);
    }
    assert(pst =~= stats);
    assert forall|k: int| 0 <= k < 18 implies !(#[trigger] pst[k] as nat >= field_bound(k)) by {
        assert(pst[k] == stats[k]);
    }
    let pvs = Seq::new(c as nat, |k: int| le_value(s.subrange(vo + w * k, vo + w * k + w)) as u64);
    assert forall|k: int| 0 <= k < c implies pvs[k] == b.vals@[k] by {
        crate::bytes::lemma_le_concat_index(b.vals@, w, k);
        assert(w * k == k * w) by (nonlinear_arith);
        assert(k * w + w <= c * w) by (nonlinear_arith)
            requires
                k + 1 <= c,
        ;
        assert(s.subrange(vo + w * k, vo + w * k + w) =~= vb.subrange(k * w, k * w + w));
        assert(bits_fit(st, b.vals@[k]));
        assert((b.vals@[k] as nat) < pow256(w));
        lemma_le_round_trip(b.vals@[k] as nat, w);
    }
    assert(pvs =~= b.vals@);
    assert(s.subrange(qo, qo + c) =~= qb);
}

fn sum_raw_exec(st: StorageType, a: Accum) -> (r: u128)
    requires
        accum_fits(st, a),
    ensures
        r == sum_raw(st, a),
{
    proof {
        lemma_pow256_values();
    }
    match a {
        Accum::Signed(x) => if x >= 0 {
            x as u128
        } else {
            match st {
                StorageType::Int32 => (x + 0x1_0000_0000_0000_0000) as u128,
                _ => ((x + 0x7fff_ffff_ffff_ffff_ffff_ffff_ffff_ffff) + 1) as u128
                    + 0x8000_0000_0000_0000_0000_0000_0000_0000,
            }
        },
        Accum::Unsigned(x) => x,
        Accum::Float(x) => x as u128,
    }
}

fn sum_of_raw_exec(st: StorageType, raw: u128) -> (r: Accum)
    requires
        raw < pow256(sum_width(st)),
    ensures
        r == sum_of_raw(st, raw as nat),
        accum_fits(st, r),
{
    proof {
        lemma_pow256_values();
    }
    match st {
        StorageType::Float32 | StorageType::Float64 => Accum::Float(raw as u64),
        StorageType::Int32 => if raw < 0x8000_0000_0000_0000 {
            Accum::Signed(raw as i128)
        } else {
            Accum::Signed(raw as i128 - 0x1_0000_0000_0000_0000)
        },
        StorageType::Int64 => if raw < 0x8000_0000_0000_0000_0000_0000_0000_0000 {
            Accum::Signed(raw as i128)
        } else {
            Accum::Signed(
                (raw - 0x8000_0000_0000_0000_0000_0000_0000_0000) as i128 - 0x7fff_ffff_ffff_ffff_ffff_ffff_ffff_ffff
                    - 1,
            )
        },
        _ => Accum::Unsigned(raw),
    }
}

fn sum_width_exec(st: StorageType) -> (r: usize)
    ensures
        r == sum_width(st),
{
    match st {
        StorageType::Int64 | StorageType::UInt64 => 16,
        _ => 8,
    }
}

fn stats_in_range(stats: &[u64]) -> (r: bool)
    requires
        stats@.len() == 18,
    ensures
        r == forall|j: int| 0 <= j < 18 ==> (#[trigger] stats@[j] as nat) < field_bound(j),
{
    proof {
        lemma_pow256_values();
    }
    let mut k: usize = 0;
    while k < 18
        invariant
            stats@.len() == 18,
            k <= 18,
            forall|j: int| 0 <= j < k ==> (#[trigger] stats@[j] as nat) < field_bound(j),
        decreases 18 - k,
    {
        let v = stats[k];
        let ok = if k == 5 || k == 7 || k == 11 || k == 13 {
            v < 0x100
        } else if k == 0 || k == 1 || k == 8 || k == 9 || k == 14 || k == 15 || k == 16 || k == 17 {
            v < 0x1_0000_0000
        } else {
            true
        };
        proof {
            lemma_pow256_values();
        }
        if !ok {
            assert(stats@[k as int] as nat >= field_bound(k as int));
            return false;
        }
        k = k + 1;
    }
    true
}

fn values_fit(st: StorageType, vals: &[u64]) -> (r: bool)
    ensures
        r == forall|j: int| 0 <= j < vals@.len() ==> bits_fit(st, #[trigger] vals@[j]),
{
    let mut i: usize = 0;
    while i < vals.len()
        invariant
            i <= vals@.len(),
            forall|j: int| 0 <= j < i ==> bits_fit(st, #[trigger] vals@[j]),
        decreases vals@.len() - i,
    {
        if !crate::meta::value_fits(st, vals[i]) {
            return false;
        }
        i = i + 1;
    }
    true
}

/// Whether a block can be encoded: well formed, with a sum that fits its
/// accumulator.
pub fn encodable(block: &SizedBlock) -> (r: bool)
    ensures
        r == (block.wf() && accum_fits(block.stype, block.meta.sum)),
{
    let n = block.vals.len();
    if n != block.qs.len() || n == 0 || n > u32::MAX as usize {
        return false;
    }
    if !values_fit(block.stype, block.vals.as_slice()) {
        return false;
    }
    match (block.stype, block.meta.sum) {
        (StorageType::Float32, Accum::Float(_)) | (StorageType::Float64, Accum::Float(_)) => true,
        (StorageType::Int32, Accum::Signed(x)) => i64::MIN as i128 <= x && x <= i64::MAX as i128,
        (StorageType::Int64, Accum::Signed(_)) => true,
        (StorageType::UInt64, Accum::Unsigned(_)) => true,
        (StorageType::UInt32, Accum::Unsigned(x)) | (StorageType::Enumeration, Accum::Unsigned(x)) => x
            <= u64::MAX as u128,
        _ => false,
    }
}

/// Encodes a block.  The object key is not part of the encoding.
pub fn encode_block(block: &SizedBlock) -> (r: Result<Vec<u8>, CodecError>)
    requires
        block.wf(),
        accum_fits(block.stype, block.meta.sum),
    ensures
        r matches Ok(v) && v@ == block_bytes(*block),
{
    let m = &block.meta;
    let mut out: Vec<u8> = Vec::new();
    out.push(0x56);
    out.push(0x44);
    out.push(0x4e);
    out.push(0x4b);
    out.push(CODEC_VERSION);
    out.push(block.stype.tag());
    push_le(&mut out, block.vals.len() as u128, 4);
    let stats: Vec<u64> = vec![
        m.count_non_missing as u64,
        m.count_valid as u64,
        m.min,
        m.max,
        m.fst_valid,
        m.fst_valid_q.0 as u64,
        m.lst_valid,
        m.lst_valid_q.0 as u64,
        m.fst_valid_offset as u64,
        m.lst_valid_offset as u64,
        m.fst,
        m.fst_q.0 as u64,
        m.lst,
        m.lst_q.0 as u64,
        m.fst_offset as u64,
        m.lst_offset as u64,
        m.qual_acc_or as u64,
        m.qual_acc_and as u64,
    ];
    proof {
        lemma_pow256_values();
        assert(stats@ =~= stat_fields(*m));
    }
    push_all_le(&mut out, stats.as_slice(), 8);
    let sw = sum_width_exec(block.stype);
    out.push(sw as u8);
    let raw = sum_raw_exec(block.stype, m.sum);
    push_le(&mut out, raw, sw);
    let w = block.stype.sample_bytes() as usize;
    proof {
        assert forall|i: int| 0 <= i < block.vals@.len() implies (#[trigger] block.vals@[i] as nat)
            < pow256(w as nat) by {
            assert(bits_fit(block.stype, block.vals@[i]));
        }
    }
    push_all_le(&mut out, block.vals.as_slice(), w);
    let ghost mid = out@;
    let mut k: usize = 0;
    while k < block.qs.len()
        invariant
            k <= block.qs@.len(),
            out@ == mid + quality_codes(block.qs@.subrange(0, k as int)),
        decreases block.qs@.len() - k,
    {
        out.push(block.qs[k].0);
        k = k + 1;
        assert(quality_codes(block.qs@.subrange(0, k as int)) =~= quality_codes(
            block.qs@.subrange(0, k - 1),
        ).push(block.qs@[k - 1].0));
    }
    assert(block.qs@.subrange(0, block.qs@.len() as int) =~= block.qs@);
    assert(out@ =~= block_bytes(*block));
    Ok(out)
}

/// Decodes a block; its object key is empty.  Fails with `InvalidData`
/// exactly when the bytes are no well-formed encoding: a bad magic or
/// version, an unknown tag, a zero capacity, a length that disagrees with
/// the capacity, or a field out of its range.
pub fn decode_block(bs: &[u8]) -> (r: Result<SizedBlock, CodecError>)
    ensures
        match parse_block(bs@) {
            Some(m) => r matches Ok(b) && block_model(b) == m && b.wf() && accum_fits(b.stype, b.meta.sum)
                && b.meta.object_key@.len() == 0,
            None => r matches Err(CodecError::InvalidData(_)),
        },
{
    let len = bs.len();
    if len < 155 {
        return Err(CodecError::InvalidData("truncated block".to_string()));
    }
    if bs[0] != 0x56 || bs[1] != 0x44 || bs[2] != 0x4e || bs[3] != 0x4b || bs[4] != CODEC_VERSION {
        return Err(CodecError::InvalidData("bad magic or version".to_string()));
    }
    let st = match StorageType::from_tag(bs[5]) {
        Some(st) => st,
        None => {
            return Err(CodecError::InvalidData("unknown storage type".to_string()));
        },
    };
    proof {
        assert(type_of_tag(bs@[5]) == st);
    }
    let c32 = read_u32_at(bs, 6);
    let sw = sum_width_exec(st);
    let w = st.sample_bytes();
    if c32 == 0 || bs[154] as usize != sw {
        return Err(CodecError::InvalidData("bad capacity or sum width".to_string()));
    }
    let c = c32 as u64;
    proof {
        assert((w + 1) * c <= 9 * 0xffff_ffff) by (nonlinear_arith)
            requires
                w <= 8,
                c <= 0xffff_ffff,
        ;
        assert((w + 1) * c == w * c + c) by (nonlinear_arith);
    }
    if (len as u64) != 155 + sw as u64 + (w + 1) * c {
        return Err(CodecError::InvalidData("length mismatch".to_string()));
    }
    let stats = read_all_le(bs, 10, 18, 8);
    proof {
        assert(stats@ =~= Seq::new(18, |k: int| le_value(bs@.subrange(10 + 8 * k, 18 + 8 * k)) as u64));
    }
    if !stats_in_range(stats.as_slice()) {
        proof {
            let ps = Seq::new(18, |k: int| le_value(bs@.subrange(10 + 8 * k, 18 + 8 * k)) as u64);
            let k = choose|k: int| 0 <= k < 18 && (#[trigger] stats@[k] as nat) >= field_bound(k);
            assert(ps[k] as nat >= field_bound(k));
        }
        return Err(CodecError::InvalidData("statistics field out of range".to_string()));
    }
    let cu = c32 as usize;
    let wu = w as usize;
    let vo: usize = 155 + sw;
    let qo: usize = vo + wu * cu;
    let raw = read_le(bs, 155, sw);
    proof {
        lemma_le_value_bound(bs@.subrange(155, vo as int));
        lemma_pow256_values();
        assert(wu * cu == w * c);
        assert(cu * wu == wu * cu) by (nonlinear_arith);
    }
    let sum = sum_of_raw_exec(st, raw);
    let vals = read_all_le(bs, vo, cu, wu);
    proof {
        assert(vals@ =~= Seq::new(
            c as nat,
            |k: int| le_value(bs@.subrange(vo + w * k, vo + w * k + w)) as u64,
        ));
    }
    if !values_fit(st, vals.as_slice()) {
        proof {
            let ps = Seq::new(
                c as nat,
                |k: int| le_value(bs@.subrange(vo + w * k, vo + w * k + w)) as u64,
            );
            let i = choose|i: int| 0 <= i < vals@.len() && !bits_fit(st, #[trigger] vals@[i]);
            assert(!bits_fit(st, ps[i]));
        }
        return Err(CodecError::InvalidData("value out of range".to_string()));
    }
    let mut qs: Vec<Quality> = Vec::new();
    let mut j: usize = 0;
    while j < cu
        invariant
            qo + cu == len,
            len == bs@.len(),
            j <= cu,
            quality_codes(qs@) == bs@.subrange(qo as int, qo + j),
            qs@.len() == j,
        decreases cu - j,
    {
        qs.push(Quality(bs[qo + j]));
        j = j + 1;
        assert(quality_codes(qs@) =~= bs@.subrange(qo as int, qo + j));
    }
    let meta = BlockMeta {
        count_non_missing: stats[0] as u32,
        count_valid: stats[1] as u32,
        sum,
        min: stats[2],
        max: stats[3],
        fst_valid: stats[4],
        fst_valid_q: Quality(stats[5] as u8),
        lst_valid: stats[6],
        lst_valid_q: Quality(stats[7] as u8),
        fst_valid_offset: stats[8] as u32,
        lst_valid_offset: stats[9] as u32,
        fst: stats[10],
        fst_q: Quality(stats[11] as u8),
        lst: stats[12],
        lst_q: Quality(stats[13] as u8),
        fst_offset: stats[14] as u32,
        lst_offset: stats[15] as u32,
        qual_acc_or: stats[16] as u32,
        qual_acc_and: stats[17] as u32,
        object_key: String::new(),
    };
    let b = SizedBlock { stype: st, meta, vals, qs };
    proof {
        assert(stat_fields(b.meta) =~= stats@) by {
            assert(field_bound(0) == 0x1_0000_0000);
            assert(field_bound(5) == 0x100);
        }
        assert(b.vals@ =~= Seq::new(
            c as nat,
            |k: int| le_value(bs@.subrange(vo + w * k, vo + w * k + w)) as u64,
        ));
    }
    Ok(b)
}

/// The catalog's byte form of a sum: its raw bits, little-endian, in the
/// accumulator's width.
pub fn sum_to_blob(st: StorageType, a: Accum) -> (r: Vec<u8>)
    requires
        accum_fits(st, a),
    ensures
        r@ == le_bytes(sum_raw(st, a), sum_width(st)),
{
    let mut out: Vec<u8> = Vec::new();
    push_le(&mut out, sum_raw_exec(st, a), sum_width_exec(st));
    out
}

/// Reads a sum back from its byte form; fails unless the blob has the
/// accumulator's width.
pub fn sum_from_blob(st: StorageType, bytes: &[u8]) -> (r: Result<Accum, String>)
    ensures
        bytes@.len() == sum_width(st) ==> r == Ok::<Accum, String>(sum_of_raw(st, le_value(bytes@))),
        bytes@.len() != sum_width(st) ==> r is Err,
{
    let sw = sum_width_exec(st);
    if bytes.len() != sw {
        return Err("invalid blob length".to_string());
    }
    let raw = read_le(bytes, 0, sw);
    proof {
        assert(bytes@.subrange(0, sw as int) =~= bytes@);
        lemma_le_value_bound(bytes@);
    }
    Ok(sum_of_raw_exec(st, raw))
}

/// Sums survive the catalog's byte form.
pub proof fn lemma_sum_blob_round_trip(st: StorageType, a: Accum)
    requires
        accum_fits(st, a),
    ensures
        sum_of_raw(st, le_value(le_bytes(sum_raw(st, a), sum_width(st)))) == a,
{
    lemma_sum_round_trip(st, a);
    lemma_le_round_trip(sum_raw(st, a), sum_width(st));
}

/// The sums that block statistics compute fit their accumulator, so such
/// blocks can be encoded.
pub proof fn lemma_stats_sum_fits(m: BlockMeta, st: StorageType, vals: Seq<u64>, qs: Seq<Quality>)
    requires
        stats_ok(m, st, vals, qs),
    ensures
        accum_fits(st, m.sum),
{
    if !st.spec_is_float() {
        lemma_valid_sum_range(st, vals, qs, qs.len() as int);
    }
}

} // verus!
