//! Write-ahead-log records, frames and recovery.

use vstd::prelude::*;
use crate::bytes::{
    le_bytes, le_concat, le_value, lemma_le_bytes_len, lemma_le_concat_index, lemma_le_concat_len,
    lemma_le_round_trip, lemma_pow256_values, pow256, push_all_le, push_le, read_all_le,
    read_u32_at, read_u64_at,
};
use crate::block::WriteBatch;
use crate::meta::{BlockNumber, Quality, SeriesId};
use crate::text::{dec_digits, decimal_padded, zero_pad};

verus! {

/// Tag byte of a WRITE record.
pub const TAG_WRITE: u8 = 1;

/// Tag byte of a FLUSH record.
pub const TAG_FLUSH: u8 = 2;

/// Bytes of a record header: tag, transaction, series and block.
pub const HEADER_LEN: usize = 25;

/// Largest payload a frame may carry: 100 MiB.
pub const MAX_FRAME_LEN: u32 = 104_857_600;

/// Errors of the write-ahead log.
#[derive(Debug)]
pub enum WalError {
    Io(String),
    SyncFailed(String),
    Serialization(String),
    BufferTooSmall(usize),
    ChecksumMismatch { expected: u32, found: u32 },
    InvalidFrameLength(u32),
    UnexpectedEof,
    Config(String),
}

/// A process-wide monotonic write identifier.
#[derive(Clone, Copy, PartialEq, Eq, Structural, Debug, Hash, PartialOrd, Ord)]
pub struct TxId(pub u64);

/// When the log is synced to disk.
#[derive(Clone, Copy, PartialEq, Eq, Structural, Debug)]
pub enum WalSync {
    Immediate,
}

/// A log record as plain values; sample values are native bit patterns.
pub enum WalRecord {
    Write { tx: u64, series: u64, block: u64, ts: Seq<u64>, vals: Seq<u64>, qs: Seq<u8> },
    Flush { tx: u64, series: u64, block: u64 },
}

/// The record header bytes.
pub open spec fn header_bytes(tag: u8, tx: u64, series: u64, block: u64) -> Seq<u8> {
    seq![tag] + le_bytes(tx as nat, 8) + le_bytes(series as nat, 8) + le_bytes(block as nat, 8)
}

/// The payload of a record whose samples are `w` bytes wide.
pub open spec fn record_bytes(r: WalRecord, w: nat) -> Seq<u8> {
    match r {
        WalRecord::Write { tx, series, block, ts, vals, qs } => header_bytes(
            TAG_WRITE,
            tx,
            series,
            block,
        ) + le_bytes(ts.len(), 4) + le_concat(ts, 8) + le_concat(vals, w) + qs,
        WalRecord::Flush { tx, series, block } => header_bytes(TAG_FLUSH, tx, series, block),
    }
}

/// A sample width is one of 1, 4, 8 bytes.
pub open spec fn width_ok(w: nat) -> bool {
    w == 1 || w == 4 || w == 8
}

/// A record that encodes and decodes faithfully: nonzero series, equal
/// lengths that fit the 32-bit count, values within `w` bytes.
pub open spec fn record_wf(r: WalRecord, w: nat) -> bool {
    match r {
        WalRecord::Write { tx, series, block, ts, vals, qs } => {
            &&& series != 0
            &&& ts.len() == vals.len()
            &&& vals.len() == qs.len()
            &&& ts.len() <= u32::MAX
            &&& forall|i: int| 0 <= i < vals.len() ==> (#[trigger] vals[i] as nat) < pow256(w)
        },
        WalRecord::Flush { tx, series, block } => series != 0,
    }
}

/// The record that a payload holds, if it is well formed.
pub open spec fn parse_record(s: Seq<u8>, w: nat) -> Option<WalRecord> {
    if s.len() < 25 {
        None
    } else {
        let tx = le_value(s.subrange(1, 9)) as u64;
        let series = le_value(s.subrange(9, 17)) as u64;
        let block = le_value(s.subrange(17, 25)) as u64;
        if series == 0 {
            None
        } else if s[0] == TAG_FLUSH {
            if s.len() == 25 {
                Some(WalRecord::Flush { tx, series, block })
            } else {
                None
            }
        } else if s[0] == TAG_WRITE && s.len() >= 29 {
            let c = le_value(s.subrange(25, 29)) as int;
            let vo = 29 + 8 * c;
            let qo = vo + w * c;
            if s.len() == qo + c {
                Some(
                    WalRecord::Write {
                        tx,
                        series,
                        block,
                        ts: Seq::new(
                            c as nat,
                            |k: int| le_value(s.subrange(29 + 8 * k, 37 + 8 * k)) as u64,
                        ),
                        vals: Seq::new(
                            c as nat,
                            |k: int| le_value(s.subrange(vo + w * k, vo + w * k + w)) as u64,
                        ),
                        qs: s.subrange(qo, qo + c),
                    },
                )
            } else {
                None
            }
        } else {
            None
        }
    }
}

/// A log record.  WRITE carries one batch for one block; FLUSH marks the
/// transaction's block as persisted.
#[derive(Debug)]
pub enum WalEntry {
    Write {
        block: BlockNumber,
        qs: Vec<Quality>,
        series: SeriesId,
        ts: Vec<u64>,
        tx: TxId,
        vals: Vec<u64>,
    },
    Flush { tx: TxId, series: SeriesId, block: BlockNumber },
}

/// The quality codes of a sequence of qualities.
pub open spec fn quality_codes(qs: Seq<Quality>) -> Seq<u8> {
    qs.map_values(|q: Quality| q.0)
}

impl WalEntry {
    pub open spec fn view(&self) -> WalRecord {
        match self {
            WalEntry::Write { block, qs, series, ts, tx, vals } => WalRecord::Write {
                tx: tx.0,
                series: series.0,
                block: block.0,
                ts: ts@,
                vals: vals@,
                qs: quality_codes(qs@),
            },
            WalEntry::Flush { tx, series, block } => WalRecord::Flush {
                tx: tx.0,
                series: series.0,
                block: block.0,
            },
        }
    }
}

/// Decoding the payload of a well-formed record gives the record back.
pub proof fn lemma_record_round_trip(r: WalRecord, w: nat)
    requires
        record_wf(r, w),
        width_ok(w),
    ensures
        parse_record(record_bytes(r, w), w) == Some(r),
{
    lemma_pow256_values();
    let (tag, tx, series, block) = match r {
        WalRecord::Write { tx, series, block, .. } => (TAG_WRITE, tx, series, block),
        WalRecord::Flush { tx, series, block } => (TAG_FLUSH, tx, series, block),
    };
    let h = header_bytes(tag, tx, series, block);
    lemma_le_round_trip(tx as nat, 8);
    lemma_le_round_trip(series as nat, 8);
    lemma_le_round_trip(block as nat, 8);
    assert(h.subrange(1, 9) =~= le_bytes(tx as nat, 8));
    assert(h.subrange(9, 17) =~= le_bytes(series as nat, 8));
    assert(h.subrange(17, 25) =~= le_bytes(block as nat, 8));
    let s = record_bytes(r, w);
    match r {
        WalRecord::Flush { .. } => {},
        WalRecord::Write { ts, vals, qs, .. } => {
            let c = ts.len() as int;
            lemma_le_round_trip(c as nat, 4);
            lemma_le_concat_len(ts, 8);
            lemma_le_concat_len(vals, w);
            let tb = le_concat(ts, 8);
            let vb = le_concat(vals, w);
            let cb = le_bytes(c as nat, 4);
            let vo = 29 + 8 * c;
            let qo = vo + w * c;
            assert(s =~= h + cb + tb + vb + qs);
            assert(s.subrange(1, 9) =~= h.subrange(1, 9));
            assert(s.subrange(9, 17) =~= h.subrange(9, 17));
            assert(s.subrange(17, 25) =~= h.subrange(17, 25));
            assert(s.subrange(25, 29) =~= cb);
            assert(s[0] == TAG_WRITE);
            assert(w * c == c * w) by (nonlinear_arith);
            assert(s.len() == qo + c);
            let pts = Seq::new(c as nat, |k: int| le_value(s.subrange(29 + 8 * k, 37 + 8 * k)) as u64);
            assert forall|k: int| 0 <= k < c implies pts[k] == ts[k] by {
                lemma_le_concat_index(ts, 8, k);
                assert(s.subrange(29 + 8 * k, 37 + 8 * k) =~= tb.subrange(k * 8, k * 8 + 8));
                lemma_le_round_trip(ts[k] as nat, 8);
            }
            assert(pts =~= ts);
            let pvs = Seq::new(
                c as nat,
                |k: int| le_value(s.subrange(vo + w * k, vo + w * k + w)) as u64,
            );
            assert forall|k: int| 0 <= k < c implies pvs[k] == vals[k] by {
                lemma_le_concat_index(vals, w, k);
                assert(w * k == k * w) by (nonlinear_arith);
                assert(k * w + w <= c * w) by (nonlinear_arith)
                    requires
                        k + 1 <= c,
                ;
                assert(s.subrange(vo + w * k, vo + w * k + w) =~= vb.subrange(k * w, k * w + w));
                assert((vals[k] as nat) < pow256(w));
                lemma_le_round_trip(vals[k] as nat, w);
            }
            assert(pvs =~= vals);
            assert(s.subrange(qo, qo + c) =~= qs);
        },
    }
}

fn push_header(out: &mut Vec<u8>, tag: u8, tx: u64, series: u64, block: u64)
    ensures
        final(out)@ == old(out)@ + header_bytes(tag, tx, series, block),
{
    out.push(tag);
    push_le(out, tx as u128, 8);
    push_le(out, series as u128, 8);
    push_le(out, block as u128, 8);
    assert(final(out)@ =~= old(out)@ + header_bytes(tag, tx, series, block));
}

impl WalEntry {
    /// A record that encodes faithfully for samples of `w` bytes.
    pub open spec fn wf(&self, w: nat) -> bool {
        record_wf(self@, w)
    }

    /// Bytes of the encoded record.
    pub fn storage_size_bytes(&self, width: usize) -> (r: u64)
        requires
            width_ok(width as nat),
            self.wf(width as nat),
        ensures
            r == record_bytes(self@, width as nat).len(),
    {
        proof {
            lemma_pow256_values();
            lemma_le_bytes_len(0, 1);
        }
        match self {
            WalEntry::Write { ts, vals, qs, tx, series, block } => {
                proof {
                    lemma_le_concat_len(ts@, 8);
                    lemma_le_concat_len(vals@, width as nat);
                    lemma_le_bytes_len(tx.0 as nat, 8);
                    lemma_le_bytes_len(series.0 as nat, 8);
                    lemma_le_bytes_len(block.0 as nat, 8);
                    lemma_le_bytes_len(ts@.len(), 4);
                    assert(vals@.len() * width <= 0xffff_ffff * 8) by (nonlinear_arith)
                        requires
                            vals@.len() <= 0xffff_ffff,
                            width <= 8,
                    ;
                    assert(vals@.len() * width == width * vals@.len()) by (nonlinear_arith);
                }
                25 + 4 + 8 * (ts.len() as u64) + (width as u64) * (vals.len() as u64) + (
                qs.len() as u64)
            },
            WalEntry::Flush { tx, series, block } => {
                proof {
                    lemma_le_bytes_len(tx.0 as nat, 8);
                    lemma_le_bytes_len(series.0 as nat, 8);
                    lemma_le_bytes_len(block.0 as nat, 8);
                }
                25
            },
        }
    }
}

impl WalEntry {
    /// Encodes the record into `bytes`, replacing what they held, and
    /// returns the number of bytes written.
    pub fn write(&self, width: usize, bytes: &mut Vec<u8>) -> (r: Result<usize, WalError>)
        requires
            width_ok(width as nat),
            self.wf(width as nat),
        ensures
            final(bytes)@ == record_bytes(self@, width as nat),
            r matches Ok(n) && n == final(bytes)@.len(),
    {
        bytes.clear();
        match self {
            WalEntry::Write { block, qs, series, ts, tx, vals } => {
                push_header(bytes, TAG_WRITE, tx.0, series.0, block.0);
                proof {
                    lemma_pow256_values();
                }
                push_le(bytes, ts.len() as u128, 4);
                push_all_le(bytes, ts.as_slice(), 8);
                push_all_le(bytes, vals.as_slice(), width);
                let ghost mid = bytes@;
                let mut k: usize = 0;
                while k < qs.len()
                    invariant
                        k <= qs@.len(),
                        bytes@ == mid + quality_codes(qs@.subrange(0, k as int)),
                    decreases qs@.len() - k,
                {
                    bytes.push(qs[k].0);
                    k = k + 1;
                    assert(quality_codes(qs@.subrange(0, k as int)) =~= quality_codes(
                        qs@.subrange(0, k - 1),
                    ).push(qs@[k - 1].0));
                }
                assert(qs@.subrange(0, qs@.len() as int) =~= qs@);
                assert(bytes@ =~= record_bytes(self@, width as nat));
            },
            WalEntry::Flush { tx, series, block } => {
                push_header(bytes, TAG_FLUSH, tx.0, series.0, block.0);
                assert(bytes@ =~= record_bytes(self@, width as nat));
            },
        }
        Ok(bytes.len())
    }

    /// Decodes a record whose samples are `width` bytes wide.  Fails with
    /// `Serialization` exactly when the bytes are no well-formed record:
    /// short, an unknown tag, a zero series, or a length that disagrees with
    /// the sample count.  Decoding what `write` produced gives the record
    /// back (see `lemma_record_round_trip`).
    pub fn read(bytes: &[u8], width: usize) -> (r: Result<WalEntry, WalError>)
        requires
            width_ok(width as nat),
        ensures
            match parse_record(bytes@, width as nat) {
                Some(rec) => r matches Ok(e) && e@ == rec,
                None => r matches Err(WalError::Serialization(_)),
            },
    {
        let len = bytes.len();
        if len < 25 {
            return Err(WalError::Serialization("truncated record".to_string()));
        }
        let tag = bytes[0];
        let tx = read_u64_at(bytes, 1);
        let series = read_u64_at(bytes, 9);
        let block = read_u64_at(bytes, 17);
        if series == 0 {
            return Err(WalError::Serialization("0 series id".to_string()));
        }
        if tag == TAG_FLUSH {
            if len == 25 {
                return Ok(WalEntry::Flush { tx: TxId(tx), series: SeriesId(series), block: BlockNumber(block) });
            }
            return Err(WalError::Serialization("trailing bytes".to_string()));
        }
        if tag != TAG_WRITE || len < 29 {
            return Err(WalError::Serialization("unknown tag".to_string()));
        }
        let c32 = read_u32_at(bytes, 25);
        let c = c32 as u64;
        proof {
            assert((9 + width as u64) * c <= 17 * 0xffff_ffff) by (nonlinear_arith)
                requires
                    width <= 8,
                    c <= 0xffff_ffff,
            ;
            assert((9 + width) * c == 8 * c + width * c + c) by (nonlinear_arith);
        }
        if (len as u64) != 29 + (9 + width as u64) * c {
            return Err(WalError::Serialization("length mismatch".to_string()));
        }
        proof {
            assert((9 + width) * c == 8 * c + width * c + c) by (nonlinear_arith);
            assert(width * c == c * width) by (nonlinear_arith);
        }
        let cu = c32 as usize;
        let vo: usize = 29 + 8 * cu;
        let qo: usize = vo + width * cu;
        let ts = read_all_le(bytes, 29, cu, 8);
        let vals = read_all_le(bytes, vo, cu, width);
        let mut qs: Vec<Quality> = Vec::new();
        let mut k: usize = 0;
        while k < cu
            invariant
                qo + cu == len,
                len == bytes@.len(),
                k <= cu,
                quality_codes(qs@) == bytes@.subrange(qo as int, qo + k),
                qs@.len() == k,
            decreases cu - k,
        {
            qs.push(Quality(bytes[qo + k]));
            k = k + 1;
            assert(quality_codes(qs@) =~= bytes@.subrange(qo as int, qo + k));
        }
        let e = WalEntry::Write { block: BlockNumber(block), qs, series: SeriesId(series), ts, tx: TxId(tx), vals };
        proof {
            let rec = parse_record(bytes@, width as nat).unwrap();
            assert(ts@ =~= Seq::new(
                c as nat,
                |k: int| le_value(bytes@.subrange(29 + 8 * k, 37 + 8 * k)) as u64,
            ));
            match rec {
                WalRecord::Write { tx: rtx, series: rs, block: rb, ts: rts, vals: rvals, qs: rqs } => {
                    assert(rtx == tx);
                    assert(rs == series);
                    assert(rb == block);
                    assert(rts == ts@);
                    assert(rvals =~= vals@);
                    assert(rqs =~= quality_codes(qs@));
                },
                WalRecord::Flush { .. } => {
                    assert(false);
                },
            }
        }
        Ok(e)
    }
}

/// The WRITE record of a batch.
pub fn from_write_batch(batch: &WriteBatch) -> (r: WalEntry)
    ensures
        r@ == (WalRecord::Write {
            tx: batch.tx.0,
            series: batch.series.id.0,
            block: batch.block_id.0,
            ts: batch.ts@,
            vals: batch.vals@,
            qs: quality_codes(batch.qs@),
        }),
{
    let ts = slice_to_vec(batch.ts);
    let vals = slice_to_vec(batch.vals);
    let qs = slice_to_vec(batch.qs);
    WalEntry::Write { block: batch.block_id, qs, series: batch.series.id, ts, tx: batch.tx, vals }
}

fn slice_to_vec<T: Copy>(s: &[T]) -> (r: Vec<T>)
    ensures
        r@ == s@,
{
    let mut r: Vec<T> = Vec::new();
    let mut i: usize = 0;
    while i < s.len()
        invariant
            i <= s@.len(),
            r@ == s@.subrange(0, i as int),
        decreases s@.len() - i,
    {
        r.push(s[i]);
        i = i + 1;
        assert(r@ =~= s@.subrange(0, i as int));
    }
    assert(s@.subrange(0, i as int) =~= s@);
    r
}

/// The leading fields of a record.
#[derive(Debug)]
pub struct WalEntryHeader {
    pub tag: u8,
    pub tx: TxId,
    pub series: SeriesId,
    pub block: BlockNumber,
}

impl WalEntryHeader {
    /// Reads tag, transaction, series and block without decoding the rest.
    /// Fails on a payload shorter than a header or a zero series.
    pub fn peek(bytes: &[u8]) -> (r: Result<WalEntryHeader, WalError>)
        ensures
            bytes@.len() < 25 ==> r is Err,
            bytes@.len() >= 25 ==> match r {
                Ok(h) => {
                    &&& h.tag == bytes@[0]
                    &&& h.tx.0 == le_value(bytes@.subrange(1, 9))
                    &&& h.series.0 == le_value(bytes@.subrange(9, 17))
                    &&& h.series.0 != 0
                    &&& h.block.0 == le_value(bytes@.subrange(17, 25))
                },
                Err(_) => le_value(bytes@.subrange(9, 17)) == 0,
            },
    {
        if bytes.len() < HEADER_LEN {
            return Err(WalError::Serialization("truncated header".to_string()));
        }
        let tag = bytes[0];
        let tx = read_u64_at(bytes, 1);
        let series = read_u64_at(bytes, 9);
        let block = read_u64_at(bytes, 17);
        if series == 0 {
            return Err(WalError::Serialization("0 series id".to_string()));
        }
        Ok(WalEntryHeader { tag, tx: TxId(tx), series: SeriesId(series), block: BlockNumber(block) })
    }
}

/// The CRC-32-ISCSI (Castagnoli) checksum of `data`.
pub uninterp spec fn crc32c(data: Seq<u8>) -> u32;

/// Relies on `crc::Crc::<u32>::checksum` with the `CRC_32_ISCSI` parameters:
/// the checksum is a function of the bytes alone.
#[verifier::external_body]
fn crc32c_checksum(data: &[u8]) -> (r: u32)
    ensures
        r == crc32c(data@),
{
    crc::Crc::<u32>::new(&crc::CRC_32_ISCSI).checksum(data)
}

/// The on-disk bytes of a frame: length, checksum, payload.
pub open spec fn frame_bytes(len: u32, crc: u32, payload: Seq<u8>) -> Seq<u8> {
    le_bytes(len as nat, 4) + le_bytes(crc as nat, 4) + payload
}

/// One framed payload of the log.
#[derive(Debug)]
pub struct WalFrame {
    pub len: u32,
    pub crc: u32,
    pub payload: Vec<u8>,
}

impl WalFrame {
    /// A frame around `payload` with its length and checksum set.
    pub fn new(payload: Vec<u8>) -> (r: WalFrame)
        requires
            0 < payload@.len() <= MAX_FRAME_LEN,
        ensures
            r.payload@ == payload@,
            r.len == payload@.len(),
            r.crc == crc32c(payload@),
    {
        let len = payload.len() as u32;
        let mut f = WalFrame { len, crc: 0, payload };
        f.set_crc();
        f
    }

    /// Sets the checksum from the payload.
    pub fn set_crc(&mut self)
        ensures
            final(self).crc == crc32c(old(self).payload@),
            final(self).len == old(self).len,
            final(self).payload == old(self).payload,
    {
        self.crc = self.calc_crc();
    }

    /// The checksum of the payload.
    pub fn calc_crc(&self) -> (r: u32)
        ensures
            r == crc32c(self.payload@),
    {
        crc32c_checksum(self.payload.as_slice())
    }

    /// Bytes the frame takes on disk.
    pub fn get_storage_size(&self) -> (r: u64)
        requires
            self.payload@.len() <= u32::MAX,
        ensures
            r == 8 + self.payload@.len(),
    {
        8 + self.payload.len() as u64
    }

    /// Appends the frame's on-disk bytes to `out`.
    pub fn write(&self, out: &mut Vec<u8>)
        ensures
            final(out)@ == old(out)@ + frame_bytes(self.len, self.crc, self.payload@),
    {
        push_le(out, self.len as u128, 4);
        push_le(out, self.crc as u128, 4);
        let mut k: usize = 0;
        let ghost mid = out@;
        while k < self.payload.len()
            invariant
                k <= self.payload@.len(),
                out@ == mid + self.payload@.subrange(0, k as int),
            decreases self.payload@.len() - k,
        {
            out.push(self.payload[k]);
            k = k + 1;
            assert(out@ =~= mid + self.payload@.subrange(0, k as int));
        }
        assert(self.payload@.subrange(0, k as int) =~= self.payload@);
        assert(final(out)@ =~= old(out)@ + frame_bytes(self.len, self.crc, self.payload@));
    }
}

/// Reads the frame that starts at `pos` of a log file's bytes and returns
/// it with the position after it; `None` at the end (fewer than 8 bytes
/// left).  A length of zero or over `MAX_FRAME_LEN` gives
/// `InvalidFrameLength`, a payload cut short gives `UnexpectedEof`; after
/// either the position is the end of the data.  A payload whose checksum
/// disagrees gives `ChecksumMismatch` and the position after it.
pub fn next_frame(data: &[u8], pos: usize) -> (r: Option<(Result<WalFrame, WalError>, usize)>)
    requires
        pos <= data@.len(),
    ensures
        pos + 8 > data@.len() ==> r is None,
        pos + 8 <= data@.len() ==> ({
            let len = le_value(data@.subrange(pos as int, pos + 4));
            let crc = le_value(data@.subrange(pos + 4, pos + 8));
            let end = pos + 8 + len;
            if len == 0 || len > MAX_FRAME_LEN {
                r matches Some((Err(WalError::InvalidFrameLength(l)), n)) && l == len && n
                    == data@.len()
            } else if end > data@.len() {
                r matches Some((Err(WalError::UnexpectedEof), n)) && n == data@.len()
            } else {
                let p = data@.subrange(pos + 8, end);
                if crc32c(p) != crc {
                    r matches Some((Err(WalError::ChecksumMismatch { expected, found }), n))
                        && expected == crc && found == crc32c(p) && n == end
                } else {
                    r matches Some((Ok(f), n)) && f.payload@ == p && f.len == len && f.crc
                        == crc && n == end
                }
            }
        }),
{
    let dlen = data.len();
    if dlen - pos < 8 {
        return None;
    }
    let len = read_u32_at(data, pos);
    let expected = read_u32_at(data, pos + 4);
    if len == 0 || len > MAX_FRAME_LEN {
        return Some((Err(WalError::InvalidFrameLength(len)), dlen));
    }
    let start = pos + 8;
    if dlen - start < len as usize {
        return Some((Err(WalError::UnexpectedEof), dlen));
    }
    let end = start + len as usize;
    let mut payload: Vec<u8> = Vec::new();
    let mut k: usize = start;
    while k < end
        invariant
            start <= k <= end,
            end <= data@.len(),
            payload@ == data@.subrange(start as int, k as int),
        decreases end - k,
    {
        payload.push(data[k]);
        k = k + 1;
        assert(payload@ =~= data@.subrange(start as int, k as int));
    }
    let found = crc32c_checksum(payload.as_slice());
    if found != expected {
        return Some((Err(WalError::ChecksumMismatch { expected, found }), end));
    }
    Some((Ok(WalFrame { len, crc: found, payload }), end))
}

/// Framing round trip: the header of a frame written around a payload
/// reads back as the payload's length and checksum, and the payload follows
/// it unchanged; so `next_frame` yields the payload with no checksum error.
pub proof fn lemma_frame_round_trip(payload: Seq<u8>)
    requires
        0 < payload.len() <= MAX_FRAME_LEN,
    ensures
        ({
            let d = frame_bytes(payload.len() as u32, crc32c(payload), payload);
            &&& d.len() == 8 + payload.len()
            &&& le_value(d.subrange(0, 4)) == payload.len()
            &&& le_value(d.subrange(4, 8)) == crc32c(payload)
            &&& d.subrange(8, 8 + payload.len() as int) == payload
        }),
{
    lemma_pow256_values();
    let l = payload.len() as u32;
    let c = crc32c(payload);
    lemma_le_round_trip(l as nat, 4);
    lemma_le_round_trip(c as nat, 4);
    let d = frame_bytes(l, c, payload);
    assert(d.subrange(0, 4) =~= le_bytes(l as nat, 4));
    assert(d.subrange(4, 8) =~= le_bytes(c as nat, 4));
    assert(d.subrange(8, 8 + payload.len() as int) =~= payload);
}

/// Log round trip: a well-formed record, encoded and framed, reads back
/// through the frame header and the record decoder as the same record.
pub proof fn lemma_wal_round_trip(r: WalRecord, w: nat)
    requires
        record_wf(r, w),
        width_ok(w),
        record_bytes(r, w).len() <= MAX_FRAME_LEN,
    ensures
        ({
            let p = record_bytes(r, w);
            let d = frame_bytes(p.len() as u32, crc32c(p), p);
            &&& le_value(d.subrange(0, 4)) == p.len()
            &&& le_value(d.subrange(4, 8)) == crc32c(p)
            &&& parse_record(d.subrange(8, 8 + p.len() as int), w) == Some(r)
        }),
{
    let p = record_bytes(r, w);
    assert(p.len() >= 25) by {
        lemma_le_bytes_len(0, 8);
        match r {
            WalRecord::Write { tx, series, block, .. } => {
                lemma_le_bytes_len(tx as nat, 8);
                lemma_le_bytes_len(series as nat, 8);
                lemma_le_bytes_len(block as nat, 8);
            },
            WalRecord::Flush { tx, series, block } => {
                lemma_le_bytes_len(tx as nat, 8);
                lemma_le_bytes_len(series as nat, 8);
                lemma_le_bytes_len(block as nat, 8);
            },
        }
    }
    lemma_frame_round_trip(p);
    lemma_record_round_trip(r, w);
}

/// A frame appended to a log file reads back from where it was appended:
/// whatever the file held before, the header at that position gives the
/// payload's length and checksum and the payload follows unchanged, so
/// `next_frame` at that position yields the record.
pub proof fn lemma_appended_frame_reads_back(before: Seq<u8>, r: WalRecord, w: nat)
    requires
        record_wf(r, w),
        width_ok(w),
        record_bytes(r, w).len() <= MAX_FRAME_LEN,
    ensures
        ({
            let p = record_bytes(r, w);
            let d = before + frame_bytes(p.len() as u32, crc32c(p), p);
            let pos = before.len() as int;
            &&& d.len() == pos + 8 + p.len()
            &&& le_value(d.subrange(pos, pos + 4)) == p.len()
            &&& le_value(d.subrange(pos + 4, pos + 8)) == crc32c(p)
            &&& d.subrange(pos + 8, pos + 8 + p.len()) == p
            &&& parse_record(d.subrange(pos + 8, pos + 8 + p.len()), w) == Some(r)
        }),
{
    let p = record_bytes(r, w);
    lemma_wal_round_trip(r, w);
    let f = frame_bytes(p.len() as u32, crc32c(p), p);
    lemma_frame_round_trip(p);
    let d = before + f;
    let pos = before.len() as int;
    assert(d.subrange(pos, pos + 4) =~= f.subrange(0, 4));
    assert(d.subrange(pos + 4, pos + 8) =~= f.subrange(4, 8));
    assert(d.subrange(pos + 8, pos + 8 + p.len()) =~= f.subrange(8, 8 + p.len() as int));
}

/// Encodes a record and frames it: the bytes to append to a log file.
/// Fails with `Serialization` when the payload would exceed
/// `MAX_FRAME_LEN`, which no reader accepts.
pub fn encode_frame(entry: &WalEntry, width: usize) -> (r: Result<Vec<u8>, WalError>)
    requires
        width_ok(width as nat),
        entry.wf(width as nat),
    ensures
        ({
            let p = record_bytes(entry@, width as nat);
            if p.len() <= MAX_FRAME_LEN {
                r matches Ok(b) && b@ == frame_bytes(p.len() as u32, crc32c(p), p)
            } else {
                r matches Err(WalError::Serialization(_))
            }
        }),
{
    let mut payload: Vec<u8> = Vec::new();
    let _ = entry.write(width, &mut payload);
    if payload.len() > MAX_FRAME_LEN as usize {
        return Err(WalError::Serialization("record too large".to_string()));
    }
    proof {
        assert(payload@.len() >= 25) by {
            lemma_le_bytes_len(0, 8);
            match entry@ {
                WalRecord::Write { tx, series, block, .. } => {
                    lemma_le_bytes_len(tx as nat, 8);
                    lemma_le_bytes_len(series as nat, 8);
                    lemma_le_bytes_len(block as nat, 8);
                },
                WalRecord::Flush { tx, series, block } => {
                    lemma_le_bytes_len(tx as nat, 8);
                    lemma_le_bytes_len(series as nat, 8);
                    lemma_le_bytes_len(block as nat, 8);
                },
            }
        }
    }
    let frame = WalFrame::new(payload);
    let mut out: Vec<u8> = Vec::new();
    frame.write(&mut out);
    assert(out@ =~= frame_bytes(frame.len, frame.crc, frame.payload@));
    Ok(out)
}

/// The transactions still pending after a sequence of record headers
/// `(tag, tx)`, in log order: a WRITE adds its transaction, a FLUSH removes
/// it.
pub open spec fn pending_after(hs: Seq<(u8, u64)>) -> Set<u64>
    decreases hs.len(),
{
    if hs.len() == 0 {
        Set::empty()
    } else {
        let prev = pending_after(hs.drop_last());
        let (tag, tx) = hs.last();
        if tag == TAG_WRITE {
            prev.insert(tx)
        } else if tag == TAG_FLUSH {
            prev.remove(tx)
        } else {
            prev
        }
    }
}

/// A FLUSH elides its WRITE: when the headers hold a WRITE of `tx` and, after
/// it, a FLUSH of `tx` that no later WRITE of `tx` follows, `tx` is not
/// pending, so recovery replays nothing for it.
pub proof fn lemma_flush_elides_write(hs: Seq<(u8, u64)>, i: int, j: int, tx: u64)
    requires
        0 <= i < j < hs.len(),
        hs[i] == (TAG_WRITE, tx),
        hs[j] == (TAG_FLUSH, tx),
        forall|k: int| j < k < hs.len() ==> #[trigger] hs[k] != (TAG_WRITE, tx),
    ensures
        !pending_after(hs).contains(tx),
    decreases hs.len(),
{
    if hs.len() - 1 == j {
        assert(hs.last() == (TAG_FLUSH, tx));
    } else {
        let pre = hs.drop_last();
        assert forall|k: int| j < k < pre.len() implies #[trigger] pre[k] != (TAG_WRITE, tx) by {
            assert(pre[k] == hs[k]);
        }
        lemma_flush_elides_write(pre, i, j, tx);
        assert(hs[hs.len() - 1] != (TAG_WRITE, tx));
    }
}

/// Transactions are strictly ascending.
pub open spec fn tx_sorted(p: Seq<(TxId, WalFrame)>) -> bool {
    forall|a: int, b: int| 0 <= a < b < p.len() ==> p[a].0.0 < p[b].0.0
}

/// The set of transactions of a pending list.
pub open spec fn tx_set(p: Seq<(TxId, WalFrame)>) -> Set<u64> {
    Set::new(|t: u64| exists|a: int| 0 <= a < p.len() && #[trigger] p[a].0.0 == t)
}

/// `new` is the sorted pending list `old` after a WRITE of `tx` with frame
/// `f`, placed at index `i`: the first index whose transaction is not below
/// `tx`.  An entry of the same transaction is replaced; otherwise the entry
/// is inserted there.  All other entries stay, in order.
pub open spec fn write_at(
    old: Seq<(TxId, WalFrame)>,
    new: Seq<(TxId, WalFrame)>,
    tx: u64,
    f: WalFrame,
    i: int,
) -> bool {
    &&& 0 <= i <= old.len()
    &&& forall|a: int| 0 <= a < i ==> old[a].0.0 < tx
    &&& i < old.len() ==> old[i].0.0 >= tx
    &&& new == if i < old.len() && old[i].0.0 == tx {
        old.update(i, (TxId(tx), f))
    } else {
        old.insert(i, (TxId(tx), f))
    }
}

/// `new` is the pending list `old` after a FLUSH of `tx`: the entry of `tx`,
/// if there is one, is removed, and all other entries stay, in order.
pub open spec fn flush_step(old: Seq<(TxId, WalFrame)>, new: Seq<(TxId, WalFrame)>, tx: u64) -> bool {
    if exists|i: int| 0 <= i < old.len() && #[trigger] old[i].0.0 == tx {
        exists|i: int| 0 <= i < old.len() && #[trigger] old[i].0.0 == tx && new == old.remove(i)
    } else {
        new == old
    }
}

/// The scan of a log for WRITE records that no FLUSH followed: for each
/// pending transaction, the frame of its last WRITE, ordered by transaction.
pub struct RecoveryScan {
    pub pending: Vec<(TxId, WalFrame)>,
    pub seen: Ghost<Seq<(u8, u64)>>,
}

impl RecoveryScan {
    /// Sorted by transaction, holding exactly the pending transactions of
    /// the headers seen.
    pub open spec fn wf(&self) -> bool {
        &&& tx_sorted(self.pending@)
        &&& tx_set(self.pending@) == pending_after(self.seen@)
    }

    pub fn new() -> (r: RecoveryScan)
        ensures
            r.wf(),
            r.seen@.len() == 0,
            r.pending@.len() == 0,
    {
        let r = RecoveryScan { pending: Vec::new(), seen: Ghost(Seq::empty()) };
        assert(tx_set(r.pending@) =~= Set::empty());
        r
    }

    /// The first index whose transaction is at least `tx`.
    fn lower_bound(&self, tx: u64) -> (r: usize)
        requires
            tx_sorted(self.pending@),
        ensures
            r <= self.pending@.len(),
            forall|a: int| 0 <= a < r ==> self.pending@[a].0.0 < tx,
            r < self.pending@.len() ==> self.pending@[r as int].0.0 >= tx,
    {
        let mut i: usize = 0;
        while i < self.pending.len()
            invariant
                i <= self.pending@.len(),
                forall|a: int| 0 <= a < i ==> self.pending@[a].0.0 < tx,
            decreases self.pending@.len() - i,
        {
            if self.pending[i].0.0 >= tx {
                return i;
            }
            i = i + 1;
        }
        i
    }

    /// Takes the next frame of the log.  A WRITE makes its transaction
    /// pending with this frame; a FLUSH clears its transaction.  A frame
    /// whose header cannot be read, or whose tag is unknown, is refused and
    /// changes nothing.
    #[verifier::rlimit(50)]
    pub fn add_frame(&mut self, frame: WalFrame) -> (r: Result<(), WalError>)
        requires
            old(self).wf(),
        ensures
            final(self).wf(),
            ({
                let p = frame.payload@;
                r is Ok <==> (p.len() >= 25 && le_value(p.subrange(9, 17)) != 0 && (p[0]
                    == TAG_WRITE || p[0] == TAG_FLUSH))
            }),
            match r {
                Ok(()) => {
                    let p = frame.payload@;
                    let tag = p[0];
                    let tx = le_value(p.subrange(1, 9)) as u64;
                    &&& final(self).seen@ == old(self).seen@.push((tag, tx))
                    &&& tag == TAG_WRITE ==> exists|i: int|
                        write_at(old(self).pending@, final(self).pending@, tx, frame, i)
                    &&& tag == TAG_FLUSH ==> flush_step(
                        old(self).pending@,
                        final(self).pending@,
                        tx,
                    )
                },
                Err(_) => *final(self) == *old(self),
            },
    {
        let header = match WalEntryHeader::peek(frame.payload.as_slice()) {
            Ok(h) => h,
            Err(e) => {
                return Err(e);
            },
        };
        let tx = header.tx.0;
        let ghost seen2 = self.seen@.push((header.tag, tx));
        assert(seen2.drop_last() =~= self.seen@);
        assert(seen2.last() == (header.tag, tx));
        if header.tag == TAG_WRITE {
            let i = self.lower_bound(tx);
            let ghost old_p = self.pending@;
            let ghost fr = frame;
            if i < self.pending.len() && self.pending[i].0.0 == tx {
                self.pending.set(i, (header.tx, frame));
                proof {
                    assert(self.pending@ == old_p.update(i as int, (TxId(tx), fr)));
                    assert(tx_set(self.pending@) =~= tx_set(old_p).insert(tx)) by {
                        assert forall|t: u64| tx_set(old_p).insert(tx).contains(t) implies tx_set(
                            self.pending@,
                        ).contains(t) by {
                            if t != tx {
                                let a = choose|a: int| 0 <= a < old_p.len() && #[trigger] old_p[a].0.0 == t;
                                assert(self.pending@[a].0.0 == t);
                            } else {
                                assert(self.pending@[i as int].0.0 == t);
                            }
                        }
                        assert forall|t: u64| tx_set(self.pending@).contains(t) implies tx_set(old_p).insert(tx).contains(t) by {
                            let a = choose|a: int| 0 <= a < self.pending@.len() && #[trigger] self.pending@[a].0.0 == t;
                            if a != i {
                                assert(old_p[a].0.0 == t);
                            }
                        }
                    }
                    assert(self.pending@[i as int].0.0 == tx);
                    assert(write_at(old_p, self.pending@, tx, fr, i as int));
                    assert(exists|j: int| write_at(old_p, self.pending@, tx, fr, j));
                }
            } else {
                self.pending.insert(i, (header.tx, frame));
                proof {
                    assert(self.pending@ == old_p.insert(i as int, (TxId(tx), fr)));
                    assert forall|a: int, b: int| 0 <= a < b < self.pending@.len() implies self.pending@[a].0.0 < self.pending@[b].0.0 by {
                        if b < i {
                        } else if b == i {
                        } else if a < i {
                            assert(self.pending@[b] == old_p[b - 1]);
                        } else if a == i {
                            assert(self.pending@[b] == old_p[b - 1]);
                        } else {
                            assert(self.pending@[b] == old_p[b - 1]);
                            assert(self.pending@[a] == old_p[a - 1]);
                        }
                    }
                    assert(tx_set(self.pending@) =~= tx_set(old_p).insert(tx)) by {
                        assert forall|t: u64| tx_set(old_p).insert(tx).contains(t) implies tx_set(
                            self.pending@,
                        ).contains(t) by {
                            if t != tx {
                                let a = choose|a: int| 0 <= a < old_p.len() && #[trigger] old_p[a].0.0 == t;
                                if a < i {
                                    assert(self.pending@[a].0.0 == t);
                                } else {
                                    assert(self.pending@[a + 1].0.0 == t);
                                }
                            } else {
                                assert(self.pending@[i as int].0.0 == t);
                            }
                        }
                        assert forall|t: u64| tx_set(self.pending@).contains(t) implies tx_set(old_p).insert(tx).contains(t) by {
                            let a = choose|a: int| 0 <= a < self.pending@.len() && #[trigger] self.pending@[a].0.0 == t;
                            if a < i {
                                assert(old_p[a].0.0 == t);
                            } else if a > i {
                                assert(old_p[a - 1].0.0 == t);
                            }
                        }
                    }
                    assert(self.pending@[i as int].0.0 == tx);
                    assert(write_at(old_p, self.pending@, tx, fr, i as int));
                    assert(exists|j: int| write_at(old_p, self.pending@, tx, fr, j));
                }
            }
            self.seen = Ghost(seen2);
            Ok(())
        } else if header.tag == TAG_FLUSH {
            let i = self.lower_bound(tx);
            let ghost old_p = self.pending@;
            if i < self.pending.len() && self.pending[i].0.0 == tx {
                let _ = self.pending.remove(i);
                proof {
                    assert(old_p[i as int].0.0 == tx);
                    assert(self.pending@ == old_p.remove(i as int));
                    assert(flush_step(old_p, self.pending@, tx));
                    assert forall|a: int, b: int| 0 <= a < b < self.pending@.len() implies self.pending@[a].0.0 < self.pending@[b].0.0 by {
                        if a < i {
                            if b >= i {
                                assert(self.pending@[b] == old_p[b + 1]);
                            }
                        } else {
                            assert(self.pending@[b] == old_p[b + 1]);
                            assert(self.pending@[a] == old_p[a + 1]);
                        }
                    }
                    assert(tx_set(self.pending@) =~= tx_set(old_p).remove(tx)) by {
                        assert forall|t: u64| tx_set(old_p).remove(tx).contains(t) implies tx_set(
                            self.pending@,
                        ).contains(t) by {
                            let a = choose|a: int| 0 <= a < old_p.len() && #[trigger] old_p[a].0.0 == t;
                            if a < i {
                                assert(self.pending@[a].0.0 == t);
                            } else {
                                assert(a != i);
                                assert(self.pending@[a - 1].0.0 == t);
                            }
                        }
                        assert forall|t: u64| tx_set(self.pending@).contains(t) implies tx_set(old_p).remove(tx).contains(t) by {
                            let a = choose|a: int| 0 <= a < self.pending@.len() && #[trigger] self.pending@[a].0.0 == t;
                            if a < i {
                                assert(old_p[a].0.0 == t);
                            } else {
                                assert(old_p[a + 1].0.0 == t);
                            }
                        }
                    }
                }
            } else {
                proof {
                    assert forall|a: int| 0 <= a < old_p.len() implies #[trigger] old_p[a].0.0 != tx by {
                        if a > i {
                            assert(old_p[i as int].0.0 < old_p[a].0.0);
                        }
                    }
                    assert(flush_step(old_p, self.pending@, tx));
                    assert(tx_set(self.pending@) =~= tx_set(old_p).remove(tx)) by {
                        assert forall|t: u64| tx_set(self.pending@).contains(t) implies t != tx by {
                            let a = choose|a: int| 0 <= a < self.pending@.len() && #[trigger] self.pending@[a].0.0 == t;
                        }
                    }
                }
            }
            self.seen = Ghost(seen2);
            Ok(())
        } else {
            Err(WalError::Serialization("unknown tag".to_string()))
        }
    }
}

/// Where the log lives and how it is written.
#[derive(Debug)]
pub struct WalConfig {
    pub dir: String,
    pub max_file_size: u64,
    pub sync_mode: WalSync,
}

/// The name of log file `idx`: `wal_NNN.log`, at least three digits.
pub fn wal_file_name(idx: u32) -> (r: String)
    ensures
        r@ == seq!['w', 'a', 'l', '_'] + zero_pad(dec_digits(idx as nat), 3) + seq![
            '.',
            'l',
            'o',
            'g',
        ],
{
    proof {
        reveal_strlit("wal_");
        reveal_strlit(".log");
    }
    let mut s = String::from_str("wal_");
    let n = decimal_padded(idx as u64, 3);
    s.append(n.as_str());
    s.append(".log");
    s
}

/// The writer's position in the log: which file is next, whether one is
/// open, and how many bytes the open one holds.
#[derive(Clone, Copy, Debug)]
pub struct WalState {
    pub next_file_idx: u32,
    pub current_size: u64,
    pub max_file_size: u64,
    pub file_open: bool,
}

impl WalState {
    /// No file open yet; numbering starts at `first_idx`.
    pub fn new(max_file_size: u64, first_idx: u32) -> (r: WalState)
        ensures
            r.next_file_idx == first_idx,
            r.current_size == 0,
            r.max_file_size == max_file_size,
            !r.file_open,
    {
        WalState { next_file_idx: first_idx, current_size: 0, max_file_size, file_open: false }
    }

    /// Takes the next file index for a fresh, empty file.
    pub fn open_next_log(&mut self) -> (r: u32)
        requires
            old(self).next_file_idx < u32::MAX,
        ensures
            r == old(self).next_file_idx,
            final(self).next_file_idx == old(self).next_file_idx + 1,
            final(self).current_size == 0,
            final(self).max_file_size == old(self).max_file_size,
            final(self).file_open,
    {
        let idx = self.next_file_idx;
        self.next_file_idx = idx + 1;
        self.current_size = 0;
        self.file_open = true;
        idx
    }

    /// Counts a frame of `frame_size` bytes written to the open file and
    /// says whether the file is now over its limit and must be rotated.
    pub fn record_append(&mut self, frame_size: u64) -> (rotate: bool)
        ensures
            final(self).current_size == (if old(self).current_size + frame_size > u64::MAX {
                u64::MAX as int
            } else {
                old(self).current_size + frame_size
            }),
            rotate == (final(self).current_size > old(self).max_file_size),
            final(self).next_file_idx == old(self).next_file_idx,
            final(self).max_file_size == old(self).max_file_size,
            final(self).file_open == old(self).file_open,
    {
        self.current_size = self.current_size.saturating_add(frame_size);
        self.current_size > self.max_file_size
    }
}

/// The source of transaction ids.
#[derive(Debug)]
pub struct TxCounter {
    pub next: u64,
}

impl TxCounter {
    pub fn new() -> (r: TxCounter)
        ensures
            r.next == 0,
    {
        TxCounter { next: 0 }
    }
}

/// Hands out the next transaction id; ids strictly increase.
pub fn next_txid(counter: &mut TxCounter) -> (r: u64)
    requires
        old(counter).next < u64::MAX,
    ensures
        r == old(counter).next,
        final(counter).next == old(counter).next + 1,
{
    let r = counter.next;
    counter.next = r + 1;
    r
}

} // verus!
