use vodnik::block::{Accum, SizedBlock, WriteBatch};
use vodnik::codec::{decode_block, encode_block, sum_from_blob, sum_to_blob, CodecError};
use vodnik::crud::{into_api_error, validate_series_name, CreateSeries, UpdateSeries};
use vodnik::helpers::{
    derive_block_size, duration, get_block_id, get_block_length, get_block_start_as_offset,
    get_sample_offset, TimeDuration,
};
use vodnik::hot::{HotData, WriteResult};
use vodnik::ingest::{
    on_hot_result, partition_by_block, ApiError, BatchIngest, ChunkAction, IngestError, ValueVec,
};
use vodnik::meta::{
    BlockLength, BlockNumber, MetaStoreError, Quality, SampleLength, SeriesId, SeriesMeta,
    StorageType, TimeResolution,
};
use vodnik::persistence::{new_object_key, object_key, set_object_key, write_cold};
use vodnik::text::{decimal, decimal_padded};
use vodnik::wal::{
    encode_frame, next_frame, next_txid, wal_file_name, RecoveryScan, TxCounter, TxId, WalEntry,
    WalEntryHeader, WalError, WalFrame, WalState, TAG_FLUSH, TAG_WRITE,
};

const GOOD: Quality = Quality(0xC0);
const BAD: Quality = Quality(0x00);
const UNCERTAIN: Quality = Quality(0x40);
const MISSING: Quality = Quality(0x80);

fn series_i32() -> SeriesMeta {
    SeriesMeta {
        id: SeriesId(7),
        name: "s".to_string(),
        storage_type: StorageType::Int32,
        block_length: BlockLength(10),
        block_resolution: TimeResolution::Second,
        sample_length: SampleLength(1),
        sample_resolution: TimeResolution::Second,
        first_block: BlockNumber(0),
        last_block: BlockNumber(0),
        labels: vec![],
    }
}

fn bits_i32(v: i32) -> u64 {
    v as u32 as u64
}

fn write(hot: &mut HotData, s: &SeriesMeta, block: u64, ts: &[u64], vals: &[u64], qs: &[Quality], tx: u64) -> WriteResult {
    let batch = WriteBatch::new(s, BlockNumber(block), ts, vals, qs, TxId(tx));
    assert!(batch.check());
    hot.write_into_block(&batch)
}

fn payload_of(entry: &WalEntry, width: usize) -> Vec<u8> {
    let mut buf = Vec::new();
    entry.write(width, &mut buf).unwrap();
    buf
}

#[test]
fn scenario_first_ingest_fills_live_block() {
    let s = series_i32();
    let mut hot = HotData::new();
    let vals = [bits_i32(1), bits_i32(2), bits_i32(3)];
    let r = write(&mut hot, &s, 0, &[0, 1000, 2000], &vals, &[GOOD, GOOD, GOOD], 1);
    match r {
        WriteResult::Applied { live, flushing } => {
            assert_eq!(live, BlockNumber(0));
            assert!(flushing.is_empty());
        }
        _ => panic!("expected applied"),
    }
    let (tx, b) = hot.live.as_ref().unwrap();
    assert_eq!(*tx, TxId(1));
    assert_eq!(b.vals.len(), 10);
    assert_eq!(&b.vals[0..3], &[1, 2, 3]);
    assert!(b.vals[3..].iter().all(|v| *v == 0));
    assert!(b.qs[3..].iter().all(|q| q.is_missing()));
    assert_eq!(b.meta.count_valid, 3);
    assert_eq!(b.meta.count_non_missing, 3);
    assert_eq!(b.meta.min, 1);
    assert_eq!(b.meta.max, 3);
    assert_eq!(b.meta.sum, Accum::Signed(6));
    assert_eq!(b.meta.fst_offset, 0);
    assert_eq!(b.meta.lst_offset, 2);
    assert!(hot.flushing.is_empty());

    let entry = WalEntry::Write {
        block: BlockNumber(0),
        qs: vec![GOOD, GOOD, GOOD],
        series: SeriesId(7),
        ts: vec![0, 1000, 2000],
        tx: TxId(1),
        vals: vals.to_vec(),
    };
    let bytes = encode_frame(&entry, 4).unwrap();
    let (res, next) = next_frame(&bytes, 0).unwrap();
    let frame = res.unwrap();
    assert_eq!(next, bytes.len());
    assert!(next_frame(&bytes, next).is_none());
    let header = WalEntryHeader::peek(&frame.payload).unwrap();
    assert_eq!(header.tag, TAG_WRITE);
    assert_eq!(header.tx, TxId(1));
}

#[test]
fn scenario_rotation_moves_block_to_flushing() {
    let s = series_i32();
    let mut hot = HotData::new();
    let vals = [bits_i32(1), bits_i32(2), bits_i32(3)];
    write(&mut hot, &s, 0, &[0, 1000, 2000], &vals, &[GOOD, GOOD, GOOD], 1);
    let r = write(&mut hot, &s, 1, &[10_000], &[bits_i32(9)], &[GOOD], 2);
    match r {
        WriteResult::Applied { live, flushing } => {
            assert_eq!(live, BlockNumber(1));
            assert_eq!(flushing, vec![BlockNumber(0)]);
        }
        _ => panic!("expected applied"),
    }
    assert_eq!(hot.live_id, Some(BlockNumber(1)));
    let (tx1, live) = hot.live.as_ref().unwrap();
    assert_eq!(*tx1, TxId(2));
    assert_eq!(live.vals[0], 9);
    assert_eq!(hot.flushing.len(), 1);

    let (tx0, b0) = hot.take_flushing_block(BlockNumber(0)).unwrap();
    assert_eq!(tx0, TxId(1));
    assert_eq!(b0.meta.count_valid, 3);
    assert!(hot.flushing.is_empty());
    assert!(hot.take_flushing_block(BlockNumber(0)).is_none());

    let flush = WalEntry::Flush { tx: tx0, series: SeriesId(7), block: BlockNumber(0) };
    let bytes = encode_frame(&flush, 4).unwrap();
    let (res, _) = next_frame(&bytes, 0).unwrap();
    let h = WalEntryHeader::peek(&res.unwrap().payload).unwrap();
    assert_eq!(h.tag, TAG_FLUSH);
    assert_eq!(h.tx, TxId(1));
    assert_eq!(h.block, BlockNumber(0));
}

#[test]
fn scenario_backfill_goes_to_cold_path() {
    let s = series_i32();
    let mut hot = HotData::new();
    let vals = [bits_i32(1), bits_i32(2), bits_i32(3)];
    write(&mut hot, &s, 0, &[0, 1000, 2000], &vals, &[GOOD, GOOD, GOOD], 1);
    write(&mut hot, &s, 1, &[10_000], &[bits_i32(9)], &[GOOD], 2);
    let (_, b0) = hot.take_flushing_block(BlockNumber(0)).unwrap();
    let stored = encode_block(&b0).unwrap();
    let old_key = new_object_key(SeriesId(7), BlockNumber(0));

    let r = write(&mut hot, &s, 0, &[5000], &[bits_i32(7)], &[GOOD], 3);
    assert!(matches!(r, WriteResult::NeedsColdStore));
    assert_eq!(hot.live_id, Some(BlockNumber(1)));

    let mut read = decode_block(&stored).unwrap();
    let before = (read.meta.fst_offset, read.meta.lst_offset, read.meta.qual_acc_or, read.meta.qual_acc_and);
    set_object_key(&mut read, old_key.clone());
    assert_eq!(read.meta.object_key, old_key);
    assert_eq!((read.meta.fst_offset, read.meta.lst_offset, read.meta.qual_acc_or, read.meta.qual_acc_and), before);
    let ts = [5000u64];
    let v = [bits_i32(7)];
    let q = [GOOD];
    let batch = WriteBatch::new(&s, BlockNumber(0), &ts, &v, &q, TxId(3));
    let nb = write_cold(Some(read), &batch).unwrap();
    assert_eq!(nb.vals[5], 7);
    assert_eq!(nb.meta.count_valid, 4);
    assert_eq!(nb.meta.fst_offset, 0);
    assert_eq!(nb.meta.lst_offset, 5);
    let new_key = new_object_key(SeriesId(7), BlockNumber(0));
    assert_ne!(new_key, old_key);
    assert!(new_key.starts_with("data/7/7/0_"));
}

#[test]
fn scenario_flipped_bit_gives_checksum_mismatch() {
    let entry = WalEntry::Write {
        block: BlockNumber(3),
        qs: vec![GOOD, BAD],
        series: SeriesId(1),
        ts: vec![1, 2],
        tx: TxId(4),
        vals: vec![10, 20],
    };
    let mut bytes = encode_frame(&entry, 8).unwrap();
    bytes[8 + 12] ^= 0x10;
    let (res, next) = next_frame(&bytes, 0).unwrap();
    assert!(matches!(res, Err(WalError::ChecksumMismatch { .. })));
    assert!(next_frame(&bytes, next).is_none());
}

#[test]
fn scenario_recovery_keeps_unflushed_writes() {
    let w1 = WalEntry::Write { block: BlockNumber(0), qs: vec![GOOD], series: SeriesId(7), ts: vec![0], tx: TxId(1), vals: vec![1] };
    let w2 = WalEntry::Write { block: BlockNumber(1), qs: vec![GOOD], series: SeriesId(7), ts: vec![10_000], tx: TxId(2), vals: vec![2] };
    let f1 = WalEntry::Flush { tx: TxId(1), series: SeriesId(7), block: BlockNumber(0) };
    let mut scan = RecoveryScan::new();
    for e in [&w1, &w2, &f1] {
        scan.add_frame(WalFrame::new(payload_of(e, 4))).unwrap();
    }
    assert_eq!(scan.pending.len(), 1);
    assert_eq!(scan.pending[0].0, TxId(2));
    let entry = WalEntry::read(&scan.pending[0].1.payload, 4).unwrap();
    match entry {
        WalEntry::Write { block, .. } => assert_eq!(block, BlockNumber(1)),
        _ => panic!("expected a write"),
    }
}

#[test]
fn scenario_decreasing_timestamps_are_unprocessable() {
    let b = BatchIngest {
        series: SeriesId(7),
        ts: vec![5, 4],
        qs: vec![GOOD, GOOD],
        vals: ValueVec { stype: StorageType::Int32, bits: vec![1, 2] },
    };
    let e = b.validate().unwrap_err();
    assert!(matches!(e, IngestError::InvalidTimestamp(_)));
    assert!(matches!(e.to_api_error(), ApiError::Unprocessable(_)));
}

#[test]
fn wal_record_round_trip() {
    let e = WalEntry::Write {
        block: BlockNumber(u64::MAX),
        qs: vec![GOOD, UNCERTAIN, MISSING],
        series: SeriesId(99),
        ts: vec![1, 1 << 40, u64::MAX],
        tx: TxId(12),
        vals: vec![0, 0xffff_ffff, 5],
    };
    let p = payload_of(&e, 4);
    assert_eq!(p.len() as u64, e.storage_size_bytes(4));
    assert_eq!(p.len(), 25 + 4 + 3 * 8 + 3 * 4 + 3);
    match WalEntry::read(&p, 4).unwrap() {
        WalEntry::Write { block, qs, series, ts, tx, vals } => {
            assert_eq!(block, BlockNumber(u64::MAX));
            assert_eq!(qs, vec![GOOD, UNCERTAIN, MISSING]);
            assert_eq!(series, SeriesId(99));
            assert_eq!(ts, vec![1, 1 << 40, u64::MAX]);
            assert_eq!(tx, TxId(12));
            assert_eq!(vals, vec![0, 0xffff_ffff, 5]);
        }
        _ => panic!("expected a write"),
    }
    let f = WalEntry::Flush { tx: TxId(3), series: SeriesId(2), block: BlockNumber(1) };
    let p = payload_of(&f, 1);
    assert_eq!(p.len(), 25);
    assert!(matches!(WalEntry::read(&p, 1).unwrap(), WalEntry::Flush { tx: TxId(3), .. }));
}

#[test]
fn wal_read_rejects_malformed() {
    assert!(matches!(WalEntry::read(&[], 4), Err(WalError::Serialization(_))));
    let f = WalEntry::Flush { tx: TxId(3), series: SeriesId(2), block: BlockNumber(1) };
    let mut p = payload_of(&f, 4);
    p[0] = 9;
    assert!(matches!(WalEntry::read(&p, 4), Err(WalError::Serialization(_))));
    let mut z = payload_of(&f, 4);
    for b in &mut z[9..17] {
        *b = 0;
    }
    assert!(WalEntry::read(&z, 4).is_err());
    assert!(WalEntryHeader::peek(&z).is_err());
}

#[test]
fn frame_errors() {
    let mut bad_len = vec![0u8; 8];
    bad_len[0] = 0;
    assert!(matches!(next_frame(&bad_len, 0), Some((Err(WalError::InvalidFrameLength(0)), 8))));
    let f = WalEntry::Flush { tx: TxId(3), series: SeriesId(2), block: BlockNumber(1) };
    let bytes = encode_frame(&f, 4).unwrap();
    let short = &bytes[..bytes.len() - 1];
    assert!(matches!(next_frame(short, 0), Some((Err(WalError::UnexpectedEof), _))));
    assert!(next_frame(&bytes[..5], 0).is_none());
}

#[test]
fn crc_is_castagnoli() {
    let mut f = WalFrame { len: 9, crc: 0, payload: b"123456789".to_vec() };
    f.set_crc();
    assert_eq!(f.crc, 0xE306_9283);
    assert_eq!(f.calc_crc(), 0xE306_9283);
    assert_eq!(f.get_storage_size(), 17);
    let mut out = Vec::new();
    f.write(&mut out);
    assert_eq!(&out[0..8], &[9, 0, 0, 0, 0x83, 0x92, 0x06, 0xE3]);
    assert_eq!(&out[8..], b"123456789");
}

#[test]
fn block_round_trip_each_type() {
    let types = [
        (StorageType::Float32, vec![0x3f80_0000u64, 0]),
        (StorageType::Float64, vec![0x3ff0_0000_0000_0000, 1]),
        (StorageType::Int32, vec![bits_i32(-5), bits_i32(7)]),
        (StorageType::Int64, vec![(-9i64) as u64, 4]),
        (StorageType::UInt32, vec![0xffff_ffff, 1]),
        (StorageType::UInt64, vec![u64::MAX, u64::MAX]),
        (StorageType::Enumeration, vec![255, 3]),
    ];
    for (st, vals) in types {
        let mut s = series_i32();
        s.storage_type = st;
        let mut hot = HotData::new();
        write(&mut hot, &s, 2, &[20_000, 29_000], &vals, &[GOOD, UNCERTAIN], 5);
        let (_, b) = hot.live.take().unwrap();
        let bytes = encode_block(&b).unwrap();
        let d = decode_block(&bytes).unwrap();
        assert_eq!(d.stype, b.stype);
        assert_eq!(d.vals, b.vals);
        assert_eq!(d.qs, b.qs);
        assert_eq!(d.meta.sum, b.meta.sum);
        assert_eq!(d.meta.min, b.meta.min);
        assert_eq!(d.meta.max, b.meta.max);
        assert_eq!(d.meta.count_valid, b.meta.count_valid);
        assert_eq!(d.meta.qual_acc_and, b.meta.qual_acc_and);
        assert_eq!(d.meta.lst_valid_offset, 9);
        assert!(d.meta.object_key.is_empty());
        let mut truncated = bytes.clone();
        truncated.pop();
        assert!(matches!(decode_block(&truncated), Err(CodecError::InvalidData(_))));
    }
}

#[test]
fn decode_rejects_unknown_tag() {
    let b = SizedBlock::new(StorageType::Int32, 4);
    let mut bytes = encode_block(&b).unwrap();
    bytes[5] = 42;
    assert!(matches!(decode_block(&bytes), Err(CodecError::InvalidData(_))));
}

#[test]
fn statistics_follow_qualities() {
    let s = series_i32();
    let mut hot = HotData::new();
    let vals = [bits_i32(-4), bits_i32(8), bits_i32(100), bits_i32(2), bits_i32(8)];
    let qs = [GOOD, BAD, UNCERTAIN, MISSING, Quality(0xC4)];
    write(&mut hot, &s, 0, &[1000, 2000, 3000, 4000, 6000], &vals, &qs, 1);
    let (_, b) = hot.live.as_ref().unwrap();
    let m = &b.meta;
    assert_eq!(m.count_non_missing, 4);
    assert_eq!(m.count_valid, 3);
    assert_eq!(m.sum, Accum::Signed(104));
    assert_eq!(m.min, bits_i32(-4));
    assert_eq!(m.max, bits_i32(100));
    assert_eq!(m.fst_offset, 1);
    assert_eq!(m.lst_offset, 6);
    assert_eq!(m.fst_valid_offset, 1);
    assert_eq!(m.lst_valid_offset, 6);
    assert_eq!(m.lst_valid, 8);
    assert_eq!(m.qual_acc_or, 1 | 2 | 4 | 8);
    assert_eq!(m.qual_acc_and, 0);
    assert_eq!(m.qual_acc_and & !m.qual_acc_or, 0);
}

#[test]
fn statistics_of_empty_block() {
    let b = SizedBlock::new(StorageType::UInt32, 3);
    assert_eq!(b.meta.count_valid, 0);
    assert_eq!(b.meta.min, 0);
    assert_eq!(b.meta.max, 0);
    assert_eq!(b.meta.fst_offset, u32::MAX);
    assert_eq!(b.meta.qual_acc_or, 8);
    assert_eq!(b.meta.qual_acc_and, 8);
    assert_eq!(b.meta.sum, Accum::Unsigned(0));
}

#[test]
fn unsigned_sum_saturates() {
    let mut s = series_i32();
    s.storage_type = StorageType::UInt64;
    let mut hot = HotData::new();
    write(&mut hot, &s, 0, &[0, 1000, 2000], &[u64::MAX, u64::MAX, 3], &[GOOD, GOOD, GOOD], 1);
    let (_, b) = hot.live.as_ref().unwrap();
    assert_eq!(b.meta.sum, Accum::Unsigned(2 * (u64::MAX as u128) + 3));
}

#[test]
fn repeated_offset_keeps_last_write() {
    let s = series_i32();
    let mut hot = HotData::new();
    write(&mut hot, &s, 0, &[3000, 3000], &[1, 2], &[GOOD, BAD], 4);
    write(&mut hot, &s, 0, &[1000], &[5], &[GOOD], 2);
    let (tx, b) = hot.live.as_ref().unwrap();
    assert_eq!(*tx, TxId(4));
    assert_eq!(b.vals[3], 2);
    assert!(b.qs[3].is_bad());
    assert_eq!(b.meta.count_valid, 1);
}

#[test]
fn take_all_rotates_live() {
    let s = series_i32();
    let mut hot = HotData::new();
    write(&mut hot, &s, 0, &[0], &[1], &[GOOD], 1);
    write(&mut hot, &s, 1, &[10_000], &[1], &[GOOD], 2);
    let all = hot.take_all();
    assert_eq!(all.len(), 2);
    assert_eq!(all[0].block, BlockNumber(0));
    assert_eq!(all[1].block, BlockNumber(1));
    assert_eq!(all[1].tx, TxId(2));
    assert!(hot.live.is_none());
    assert!(hot.flushing.is_empty());
    let (live, keys) = hot.live_blocks();
    assert_eq!(live, Some(BlockNumber(1)));
    assert!(keys.is_empty());
}

#[test]
fn helper_arithmetic() {
    let s = series_i32();
    assert_eq!(get_block_id(&s, 25_999), 2);
    assert_eq!(get_block_start_as_offset(&s, 3), 30_000);
    assert_eq!(get_sample_offset(&s, 4_500), 4);
    assert_eq!(get_block_length(&s), 10);
    assert_eq!(duration(TimeResolution::Hour, 2), 7_200_000);
}

#[test]
fn derived_block_sizes() {
    let (l, r) = derive_block_size(StorageType::Int32, TimeResolution::Second, SampleLength(1));
    assert_eq!((l.0, r), (30, TimeResolution::Minute));
    let (l, r) = derive_block_size(StorageType::Int32, TimeResolution::Millisecond, SampleLength(1));
    assert_eq!((l.0, r), (1, TimeResolution::Second));
    let (l, r) = derive_block_size(StorageType::Int32, TimeResolution::Hour, SampleLength(2));
    assert_eq!((l.0, r), (2048, TimeResolution::Hour));
    let b = TimeDuration::find_bucket(90, TimeResolution::Minute);
    assert_eq!((b.len, b.res), (2, TimeResolution::Hour));
}

#[test]
fn partitions_follow_block_boundaries() {
    let s = series_i32();
    let p = partition_by_block(&s, &[0, 9_999, 10_000, 10_001, 35_000]);
    let got: Vec<(u64, usize, usize)> = p.iter().map(|x| (x.block.0, x.start, x.end)).collect();
    assert_eq!(got, vec![(0, 0, 2), (1, 2, 4), (3, 4, 5)]);
}

#[test]
fn hot_result_decisions() {
    let (a, n) = on_hot_result(WriteResult::Busy, 0);
    assert!(matches!(a, ChunkAction::Retry));
    assert_eq!(n, 1);
    let (a, n) = on_hot_result(WriteResult::Busy, 2);
    assert!(matches!(a, ChunkAction::Fail(ApiError::ResourceLocked)));
    assert_eq!(n, 3);
    let (a, _) = on_hot_result(WriteResult::NeedsColdStore, 0);
    assert!(matches!(a, ChunkAction::WriteCold));
    let (a, _) = on_hot_result(WriteResult::Applied { live: BlockNumber(1), flushing: vec![BlockNumber(0)] }, 0);
    assert!(matches!(a, ChunkAction::Flush(ref v) if v == &vec![BlockNumber(0)]));
    let (a, _) = on_hot_result(WriteResult::Applied { live: BlockNumber(1), flushing: vec![] }, 1);
    assert!(matches!(a, ChunkAction::Done));
}

#[test]
fn batch_validation() {
    let mk = |ts: Vec<u64>, n: usize| BatchIngest {
        series: SeriesId(1),
        qs: vec![GOOD; ts.len()],
        ts,
        vals: ValueVec { stype: StorageType::Int32, bits: vec![1; n] },
    };
    assert!(matches!(mk(vec![1, 2], 3).validate(), Err(IngestError::LengthMismatch)));
    assert!(matches!(mk(vec![], 0).validate(), Err(IngestError::InvalidTimestamp(_))));
    assert!(mk(vec![1, 1, 2], 3).validate().is_ok());
    let b = mk(vec![1], 1);
    assert!(b.check_type(StorageType::Int32).is_ok());
    assert!(matches!(b.check_type(StorageType::Int64), Err(IngestError::TypeMismatch)));
    assert!(matches!(IngestError::LengthMismatch.to_api_error(), ApiError::BadRequest(_)));
    let wide = BatchIngest { series: SeriesId(1), ts: vec![1], qs: vec![GOOD], vals: ValueVec { stype: StorageType::Enumeration, bits: vec![256] } };
    assert!(wide.check_type(StorageType::Enumeration).is_err());
    assert_eq!(b.vals.len(), 1);
    assert!(!b.vals.is_empty());
}

#[test]
fn series_requests() {
    assert!(validate_series_name("temp_1").is_ok());
    assert!(matches!(validate_series_name("1temp"), Err(ApiError::BadRequest(_))));
    assert!(validate_series_name("").is_err());
    assert!(validate_series_name("a b").is_err());
    let mut c = CreateSeries {
        name: "abc".to_string(),
        storage_type: StorageType::Int32,
        block_length: Some(BlockLength(10)),
        block_resolution: Some(TimeResolution::Second),
        sample_length: SampleLength(1),
        sample_resolution: TimeResolution::Second,
        labels: vec![],
    };
    assert!(c.validate().is_ok());
    c.block_length = Some(BlockLength(1));
    assert!(matches!(c.validate(), Err(ApiError::BadRequest(_))));
    c.block_length = None;
    assert!(c.validate().is_ok());
    let u = UpdateSeries { name: None, labels: None };
    assert!(matches!(u.validate(), Err(ApiError::BadRequest(_))));
    let u = UpdateSeries { name: Some("x-y".to_string()), labels: None };
    assert!(u.validate().is_err());
    let u = UpdateSeries { name: None, labels: Some(vec![]) };
    assert!(u.validate().is_ok());
}

#[test]
fn catalog_errors_map_to_client_errors() {
    match into_api_error(MetaStoreError::Duplicate(SeriesId(12))) {
        ApiError::Conflict(m) => assert_eq!(m, "series 12 already exists."),
        _ => panic!(),
    }
    match into_api_error(MetaStoreError::NotFound(SeriesId(3))) {
        ApiError::NotFound(m) => assert_eq!(m, "series 3 not found"),
        _ => panic!(),
    }
    assert!(matches!(into_api_error(MetaStoreError::Unknown("x".to_string())), ApiError::Internal));
}

#[test]
fn names_and_keys() {
    assert_eq!(decimal(0), "0");
    assert_eq!(decimal(18_446_744_073_709_551_615), "18446744073709551615");
    assert_eq!(decimal_padded(7, 3), "007");
    assert_eq!(decimal_padded(12345, 3), "12345");
    assert_eq!(wal_file_name(7), "wal_007.log");
    assert_eq!(wal_file_name(1234), "wal_1234.log");
    assert_eq!(object_key(SeriesId(1234), BlockNumber(56), "TOKEN"), "data/34/1234/56_TOKEN.blk");
    let k = new_object_key(SeriesId(5), BlockNumber(1));
    assert_eq!(k.len(), "data/5/5/1_".len() + 26 + 4);
}

#[test]
fn wal_state_rotates_past_limit() {
    let mut st = WalState::new(100, 0);
    assert_eq!(st.open_next_log(), 0);
    assert!(!st.record_append(60));
    assert!(!st.record_append(40));
    assert!(st.record_append(1));
    assert_eq!(st.open_next_log(), 1);
    assert_eq!(st.current_size, 0);
    let mut c = TxCounter::new();
    assert_eq!(next_txid(&mut c), 0);
    assert_eq!(next_txid(&mut c), 1);
}

#[test]
fn sum_blob_round_trip() {
    for (st, a, n) in [
        (StorageType::Int32, Accum::Signed(-3), 8),
        (StorageType::Int64, Accum::Signed(i128::MIN), 16),
        (StorageType::UInt64, Accum::Unsigned(u128::MAX), 16),
        (StorageType::Float64, Accum::Float(0x4000_0000_0000_0000), 8),
    ] {
        let blob = sum_to_blob(st, a);
        assert_eq!(blob.len(), n);
        assert_eq!(sum_from_blob(st, &blob).unwrap(), a);
    }
    assert_eq!(sum_to_blob(StorageType::Int32, Accum::Signed(-1)), vec![0xff; 8]);
    assert!(sum_from_blob(StorageType::Int32, &[0; 16]).is_err());
}

#[test]
fn quality_majors() {
    assert!(GOOD.is_good() && !GOOD.is_missing());
    assert!(BAD.is_bad());
    assert!(UNCERTAIN.is_uncertain() && UNCERTAIN.is_valid());
    assert!(MISSING.is_missing() && !MISSING.is_valid());
    assert_eq!(Quality::default(), GOOD);
    assert_eq!(Quality::missing(), MISSING);
}
