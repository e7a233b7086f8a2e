use vodnik::block::{SizedBlock, WriteBatch};
use vodnik::crud::CreateSeries;
use vodnik::hot::{HotData, WriteResult};
use vodnik::meta::{
    BlockLength, BlockNumber, NonEmptySlice, Quality, SampleLength, SeriesId, SeriesMeta,
    StorageType, TimeResolution,
};
use vodnik::persistence::write_cold;
use vodnik::text::{bin_grouped, quality_bits};
use vodnik::wal::{from_write_batch, RecoveryScan, TxId, WalEntry, WalFrame};

const GOOD: Quality = Quality(0xC0);

fn series() -> SeriesMeta {
    SeriesMeta {
        id: SeriesId(3),
        name: "t".to_string(),
        storage_type: StorageType::UInt32,
        block_length: BlockLength(1),
        block_resolution: TimeResolution::Minute,
        sample_length: SampleLength(15),
        sample_resolution: TimeResolution::Second,
        first_block: BlockNumber(0),
        last_block: BlockNumber(0),
        labels: vec![],
    }
}

fn frame_of(e: &WalEntry) -> WalFrame {
    let mut p = Vec::new();
    e.write(4, &mut p).unwrap();
    WalFrame::new(p)
}

#[test]
fn quality_bit_strings() {
    assert_eq!(quality_bits(0xC0), "11_0000_00");
    assert_eq!(quality_bits(0b01_1010_11), "01_1010_11");
    assert_eq!(bin_grouped(5, 8), "00000000_00000000_00000000_00000101");
    assert_eq!(bin_grouped(u32::MAX, 5), "11111_11111_11111_11111_11111_11111_11");
    assert_eq!(bin_grouped(1, 32), "00000000000000000000000000000001");
}

#[test]
fn create_request_to_descriptor() {
    let c = CreateSeries {
        name: "abc".to_string(),
        storage_type: StorageType::Float64,
        block_length: None,
        block_resolution: None,
        sample_length: SampleLength(1),
        sample_resolution: TimeResolution::Second,
        labels: vec![],
    };
    let m = c.to_meta(SeriesId(9));
    assert_eq!(m.id, SeriesId(9));
    assert_eq!(m.block_length, BlockLength(30));
    assert_eq!(m.block_resolution, TimeResolution::Minute);
    assert!(m.check());
    let c2 = CreateSeries { block_length: Some(BlockLength(2)), block_resolution: Some(TimeResolution::Hour), ..c };
    let m2 = c2.to_meta(SeriesId(9));
    assert_eq!((m2.block_length, m2.block_resolution), (BlockLength(2), TimeResolution::Hour));
}

#[test]
fn descriptor_checks() {
    let mut s = series();
    assert!(s.check());
    s.sample_length = SampleLength(7);
    assert!(!s.check());
    s.sample_length = SampleLength(60);
    assert!(!s.check());
    s.sample_length = SampleLength(15);
    s.id = SeriesId(0);
    assert!(!s.check());
}

#[test]
fn batch_record_and_count() {
    let s = series();
    let ts = [60_000u64, 75_000];
    let vals = [4u64, 5];
    let qs = [GOOD, Quality(0x40)];
    let b = WriteBatch::new(&s, BlockNumber(1), &ts, &vals, &qs, TxId(8));
    assert!(b.check());
    match from_write_batch(&b) {
        WalEntry::Write { block, ts, vals, qs, tx, series } => {
            assert_eq!(block, BlockNumber(1));
            assert_eq!(ts, vec![60_000, 75_000]);
            assert_eq!(vals, vec![4, 5]);
            assert_eq!(qs, vec![GOOD, Quality(0x40)]);
            assert_eq!(tx, TxId(8));
            assert_eq!(series, SeriesId(3));
        }
        _ => panic!(),
    }
    let outside = [10u64];
    let b2 = WriteBatch::new(&s, BlockNumber(1), &outside, &vals[..1], &qs[..1], TxId(1));
    assert!(!b2.check());
    let cold = write_cold(None, &b).unwrap();
    assert_eq!(cold.get_count_written(), 2);
    assert_eq!(cold.vals, vec![4, 5, 0, 0]);
}

#[test]
fn cold_replay_is_idempotent() {
    let s = series();
    let ts = [60_000u64, 75_000, 75_000];
    let vals = [4u64, 5, 6];
    let qs = [GOOD, GOOD, GOOD];
    let b = WriteBatch::new(&s, BlockNumber(1), &ts, &vals, &qs, TxId(8));
    let once = write_cold(None, &b).unwrap();
    let twice = write_cold(Some(write_cold(None, &b).unwrap()), &b).unwrap();
    assert_eq!(once.vals, twice.vals);
    assert_eq!(once.qs, twice.qs);
    assert_eq!(once.meta.sum, twice.meta.sum);
    assert_eq!(once.vals[1], 6);
}

#[test]
fn cold_rejects_mismatched_block() {
    let s = series();
    let ts = [60_000u64];
    let b = WriteBatch::new(&s, BlockNumber(1), &ts, &[1], &[GOOD], TxId(1));
    assert!(write_cold(Some(SizedBlock::new(StorageType::Int32, 4)), &b).is_err());
    assert!(write_cold(Some(SizedBlock::new(StorageType::UInt32, 5)), &b).is_err());
}

#[test]
fn flush_only_clears_its_own_write() {
    let w = |tx: u64| WalEntry::Write { block: BlockNumber(0), qs: vec![GOOD], series: SeriesId(3), ts: vec![0], tx: TxId(tx), vals: vec![1] };
    let f = |tx: u64| WalEntry::Flush { tx: TxId(tx), series: SeriesId(3), block: BlockNumber(0) };
    let mut scan = RecoveryScan::new();
    for e in [w(5), w(2), f(9), w(7), f(5)] {
        scan.add_frame(frame_of(&e)).unwrap();
    }
    let txs: Vec<u64> = scan.pending.iter().map(|(t, _)| t.0).collect();
    assert_eq!(txs, vec![2, 7]);
    assert!(scan.add_frame(WalFrame::new(vec![1, 2, 3])).is_err());
    assert_eq!(scan.pending.len(), 2);
}

#[test]
fn rotation_replaces_same_flushing_block() {
    let s = series();
    let mut hot2 = HotData::new();
    let ts = [120_000u64];
    let b = WriteBatch::new(&s, BlockNumber(2), &ts, &[1], &[GOOD], TxId(1));
    hot2.write_into_block(&b);
    let _ = hot2.take_all();
    let b = WriteBatch::new(&s, BlockNumber(2), &ts, &[1], &[GOOD], TxId(4));
    hot2.write_into_block(&b);
    let ts3 = [180_000u64];
    let b3 = WriteBatch::new(&s, BlockNumber(3), &ts3, &[1], &[GOOD], TxId(5));
    match hot2.write_into_block(&b3) {
        WriteResult::Applied { flushing, .. } => assert_eq!(flushing, vec![BlockNumber(2)]),
        _ => panic!(),
    }
    assert_eq!(hot2.flushing.len(), 1);
    assert_eq!(hot2.flushing[0].tx, TxId(4));
}

#[test]
fn non_empty_slices() {
    let v = [1, 2];
    let s = NonEmptySlice::new(&v[..]).unwrap();
    assert_eq!(s.as_slice(), &[1, 2]);
    let e: [u8; 0] = [];
    assert!(NonEmptySlice::new(&e[..]).is_none());
}
