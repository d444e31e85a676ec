use cxdb::fs_store::{FsRootsIndex, TurnStore, RECORD_LEN};

fn reopen(log: &[u8]) -> FsRootsIndex {
    let (index, keep) = FsRootsIndex::load(log);
    assert_eq!(keep, log.len());
    index
}

#[test]
fn test_fs_roots_index() {
    let mut log: Vec<u8> = Vec::new();
    let mut index = reopen(&log);

    // Initially empty
    assert!(index.get(1).is_none());

    // Attach
    let hash = [0xabu8; 32];
    log.extend_from_slice(&FsRootsIndex::encode_record(1, &hash));
    index.attach(1, hash);

    // Should be retrievable
    assert_eq!(index.get(1), Some(hash));

    // Reopen and verify persistence
    drop(index);
    let index2 = reopen(&log);
    assert_eq!(index2.get(1), Some(hash));
}

#[test]
fn test_fs_roots_overwrite() {
    let mut index = FsRootsIndex::new();

    let hash1 = [0x11u8; 32];
    let hash2 = [0x22u8; 32];

    index.attach(1, hash1);
    index.attach(1, hash2);

    // Last write wins
    assert_eq!(index.get(1), Some(hash2));
}

#[test]
fn record_layout_and_checksum() {
    let rec = FsRootsIndex::encode_record(0x0102030405060708, &[0x5au8; 32]);
    assert_eq!(rec.len(), RECORD_LEN);
    assert_eq!(&rec[..8], &[8, 7, 6, 5, 4, 3, 2, 1]);
    assert_eq!(&rec[8..40], &[0x5au8; 32]);
    let crc = crc32fast::hash(&rec[..40]);
    assert_eq!(&rec[40..], &crc.to_le_bytes());
    assert_ne!(crc, 0);
}

#[test]
fn reopen_keeps_last_record_per_turn() {
    let mut log = Vec::new();
    log.extend_from_slice(&FsRootsIndex::encode_record(1, &[1u8; 32]));
    log.extend_from_slice(&FsRootsIndex::encode_record(2, &[2u8; 32]));
    log.extend_from_slice(&FsRootsIndex::encode_record(1, &[3u8; 32]));
    let index = reopen(&log);
    assert_eq!(index.get(1), Some([3u8; 32]));
    assert_eq!(index.get(2), Some([2u8; 32]));
    assert_eq!(index.stats(log.len() as u64).entries_total, 2);
}

#[test]
fn corrupted_tail_is_cut_off() {
    let mut log = Vec::new();
    log.extend_from_slice(&FsRootsIndex::encode_record(1, &[1u8; 32]));
    log.extend_from_slice(&FsRootsIndex::encode_record(2, &[2u8; 32]));
    let good = log.len();

    let mut bad = log.clone();
    let mut rec = FsRootsIndex::encode_record(3, &[3u8; 32]);
    rec[20] ^= 0xff;
    bad.extend_from_slice(&rec);
    bad.extend_from_slice(&FsRootsIndex::encode_record(4, &[4u8; 32]));
    let (index, keep) = FsRootsIndex::load(&bad);
    assert_eq!(keep, good);
    assert_eq!(index.get(1), Some([1u8; 32]));
    assert_eq!(index.get(2), Some([2u8; 32]));
    assert!(index.get(3).is_none());
    assert!(index.get(4).is_none());

    let mut short = log.clone();
    short.extend_from_slice(&[9u8; 5]);
    let (index, keep) = FsRootsIndex::load(&short);
    assert_eq!(keep, good);
    assert_eq!(index.get(2), Some([2u8; 32]));
}

#[test]
fn attach_then_inherit() {
    let mut index = FsRootsIndex::new();
    let h = [0x48u8; 32];
    index.attach(5, h);
    let mut turns = TurnStore::new();
    turns.insert(5, 0);
    turns.insert(7, 5);
    turns.insert(9, 8);
    turns.insert(8, 0);
    assert_eq!(index.get_inherited(7, &turns), Some(h));
    assert!(index.has_snapshot(7, &turns));
    assert_eq!(index.get_inherited(9, &turns), None);
    assert!(!index.has_snapshot(9, &turns));
    assert_eq!(index.get_inherited(5, &turns), Some(h));
    assert_eq!(index.get_inherited(42, &turns), None);
}

#[test]
fn inheritance_walks_several_generations_and_prefers_nearest() {
    let mut index = FsRootsIndex::new();
    index.attach(1, [1u8; 32]);
    index.attach(3, [3u8; 32]);
    let mut turns = TurnStore::new();
    turns.insert(1, 0);
    turns.insert(2, 1);
    turns.insert(3, 2);
    turns.insert(4, 3);
    turns.insert(5, 4);
    assert_eq!(index.get_inherited(5, &turns), Some([3u8; 32]));
    assert_eq!(index.get_inherited(2, &turns), Some([1u8; 32]));
}

#[test]
fn cyclic_parents_end_without_a_root() {
    let index = FsRootsIndex::new();
    let mut turns = TurnStore::new();
    turns.insert(1, 2);
    turns.insert(2, 1);
    assert_eq!(index.get_inherited(1, &turns), None);
}

#[test]
fn stats_report_entries_and_file_size() {
    let mut index = FsRootsIndex::new();
    index.attach(1, [1u8; 32]);
    index.attach(2, [1u8; 32]);
    let s = index.stats(88);
    assert_eq!((s.entries_total, s.file_bytes, s.content_bytes), (2, 88, 0));
}

#[test]
fn unique_roots_lists_each_root_once() {
    let mut index = FsRootsIndex::new();
    index.attach(1, [1u8; 32]);
    index.attach(2, [2u8; 32]);
    index.attach(3, [1u8; 32]);
    index.attach(2, [4u8; 32]);
    let mut roots = index.unique_roots();
    roots.sort();
    assert_eq!(roots, vec![[1u8; 32], [4u8; 32]]);
    assert!(FsRootsIndex::new().unique_roots().is_empty());
}
