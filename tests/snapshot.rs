use cxdb::blobs::BlobStore;
use rmpv::Value;
use cxdb::decode::decode_tree;
use cxdb::options::Options;
use cxdb::paths::{get_file_at_path, load_tree_entries, resolve_path, StoreError};
use cxdb::snapshot::{deserialize_tree, Builder, FstreeErrorKind};
use cxdb::tree::{encode_tree, EntryKind, TreeEntry, KIND_DIRECTORY, KIND_FILE};

fn digest(data: &[u8]) -> [u8; 32] {
    *blake3::hash(data).as_bytes()
}

/// Builds root/{a.txt "hello", b/{c.txt "world"}} with the entries of each
/// directory reported in the given order.
fn build(reverse: bool) -> (cxdb::snapshot::Snapshot, BlobStore) {
    let mut b = Builder::new(Options::default());
    b.enter_dir("/r".to_string()).unwrap();
    b.enter_dir("/r/b".to_string()).unwrap();
    let c = b
        .add_file("c.txt".into(), 0o100644, "/r/b/c.txt".into(), 5, digest(b"world"))
        .unwrap();
    let b_hash = b.finish_dir(vec![c]).unwrap();
    b.leave_dir();
    let a = b
        .add_file("a.txt".into(), 0o100644, "/r/a.txt".into(), 5, digest(b"hello"))
        .unwrap();
    let d = Builder::dir_entry("b".into(), 0o40755, b_hash);
    let entries = if reverse { vec![d, a] } else { vec![a, d] };
    let root = b.finish_dir(entries).unwrap();
    b.leave_dir();
    let snap = b.into_snapshot(root, 0, 0);

    let mut store = BlobStore::new();
    for i in 0..snap.trees.len() {
        let (_, bytes) = snap.trees.entry_at(i);
        store.put(bytes.clone());
    }
    store.put(b"hello".to_vec());
    store.put(b"world".to_vec());
    (snap, store)
}

#[test]
fn snapshot_is_deterministic() {
    let (s1, _) = build(false);
    let (s2, _) = build(true);
    assert_eq!(s1.root_hash, s2.root_hash);
    assert_eq!(s1.trees.len(), 2);
    assert_eq!(s2.trees.len(), 2);
    for i in 0..2 {
        let (h, bytes) = s1.trees.entry_at(i);
        assert_eq!(s2.trees.get(h), Some(bytes));
    }
    assert_eq!(s1.files.len(), 2);
    assert!(s1.files.contains_key(&digest(b"hello")));
    assert!(s2.files.contains_key(&digest(b"world")));
    assert_eq!(s1.stats.file_count, 2);
    assert_eq!(s1.stats.dir_count, 2);
    assert_eq!(s1.stats.total_bytes, 10);

    let root_bytes = s1.trees.get(&s1.root_hash).unwrap();
    let entries = deserialize_tree(root_bytes).unwrap();
    let names: Vec<&str> = entries.iter().map(|e| e.name.as_str()).collect();
    assert_eq!(names, vec!["a.txt", "b"]);
    assert_eq!(entries[0].kind, KIND_FILE);
    assert_eq!(entries[0].mode, 0o644);
    assert_eq!(entries[0].size, 5);
    assert_eq!(entries[0].hash, digest(b"hello").to_vec());
    assert_eq!(entries[1].kind, KIND_DIRECTORY);
    assert_eq!(entries[1].mode, 0o755);
    assert_eq!(entries[1].size, 0);
    assert_eq!(digest(root_bytes), s1.root_hash);
}

#[test]
fn path_resolution() {
    let (snap, store) = build(false);
    let r = snap.root_hash;
    let (content, entry) = get_file_at_path(&store, &r, "b/c.txt").unwrap();
    assert_eq!(content, b"world");
    assert_eq!(entry.name, "c.txt");
    assert_eq!(entry.kind_enum(), EntryKind::File);
    assert!(matches!(get_file_at_path(&store, &r, "b/missing"), Err(StoreError::NotFound(_))));
    match get_file_at_path(&store, &r, "a.txt/x") {
        Err(StoreError::InvalidInput(m)) => assert_eq!(m, "not a directory: a.txt"),
        other => panic!("unexpected {other:?}"),
    }
    match get_file_at_path(&store, &r, "b") {
        Err(StoreError::InvalidInput(m)) => assert_eq!(m, "path is a directory: b"),
        other => panic!("unexpected {other:?}"),
    }
    match get_file_at_path(&store, &r, "b/missing") {
        Err(StoreError::NotFound(m)) => assert_eq!(m, "path component not found: missing"),
        other => panic!("unexpected {other:?}"),
    }
    match get_file_at_path(&store, &r, "") {
        Err(StoreError::InvalidInput(m)) => assert_eq!(m, "path is a directory: "),
        other => panic!("unexpected {other:?}"),
    }
    assert!(matches!(get_file_at_path(&store, &r, "/./"), Err(StoreError::InvalidInput(_))));
    let (c2, _) = get_file_at_path(&store, &r, "/./b//c.txt/").unwrap();
    assert_eq!(c2, b"world");

    assert_eq!(resolve_path(&store, &r, "").unwrap(), (r, true));
    assert_eq!(resolve_path(&store, &r, "/").unwrap(), (r, true));
    let (bh, is_dir) = resolve_path(&store, &r, "b").unwrap();
    assert!(is_dir);
    assert_eq!(load_tree_entries(&store, &bh).unwrap()[0].name, "c.txt");
    assert_eq!(resolve_path(&store, &r, "a.txt").unwrap(), (digest(b"hello"), false));
    assert!(matches!(resolve_path(&store, &r, "zzz"), Err(StoreError::NotFound(_))));
    assert!(matches!(resolve_path(&store, &[0u8; 32], "a"), Err(StoreError::NotFound(_))));
}

#[test]
fn corrupt_tree_is_reported() {
    let mut store = BlobStore::new();
    let (h, _) = store.put(vec![0xc1, 0x00]);
    let mut key = [0u8; 32];
    key.copy_from_slice(&h);
    assert!(matches!(resolve_path(&store, &key, "x"), Err(StoreError::Corrupt(_))));
    assert!(matches!(load_tree_entries(&store, &h), Err(StoreError::Corrupt(_))));
    assert!(deserialize_tree(&[0x91, 0x01]).is_err());
    assert_eq!(deserialize_tree(&[0x91, 0x01]).unwrap_err().kind, FstreeErrorKind::Msgpack);
}

#[test]
fn symlink_entry_hashes_target() {
    let mut b = Builder::new(Options::default());
    let e = b.add_symlink("l".into(), 0o120777, "../target".into());
    assert_eq!(e.kind, 2);
    assert_eq!(e.size, 9);
    assert_eq!(e.mode, 0o777);
    assert_eq!(e.hash, digest(b"../target").to_vec());
    assert_eq!(b.symlink_count, 1);
    assert_eq!(b.symlinks.get(&digest(b"../target")).map(|s| s.as_str()), Some("../target"));
}

#[test]
fn limits_are_enforced() {
    let mut opts = Options::default();
    opts.max_files = 1;
    opts.max_file_size = 10;
    let mut b = Builder::new(opts);
    let err = b.add_file("big".into(), 0o644, "/big".into(), 11, [1u8; 32]).unwrap_err();
    assert_eq!(err.kind, FstreeErrorKind::FileTooLarge);
    assert!(!err.propagates());
    b.add_file("ok".into(), 0o644, "/ok".into(), 10, [2u8; 32]).unwrap();
    let err = b.add_file("more".into(), 0o644, "/more".into(), 1, [3u8; 32]).unwrap_err();
    assert_eq!(err.kind, FstreeErrorKind::TooManyFiles);
    assert!(err.propagates());
    assert_eq!(b.file_count, 1);
}

#[test]
fn cycles_are_detected() {
    let mut b = Builder::new(Options::default());
    b.enter_dir("/a".into()).unwrap();
    b.enter_dir("/a/b".into()).unwrap();
    let err = b.enter_dir("/a".into()).unwrap_err();
    assert_eq!(err.kind, FstreeErrorKind::CyclicLink);
    assert!(err.propagates());
    b.leave_dir();
    b.enter_dir("/a/c".into()).unwrap();
}

#[test]
fn same_content_is_stored_once() {
    let mut b = Builder::new(Options::default());
    let h = digest(b"same");
    b.add_file("x".into(), 0o644, "/x".into(), 4, h).unwrap();
    b.add_file("y".into(), 0o644, "/y".into(), 4, h).unwrap();
    assert_eq!(b.files.len(), 1);
    assert_eq!(b.files.get(&h).unwrap().path, "/y");
    assert_eq!(b.file_count, 2);
    let t1 = b.finish_dir(vec![]).unwrap();
    let t2 = b.finish_dir(vec![]).unwrap();
    assert_eq!(t1, t2);
    assert_eq!(b.trees.len(), 1);
    assert_eq!(b.dir_count, 2);
}

#[test]
fn blob_store_put_and_get() {
    let mut store = BlobStore::new();
    let (h, new1) = store.put(b"abc".to_vec());
    assert!(new1);
    assert_eq!(h, digest(b"abc").to_vec());
    let (h2, new2) = store.put(b"abc".to_vec());
    assert!(!new2);
    assert_eq!(h, h2);
    assert_eq!(store.get(&h), Some(b"abc".to_vec()));
    assert_eq!(store.get(&[0u8; 32]), None);
    let (hh, _) = store.put(b"hello".to_vec());
    assert_eq!(hh, digest(b"hello").to_vec());
    assert_ne!(hh, b"hello".to_vec());
}

fn entry(name: &str, kind: u8, size: u64) -> TreeEntry {
    TreeEntry { name: name.into(), kind, mode: 0o644, size, hash: vec![7u8; 32] }
}

#[test]
fn tree_encoding_is_exact_msgpack() {
    let bytes = encode_tree(&vec![entry("a", 0, 300)]);
    let mut expected = vec![0x91, 0x85, 0xa1, b'1', 0xa1, b'a', 0xa1, b'2', 0x00, 0xa1, b'3', 0xcd, 0x01, 0xa4, 0xa1, b'4', 0xcd, 0x01, 0x2c, 0xa1, b'5', 0xc4, 32];
    expected.extend_from_slice(&[7u8; 32]);
    assert_eq!(bytes, expected);
    assert_eq!(encode_tree(&vec![]), vec![0x90]);
}

#[test]
fn tree_encoding_decodes_with_rmpv() {
    let bytes = encode_tree(&vec![entry("name", 1, 5), entry("x", 2, 70000)]);
    let v = rmpv::decode::read_value(&mut &bytes[..]).unwrap();
    let arr = v.as_array().unwrap();
    assert_eq!(arr.len(), 2);
    let m = arr[1].as_map().unwrap();
    assert_eq!(m[0].0.as_str(), Some("1"));
    assert_eq!(m[0].1.as_str(), Some("x"));
    assert_eq!(m[3].1.as_u64(), Some(70000));
    assert_eq!(m[4].1.as_slice(), Some(&[7u8; 32][..]));
}

#[test]
fn decoder_accepts_integer_keys_and_other_widths() {
    let entry = Value::Map(vec![
        (Value::from(2), Value::from(1)),
        (Value::from(1), Value::from("dir")),
        (Value::from(9), Value::Array(vec![Value::from(1), Value::Nil, Value::from(-3)])),
        (Value::from("4"), Value::from(1u64 << 40)),
        (Value::from("+3"), Value::from(0o755)),
        (Value::from(5), Value::Binary(vec![1u8; 32])),
        (Value::Boolean(true), Value::from(5)),
    ]);
    let mut buf = Vec::new();
    rmpv::encode::write_value(&mut buf, &Value::Array(vec![entry])).unwrap();
    let es = decode_tree(&buf).unwrap();
    assert_eq!(es.len(), 1);
    assert_eq!(es[0].name, "dir");
    assert_eq!(es[0].kind, 1);
    assert_eq!(es[0].mode, 0o755);
    assert_eq!(es[0].size, 1u64 << 40);
    assert_eq!(es[0].hash, vec![1u8; 32]);
}

#[test]
fn decoder_rejects_non_arrays_and_non_maps() {
    assert!(decode_tree(&[]).is_none());
    assert!(decode_tree(&[0x80]).is_none());
    assert!(decode_tree(&[0x91, 0x01]).is_none());
    assert!(decode_tree(&[0x92, 0x80]).is_none());
    assert_eq!(decode_tree(&[0x91, 0x80]).unwrap()[0].name, "");
}

#[test]
fn hash_array_checks_length() {
    let e = entry("a", 0, 1);
    assert_eq!(e.hash_array().unwrap(), [7u8; 32]);
    let bad = TreeEntry { hash: vec![1, 2, 3], ..entry("b", 0, 1) };
    assert!(matches!(bad.hash_array(), Err(StoreError::Corrupt(_))));
    assert_eq!(entry("c", 1, 0).kind_enum(), EntryKind::Directory);
    assert_eq!(entry("c", 2, 0).kind_enum(), EntryKind::Symlink);
    assert_eq!(entry("c", 9, 0).kind_enum(), EntryKind::File);
}
