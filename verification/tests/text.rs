use task_maker_exec::check_dag::DagError;
use task_maker_exec::store::{assemble, key_of, FileStore};
use task_maker_exec::text::write_decimal;

#[test]
fn decimal_is_written_as_std_writes_it() {
    for n in [0u128, 1, 9, 10, 11, 99, 100, 12345, u64::MAX as u128, u128::MAX] {
        assert_eq!(write_decimal(n), n.to_string());
    }
}

#[test]
fn errors_have_messages() {
    assert_eq!(
        DagError::MissingDependency { execution: 3, file: 12 }.message(),
        "missing dependency: file 12, needed by execution 3, has no source"
    );
    assert_eq!(
        DagError::DuplicateProducer { file: 5 }.message(),
        "duplicate producer: file 5 has more than one source"
    );
    assert_eq!(
        DagError::DependencyCycle.message(),
        "dependency cycle: some executions wait for each other"
    );
    assert_eq!(
        DagError::UnknownCallbackTarget { uuid: 8 }.message(),
        "unknown callback target: 8 is not in the graph"
    );
}

#[test]
fn digest_is_blake2s() {
    // The digest of "hello world", as the documentation of the hash gives it.
    let key = key_of(&b"hello world".to_vec());
    assert_eq!(key.hi, 0x9aec6806794561107e594b1f6a8a6b0c);
    assert_eq!(key.lo, 0x92a0cba9acf5e5e93cca06f781813b0b);
    assert_ne!(key_of(&b"hello".to_vec()), key);
}

#[test]
fn store_keeps_contents_under_their_digest() {
    let mut store = FileStore::new();
    let key = key_of(&b"abc".to_vec());
    assert!(!store.contains(key));
    assert_eq!(store.get(key), None);
    assert_eq!(store.insert(b"abc".to_vec()), key);
    assert!(store.contains(key));
    assert_eq!(store.get(key), Some(&b"abc".to_vec()));
    let other = store.insert(b"abd".to_vec());
    assert_ne!(other, key);
    assert_eq!(store.insert(b"abc".to_vec()), key);
    assert_eq!(store.get(key), Some(&b"abc".to_vec()));
    assert_eq!(store.get(other), Some(&b"abd".to_vec()));
}

#[test]
fn chunks_are_put_together() {
    assert_eq!(assemble(&vec![]), Vec::<u8>::new());
    assert_eq!(assemble(&vec![vec![1, 2], vec![], vec![3]]), vec![1, 2, 3]);
}

#[test]
fn the_store_lists_its_keys() {
    let mut store = FileStore::new();
    assert!(store.keys().is_empty());
    let a = store.insert(b"a".to_vec());
    let b = store.insert(b"b".to_vec());
    store.insert(b"a".to_vec());
    assert_eq!(store.keys(), vec![a, b]);
}
