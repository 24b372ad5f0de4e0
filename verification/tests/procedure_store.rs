use rspc_router::procedure_store::{ProcedureStore, StoreError};

#[test]
fn new_store_is_empty() {
    let store: ProcedureStore<u32> = ProcedureStore::new("query");
    assert_eq!(store.len(), 0);
    assert_eq!(store.kind(), "query");
    assert!(!store.contains_key(&"a".to_string()));
    assert!(store.get(&"a".to_string()).is_none());
}

#[test]
fn append_then_get() {
    let mut store: ProcedureStore<u32> = ProcedureStore::new("mutation");
    assert!(store.append("a".to_string(), 1).is_ok());
    assert!(store.append("b".to_string(), 2).is_ok());
    assert_eq!(store.len(), 2);
    assert_eq!(store.get(&"a".to_string()), Some(&1));
    assert_eq!(store.get(&"b".to_string()), Some(&2));
    assert!(store.contains_key(&"b".to_string()));
    assert!(!store.contains_key(&"c".to_string()));
}

#[test]
fn duplicate_key_is_refused() {
    let mut store: ProcedureStore<u32> = ProcedureStore::new("query");
    assert!(store.append("a".to_string(), 1).is_ok());
    match store.append("a".to_string(), 7) {
        Err(StoreError::DuplicateKey(k)) => assert_eq!(k, "a"),
        Ok(()) => panic!("duplicate accepted"),
    }
    assert_eq!(store.len(), 1);
    assert_eq!(store.get(&"a".to_string()), Some(&1));
}

#[test]
fn entries_come_out_whole() {
    let mut store: ProcedureStore<u32> = ProcedureStore::new("query");
    store.append("x".to_string(), 10).unwrap();
    store.append("y".to_string(), 20).unwrap();
    let mut entries = store.into_entries();
    entries.sort();
    assert_eq!(entries, vec![("x".to_string(), 10), ("y".to_string(), 20)]);
}
