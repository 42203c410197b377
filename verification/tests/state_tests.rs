use zkstate::{Context, StateStore, TransitionBuilder, get_balance, set_balance, transfer};

#[test]
fn test_state_store_basic() {
    let mut store = StateStore::in_memory().unwrap();

    store.insert_raw(b"key1", b"value1".to_vec()).unwrap();
    store.insert_raw(b"key2", b"value2".to_vec()).unwrap();

    assert_eq!(store.get_raw(b"key1").unwrap(), Some(b"value1".to_vec()));
    assert_eq!(store.get_raw(b"key2").unwrap(), Some(b"value2".to_vec()));
    assert_eq!(store.get_raw(b"key3").unwrap(), None);
}

#[test]
fn test_state_store_with_proof() {
    let mut store = StateStore::in_memory().unwrap();

    store.insert_raw(b"key", b"value".to_vec()).unwrap();
    let root = store.root();

    let (value, proof) = store.get_with_proof(b"key").unwrap();
    assert_eq!(value, Some(b"value".to_vec()));
    assert!(proof.verify(&root));
}

#[test]
fn test_state_store_batch() {
    let mut store = StateStore::in_memory().unwrap();

    let ops = TransitionBuilder::new()
        .insert(b"key1".to_vec(), b"value1".to_vec())
        .insert(b"key2".to_vec(), b"value2".to_vec())
        .build();

    let witnesses = store.apply_batch(ops).unwrap();
    assert_eq!(witnesses.len(), 2);

    assert_eq!(store.get_raw(b"key1").unwrap(), Some(b"value1".to_vec()));
    assert_eq!(store.get_raw(b"key2").unwrap(), Some(b"value2".to_vec()));
}

#[test]
fn test_state_store_batch_witness_chain() {
    let mut store = StateStore::in_memory().unwrap();
    let root0 = store.root();

    let ops = TransitionBuilder::new()
        .insert(b"a".to_vec(), b"1".to_vec())
        .insert(b"b".to_vec(), b"2".to_vec())
        .delete(b"a".to_vec())
        .build();

    let witnesses = store.apply_batch(ops).unwrap();
    let root3 = store.root();

    let chained = zkstate::verify_witnesses(root0, &witnesses).unwrap();
    assert_eq!(chained, root3);
}

#[test]
fn test_state_store_commit() {
    let mut store = StateStore::in_memory().unwrap();
    assert_eq!(store.transition_index(), 0);

    store.insert_raw(b"key", b"value".to_vec()).unwrap();
    let root = store.root();
    let committed = store.commit().unwrap();
    assert_eq!(committed, root);
    assert_eq!(store.transition_index(), 1);
}

#[test]
fn test_context_basic_operations() {
    let store = StateStore::in_memory().unwrap();
    let mut ctx = Context::new(store);

    ctx.set_raw(b"key1", b"value1".to_vec()).unwrap();
    assert_eq!(ctx.get_raw(b"key1").unwrap(), Some(b"value1".to_vec()));

    ctx.delete(b"key1").unwrap();
    assert_eq!(ctx.get_raw(b"key1").unwrap(), None);
}

#[test]
fn test_context_typed_values() {
    let store = StateStore::in_memory().unwrap();
    let mut ctx = Context::new(store);

    ctx.set_u64(b"number", 42).unwrap();
    let loaded: u64 = ctx.get_u64(b"number").unwrap().unwrap();
    assert_eq!(loaded, 42);
}

#[test]
fn test_accounts_transfer() {
    let store = StateStore::in_memory().unwrap();
    let mut ctx = Context::new(store);

    set_balance(&mut ctx, "alice", 100).unwrap();
    set_balance(&mut ctx, "bob", 50).unwrap();

    transfer(&mut ctx, "alice", "bob", 30).unwrap();

    assert_eq!(get_balance(&ctx, "alice").unwrap(), 70);
    assert_eq!(get_balance(&ctx, "bob").unwrap(), 80);
}

#[test]
fn test_accounts_insufficient_balance() {
    let store = StateStore::in_memory().unwrap();
    let mut ctx = Context::new(store);

    set_balance(&mut ctx, "alice", 10).unwrap();

    let result = transfer(&mut ctx, "alice", "bob", 20);
    assert!(result.is_err());

    // A rejected transfer changes no balance.
    assert_eq!(get_balance(&ctx, "alice").unwrap(), 10);
    assert_eq!(get_balance(&ctx, "bob").unwrap(), 0);
}

#[test]
fn test_accounts_nonce() {
    let store = StateStore::in_memory().unwrap();
    let mut ctx = Context::new(store);

    assert_eq!(zkstate::get_nonce(&ctx, "alice").unwrap(), 0);
    assert_eq!(zkstate::increment_nonce(&mut ctx, "alice").unwrap(), 1);
    assert_eq!(zkstate::increment_nonce(&mut ctx, "alice").unwrap(), 2);
    assert_eq!(zkstate::get_nonce(&ctx, "alice").unwrap(), 2);
}

#[test]
fn test_witnesses_collected() {
    let store = StateStore::in_memory().unwrap();
    let mut ctx = Context::new(store);

    ctx.set_raw(b"key1", b"value1".to_vec()).unwrap();
    ctx.set_raw(b"key2", b"value2".to_vec()).unwrap();

    assert_eq!(ctx.witnesses().len(), 2);
}

#[test]
fn test_key_helpers() {
    assert_eq!(zkstate::balance_key("alice"), b"balance:alice".to_vec());
    assert_eq!(zkstate::nonce_key("alice"), b"nonce:alice".to_vec());
    let builder = zkstate::KeyBuilder::new(b"account".to_vec());
    assert_eq!(builder.key(b"bob"), b"account:bob".to_vec());
}

#[test]
fn test_get_u64_rejects_short_value() {
    let store = StateStore::in_memory().unwrap();
    let mut ctx = Context::new(store);
    ctx.set_raw(b"number", vec![1, 2]).unwrap();
    assert!(ctx.get_u64(b"number").is_err());
}

#[test]
fn test_scan_prefix() {
    let mut store = StateStore::in_memory().unwrap();
    store.insert_raw(b"balance:alice", b"1".to_vec()).unwrap();
    store.insert_raw(b"balance:bob", b"2".to_vec()).unwrap();
    store.insert_raw(b"nonce:alice", b"3".to_vec()).unwrap();

    let mut pairs = store.scan_prefix(b"balance:").unwrap();
    pairs.sort();
    assert_eq!(
        pairs,
        vec![
            (b"balance:alice".to_vec(), b"1".to_vec()),
            (b"balance:bob".to_vec(), b"2".to_vec()),
        ]
    );
    assert_eq!(store.scan_prefix(b"missing:").unwrap(), vec![]);
}
