use base64::Engine;
use zkstate::{
    Account, AppNode, AppNodeConfig, Namespace, OperationType, SparseMerkleTree, StateOp,
    TransitionBlobV1, VerifiableOperation, VerifyError, decode_blobs, sort_by_sequence,
    sync_transitions, verify_blob, verify_transitions,
};

fn node() -> AppNode {
    let mut config = AppNodeConfig::default();
    config.celestia_enabled = false;
    config.proving_enabled = false;
    AppNode::in_memory(config).unwrap()
}

#[test]
fn test_genesis() {
    let node = node();
    let empty_root = SparseMerkleTree::new().root();
    assert_eq!(node.root(), empty_root);
    assert_eq!(node.transition_index(), 0);
    assert_eq!(node.root_history(), vec![(0u64, empty_root, None)]);
}

#[test]
fn test_single_insert() {
    let mut node = node();
    let empty_root = SparseMerkleTree::new().root();

    let ops = vec![StateOp::insert(b"k".to_vec(), b"v".to_vec())];
    let vops = vec![VerifiableOperation {
        op_type: OperationType::SetValue,
        key: b"k".to_vec(),
        old_value: None,
        new_value: Some(b"v".to_vec()),
        witness_index: 0,
    }];
    let result = node.apply_transition(ops, vec![], vec![], vops, None).unwrap();

    let mut reference = SparseMerkleTree::new();
    reference.insert(b"k", b"v".to_vec());

    assert_eq!(result.sequence, 1);
    assert_eq!(result.prev_root, empty_root);
    assert_eq!(result.new_root, reference.root());
    assert_eq!(node.root(), reference.root());
    assert_eq!(node.transition_index(), 1);

    let (value, proof) = node.get_with_proof(b"k").unwrap();
    assert_eq!(value, Some(b"v".to_vec()));
    assert!(proof.verify(&result.new_root));
}

#[test]
fn test_replay_reject() {
    let mut node = node();
    let empty_root = SparseMerkleTree::new().root();

    let r1 = node
        .apply_transition(
            vec![StateOp::insert(b"k".to_vec(), b"v".to_vec())],
            vec![],
            vec![],
            vec![],
            None,
        )
        .unwrap();

    // The blob claims prev_root = E[0], but the local current root has
    // moved on to R'.
    let local_root = r1.new_root;
    let raw = vec![(5u64, r1.blob.encode().unwrap())];
    let decoded = sort_by_sequence(decode_blobs(&raw).unwrap());
    let outcomes = vec![None];
    let result = verify_transitions(
        &[0u8; 32],
        true,
        &Some(local_root),
        &decoded,
        &outcomes,
    );
    match result {
        Err(VerifyError::RootChainBroken { sequence, expected, actual }) => {
            assert_eq!(sequence, 1);
            assert_eq!(expected, hex::encode(local_root));
            assert_eq!(actual, hex::encode(empty_root));
        }
        other => panic!("expected RootChainBroken, got {:?}", other),
    }
}

#[test]
fn test_transfer_predicate() {
    let mut node = node();

    let alice_old = Account { balance: 1000, nonce: 0 };
    let bob_old = Account { balance: 500, nonce: 0 };
    node.apply_transition(
        vec![
            StateOp::insert(b"alice".to_vec(), alice_old.encode()),
            StateOp::insert(b"bob".to_vec(), bob_old.encode()),
        ],
        vec![],
        vec![],
        vec![],
        None,
    )
    .unwrap();

    let alice_new = Account { balance: 900, nonce: 1 };
    let bob_new = Account { balance: 600, nonce: 0 };
    let ops = vec![
        StateOp::insert(b"alice".to_vec(), alice_new.encode()),
        StateOp::insert(b"bob".to_vec(), bob_new.encode()),
    ];
    let vops = vec![VerifiableOperation {
        op_type: OperationType::Transfer {
            from: b"alice".to_vec(),
            to: b"bob".to_vec(),
            amount: 100,
        },
        key: b"bob".to_vec(),
        old_value: Some(bob_old.encode()),
        new_value: Some(bob_new.encode()),
        witness_index: 0,
    }];
    let result = node.apply_transition(ops.clone(), vec![], vec![], vops, None).unwrap();

    let mut reference = SparseMerkleTree::new();
    reference.insert(b"alice", alice_new.encode());
    reference.insert(b"bob", bob_new.encode());
    assert_eq!(result.new_root, reference.root());

    // Mutating the recipient's new balance in the verifiable operation
    // (but not the witness) makes the predicate false.
    let mut node2 = node_with_accounts(&alice_old, &bob_old);
    let bob_wrong = Account { balance: 601, nonce: 0 };
    let bad_vops = vec![VerifiableOperation {
        op_type: OperationType::Transfer {
            from: b"alice".to_vec(),
            to: b"bob".to_vec(),
            amount: 100,
        },
        key: b"bob".to_vec(),
        old_value: Some(bob_old.encode()),
        new_value: Some(bob_wrong.encode()),
        witness_index: 0,
    }];
    let rejected = node2.apply_transition(ops, vec![], vec![], bad_vops, None);
    assert!(matches!(
        rejected,
        Err(zkstate::NodeError::Guest(zkstate::GuestError::InvalidOperation))
    ));
}

fn node_with_accounts(alice: &Account, bob: &Account) -> AppNode {
    let mut n = node();
    n.apply_transition(
        vec![
            StateOp::insert(b"alice".to_vec(), alice.encode()),
            StateOp::insert(b"bob".to_vec(), bob.encode()),
        ],
        vec![],
        vec![],
        vec![],
        None,
    )
    .unwrap();
    n
}

#[test]
fn test_range_verify() {
    let mut node = node();
    let empty_root = SparseMerkleTree::new().root();

    let mut raw: Vec<(u64, Vec<u8>)> = Vec::new();
    let heights = [10u64, 11, 13];
    let mut last_root = empty_root;
    for (i, h) in heights.iter().enumerate() {
        let key = format!("key{}", i);
        let result = node
            .apply_transition(
                vec![StateOp::insert(key.into_bytes(), b"v".to_vec())],
                vec![],
                vec![],
                vec![],
                None,
            )
            .unwrap();
        last_root = result.new_root;
        raw.push((*h, result.blob.encode().unwrap()));
    }

    let decoded = sort_by_sequence(decode_blobs(&raw).unwrap());
    let outcomes = vec![None, None, None];
    let result = verify_transitions(&[0u8; 32], false, &None, &decoded, &outcomes).unwrap();

    assert_eq!(result.total_transitions, 3);
    assert_eq!(result.first_sequence, 1);
    assert_eq!(result.last_sequence, 3);
    assert_eq!(result.first_root, empty_root);
    assert_eq!(result.latest_root, last_root);
    assert_eq!(result.height_range, (10, 13));
    assert_eq!(result.unverified_transitions, vec![1, 2, 3]);
}

#[test]
fn test_program_hash_mismatch() {
    let mut node = node();
    let r1 = node
        .apply_transition(
            vec![StateOp::insert(b"k".to_vec(), b"v".to_vec())],
            vec![],
            vec![],
            vec![],
            None,
        )
        .unwrap();

    let raw = vec![(1u64, r1.blob.encode().unwrap())];
    let decoded = sort_by_sequence(decode_blobs(&raw).unwrap());
    let result = verify_transitions(&[9u8; 32], true, &None, &decoded, &vec![None]);
    assert!(matches!(
        result,
        Err(VerifyError::ProgramHashMismatch { sequence: 1 })
    ));
}

#[test]
fn test_duplicate_sequence_fatal() {
    let mut node = node();
    let r1 = node
        .apply_transition(
            vec![StateOp::insert(b"k".to_vec(), b"v".to_vec())],
            vec![],
            vec![],
            vec![],
            None,
        )
        .unwrap();

    let bytes = r1.blob.encode().unwrap();
    let raw = vec![(1u64, bytes.clone()), (2u64, bytes)];
    let decoded = sort_by_sequence(decode_blobs(&raw).unwrap());
    let result = verify_transitions(&[0u8; 32], true, &None, &decoded, &vec![None, None]);
    assert!(matches!(
        result,
        Err(VerifyError::ProofInvalid { sequence: 1, .. })
    ));
}

#[test]
fn test_empty_range() {
    let raw: Vec<(u64, Vec<u8>)> = Vec::new();
    let decoded = decode_blobs(&raw).unwrap();
    let result = verify_transitions(&[0u8; 32], true, &None, &decoded, &Vec::new());
    assert!(matches!(result, Err(VerifyError::NoBlobsFound)));
}

#[test]
fn test_decode_blobs_rejects_garbage() {
    let raw = vec![(3u64, b"not a blob".to_vec())];
    assert!(matches!(
        decode_blobs(&raw),
        Err(VerifyError::BlobDecode(_))
    ));
}

#[test]
fn test_sync_skips_foreign_program() {
    let mut node = node();
    let mut raw: Vec<(u64, Vec<u8>)> = Vec::new();
    for i in 0..2u64 {
        let key = format!("k{}", i);
        let r = node
            .apply_transition(
                vec![StateOp::insert(key.into_bytes(), b"v".to_vec())],
                vec![],
                vec![],
                vec![],
                None,
            )
            .unwrap();
        raw.push((i + 1, r.blob.encode().unwrap()));
    }
    // A foreign blob interleaved at sequence 2 would break the chain if
    // it were not skipped.
    let mut foreign = TransitionBlobV1::new(
        b"other".to_vec(),
        2,
        [1u8; 32],
        [2u8; 32],
        vec![],
        vec![],
        [7u8; 32],
    );
    foreign.sequence = 2;
    raw.push((5u64, foreign.encode().unwrap()));

    let decoded = sort_by_sequence(decode_blobs(&raw).unwrap());
    let outcomes = vec![None, None, None];
    let result = sync_transitions(&[0u8; 32], &None, &decoded, &outcomes).unwrap();
    assert_eq!(result.transitions_verified, 3);
    assert_eq!(result.latest_root, node.root());
    assert_eq!(result.warnings.len(), 3);
}

#[test]
fn test_verify_blob_outcomes() {
    let blob = TransitionBlobV1::new(
        b"app".to_vec(),
        1,
        [1u8; 32],
        [2u8; 32],
        vec![],
        b"proof".to_vec(),
        [0u8; 32],
    );
    let good = zkstate::TransitionOutput::new([1u8; 32], [2u8; 32], [0u8; 32], vec![]);
    assert!(verify_blob(&blob, &Some(Ok(good))).is_ok());

    let bad = zkstate::TransitionOutput::new([1u8; 32], [9u8; 32], [0u8; 32], vec![]);
    assert!(matches!(
        verify_blob(&blob, &Some(Ok(bad))),
        Err(VerifyError::ProofInvalid { sequence: 1, .. })
    ));
    assert!(matches!(
        verify_blob(&blob, &Some(Err("bad proof".to_owned()))),
        Err(VerifyError::ProofInvalid { .. })
    ));

    let unproven = TransitionBlobV1::new(
        b"app".to_vec(),
        1,
        [1u8; 32],
        [2u8; 32],
        vec![],
        vec![],
        [0u8; 32],
    );
    assert!(verify_blob(&unproven, &None).is_ok());
}

#[test]
fn test_namespace_from_string() {
    let ns = Namespace::from_string("myapp");
    assert_eq!(ns.version, 0);
    // "myapp" is 5 bytes, should be right-padded
    assert_eq!(&ns.id[23..], b"myapp");
    assert_eq!(&ns.id[..23], &[0u8; 23]);
}

#[test]
fn test_namespace_roundtrip() {
    let ns = Namespace::from_string("test-namespace");
    let bytes = ns.to_bytes();
    let ns2 = Namespace::from_bytes(&bytes).unwrap();
    assert_eq!(ns, ns2);
}

#[test]
fn test_namespace_base64_matches_reference() {
    let ns = Namespace::from_string("myapp");
    let expected = base64::engine::general_purpose::STANDARD.encode(ns.to_bytes());
    assert_eq!(ns.to_base64(), expected);
}

#[test]
fn test_note_da_height() {
    let mut node = node();
    let r1 = node
        .apply_transition(
            vec![StateOp::insert(b"k".to_vec(), b"v".to_vec())],
            vec![],
            vec![],
            vec![],
            None,
        )
        .unwrap();
    node.note_da_height(42);
    let history = node.root_history();
    assert_eq!(history.len(), 2);
    assert_eq!(history[1], (1u64, r1.new_root, Some(42)));
}

#[test]
fn test_namespace_wrong_length() {
    assert!(Namespace::from_bytes(&[0u8; 5]).is_err());
    assert!(Namespace::from_bytes(&[0u8; 30]).is_err());
}
