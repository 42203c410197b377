use sha2::{Digest, Sha256};
use zkstate::{
    Account, GuestError, Operation, OperationBatch, OperationType, SparseMerkleTree,
    TransitionInput, TransitionOutput, VerifiableOperation, run_transition, verify_operation,
    verify_transfer, verify_witnesses,
};

#[test]
fn test_transition_output_roundtrip() {
    let output = TransitionOutput::new([1u8; 32], [2u8; 32], [3u8; 32], b"outputs".to_vec());

    let encoded = output.encode();
    let decoded = TransitionOutput::decode(&encoded).unwrap();

    assert_eq!(output, decoded);
}

#[test]
fn test_transition_input_roundtrip() {
    let input = TransitionInput::new(
        [1u8; 32],
        b"public".to_vec(),
        b"private".to_vec(),
        vec![],
    );

    let encoded = input.encode();
    let decoded = TransitionInput::decode(&encoded).unwrap();

    assert_eq!(input.prev_root, decoded.prev_root);
    assert_eq!(input.public_inputs, decoded.public_inputs);
    assert_eq!(input.private_inputs, decoded.private_inputs);
}

#[test]
fn test_transition_input_roundtrip_full() {
    let mut tree = SparseMerkleTree::new();
    let w1 = tree.insert(b"key1", b"value1".to_vec());
    let w2 = tree.insert(b"key2", b"value2".to_vec());
    let vops = vec![
        VerifiableOperation {
            op_type: OperationType::Transfer {
                from: b"alice".to_vec(),
                to: b"bob".to_vec(),
                amount: 5,
            },
            key: b"bob".to_vec(),
            old_value: Some(b"old".to_vec()),
            new_value: None,
            witness_index: 1,
        },
        VerifiableOperation {
            op_type: OperationType::SetValue,
            key: b"key1".to_vec(),
            old_value: None,
            new_value: Some(b"value1".to_vec()),
            witness_index: 0,
        },
    ];
    let input = TransitionInput::new(
        [9u8; 32],
        b"pub".to_vec(),
        vec![],
        vec![w1.clone(), w2.clone()],
    )
    .with_operations(vops.clone());

    let encoded = input.encode();
    let decoded = TransitionInput::decode(&encoded).unwrap();

    assert_eq!(decoded.prev_root, [9u8; 32]);
    assert_eq!(decoded.witnesses, vec![w1, w2]);
    assert_eq!(decoded.operations.len(), 2);
    assert_eq!(decoded.operations[0].op_type, vops[0].op_type);
    assert_eq!(decoded.operations[0].key, vops[0].key);
    assert_eq!(decoded.operations[0].old_value, vops[0].old_value);
    assert_eq!(decoded.operations[0].new_value, vops[0].new_value);
    assert_eq!(decoded.operations[0].witness_index, 1);
    assert_eq!(decoded.operations[1].op_type, vops[1].op_type);
    assert!(TransitionInput::decode(&encoded[..encoded.len() - 1]).is_err());
}

#[test]
fn test_verify_witnesses() {
    let mut tree = SparseMerkleTree::new();
    let root0 = tree.root();

    let w1 = tree.insert(b"key1", b"value1".to_vec());
    let w2 = tree.insert(b"key2", b"value2".to_vec());
    let root2 = tree.root();

    let result = verify_witnesses(root0, &[w1, w2]).unwrap();
    assert_eq!(result, root2);
}

#[test]
fn test_verify_witnesses_mismatch() {
    let mut tree = SparseMerkleTree::new();
    let _w1 = tree.insert(b"key1", b"value1".to_vec());
    let w2 = tree.insert(b"key2", b"value2".to_vec());

    // Try to verify with wrong starting root
    let wrong_root = [99u8; 32];
    let result = verify_witnesses(wrong_root, &[w2]);
    assert!(result.is_err());
}

#[test]
fn test_finance_transfer_verification() {
    let from_old = Account { balance: 100, nonce: 0 };
    let from_new = Account { balance: 70, nonce: 1 };
    let to_old = Account { balance: 50, nonce: 5 };
    let to_new = Account { balance: 80, nonce: 5 };

    assert!(verify_transfer(&from_old, &from_new, &to_old, &to_new, 30, 0));

    // Invalid: insufficient balance
    let from_old_poor = Account { balance: 10, nonce: 0 };
    assert!(!verify_transfer(&from_old_poor, &from_new, &to_old, &to_new, 30, 0));

    // Invalid: wrong nonce
    assert!(!verify_transfer(&from_old, &from_new, &to_old, &to_new, 30, 1));
}

#[test]
fn test_account_codec_matches_bincode() {
    let account = Account { balance: 1000, nonce: 3 };
    let encoded = account.encode();
    let reference = bincode::serialize(&(1000u64, 3u64)).unwrap();
    assert_eq!(encoded, reference);
    assert_eq!(Account::decode(&encoded), Some(account));
    assert_eq!(Account::decode(&encoded[..15]), None);
}

#[test]
fn test_run_transition_empty() {
    let tree = SparseMerkleTree::new();
    let input = TransitionInput::new(tree.root(), b"pub".to_vec(), b"priv".to_vec(), vec![]);
    let output = run_transition(&input).unwrap();
    assert_eq!(output.prev_root, tree.root());
    assert_eq!(output.new_root, tree.root());
    assert_eq!(output.public_outputs, Vec::<u8>::new());

    let mut hasher = Sha256::new();
    hasher.update(tree.root());
    hasher.update(b"pub");
    let expected: [u8; 32] = hasher.finalize().into();
    assert_eq!(output.public_inputs_hash, expected);
}

#[test]
fn test_run_transition_rejects_broken_chain() {
    let mut tree = SparseMerkleTree::new();
    let _w1 = tree.insert(b"key1", b"value1".to_vec());
    let w2 = tree.insert(b"key2", b"value2".to_vec());

    // The chain must start at the root w2 was computed against, not at
    // the empty root.
    let input = TransitionInput::new([0u8; 32], vec![], vec![], vec![w2]);
    assert_eq!(run_transition(&input), Err(GuestError::RootMismatch));
}

#[test]
fn test_verify_operation_create_account() {
    let op = VerifiableOperation {
        op_type: OperationType::CreateAccount { initial_balance: 500 },
        key: b"alice".to_vec(),
        old_value: None,
        new_value: Some(Account { balance: 500, nonce: 0 }.encode()),
        witness_index: 0,
    };
    assert!(verify_operation(&op, &vec![]));

    let bad = VerifiableOperation {
        new_value: Some(Account { balance: 400, nonce: 0 }.encode()),
        ..op.clone()
    };
    assert!(!verify_operation(&bad, &vec![]));

    let existing = VerifiableOperation {
        old_value: Some(Account { balance: 1, nonce: 0 }.encode()),
        ..op.clone()
    };
    assert!(!verify_operation(&existing, &vec![]));
}

#[test]
fn test_verify_operation_mint_and_burn() {
    let old = Account { balance: 100, nonce: 0 };
    let minted = Account { balance: 150, nonce: 0 };
    let mint = VerifiableOperation {
        op_type: OperationType::Mint { amount: 50 },
        key: b"acct".to_vec(),
        old_value: Some(old.encode()),
        new_value: Some(minted.encode()),
        witness_index: 0,
    };
    assert!(verify_operation(&mint, &vec![]));

    let burned = Account { balance: 70, nonce: 0 };
    let burn = VerifiableOperation {
        op_type: OperationType::Burn { amount: 30 },
        key: b"acct".to_vec(),
        old_value: Some(old.encode()),
        new_value: Some(burned.encode()),
        witness_index: 0,
    };
    assert!(verify_operation(&burn, &vec![]));

    let over_burn = VerifiableOperation {
        op_type: OperationType::Burn { amount: 130 },
        ..burn.clone()
    };
    assert!(!verify_operation(&over_burn, &vec![]));
}

#[test]
fn test_operation_batch_roundtrip() {
    let batch = OperationBatch::new(vec![
        Operation::set(b"k".to_vec(), b"v".to_vec()),
        Operation::delete(b"x".to_vec()),
    ])
    .with_metadata(b"meta".to_vec());

    let encoded = batch.encode();

    // Canonical layout: count, then each tagged operation, then the
    // length-prefixed metadata.
    let mut expected: Vec<u8> = Vec::new();
    expected.extend_from_slice(&2u64.to_le_bytes());
    expected.extend_from_slice(&0u32.to_le_bytes());
    expected.extend_from_slice(&1u64.to_le_bytes());
    expected.extend_from_slice(b"k");
    expected.extend_from_slice(&1u64.to_le_bytes());
    expected.extend_from_slice(b"v");
    expected.extend_from_slice(&1u32.to_le_bytes());
    expected.extend_from_slice(&1u64.to_le_bytes());
    expected.extend_from_slice(b"x");
    expected.extend_from_slice(&4u64.to_le_bytes());
    expected.extend_from_slice(b"meta");
    assert_eq!(encoded, expected);

    let decoded = OperationBatch::decode(&encoded).unwrap();
    assert_eq!(decoded.operations.len(), 2);
    assert!(matches!(
        &decoded.operations[0],
        Operation::SetValue { key, value } if key == b"k" && value == b"v"
    ));
    assert!(matches!(
        &decoded.operations[1],
        Operation::Delete { key } if key == b"x"
    ));
    assert_eq!(decoded.metadata, b"meta".to_vec());
    assert!(OperationBatch::decode(&encoded[..encoded.len() - 1]).is_err());
}
