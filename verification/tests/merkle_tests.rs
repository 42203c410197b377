use sha2::{Digest, Sha256};
use zkstate::SparseMerkleTree;

#[test]
fn test_empty_tree() {
    let tree = SparseMerkleTree::new();
    assert_eq!(tree.get(b"key"), None);
}

#[test]
fn test_insert_and_get() {
    let mut tree = SparseMerkleTree::new();
    tree.insert(b"key1", b"value1".to_vec());
    tree.insert(b"key2", b"value2".to_vec());

    assert_eq!(tree.get(b"key1"), Some(b"value1".to_vec()));
    assert_eq!(tree.get(b"key2"), Some(b"value2".to_vec()));
    assert_eq!(tree.get(b"key3"), None);
}

#[test]
fn test_update() {
    let mut tree = SparseMerkleTree::new();
    tree.insert(b"key", b"value1".to_vec());
    let root1 = tree.root();

    tree.insert(b"key", b"value2".to_vec());
    let root2 = tree.root();

    assert_ne!(root1, root2);
    assert_eq!(tree.get(b"key"), Some(b"value2".to_vec()));
}

#[test]
fn test_delete() {
    let mut tree = SparseMerkleTree::new();
    let empty_root = tree.root();

    tree.insert(b"key", b"value".to_vec());
    assert_eq!(tree.get(b"key"), Some(b"value".to_vec()));

    tree.delete(b"key");
    assert_eq!(tree.get(b"key"), None);
    assert_eq!(tree.root(), empty_root);
}

#[test]
fn test_proof_verification() {
    let mut tree = SparseMerkleTree::new();
    tree.insert(b"key1", b"value1".to_vec());
    tree.insert(b"key2", b"value2".to_vec());

    let root = tree.root();

    let proof1 = tree.get_proof(b"key1");
    assert!(proof1.verify(&root));
    assert_eq!(proof1.value, Some(b"value1".to_vec()));

    let proof2 = tree.get_proof(b"key2");
    assert!(proof2.verify(&root));

    // Non-membership proof
    let proof3 = tree.get_proof(b"key3");
    assert!(proof3.verify(&root));
    assert_eq!(proof3.value, None);
}

#[test]
fn test_update_witness() {
    let mut tree = SparseMerkleTree::new();
    let root0 = tree.root();

    let witness = tree.insert(b"key", b"value".to_vec());
    let root1 = tree.root();

    assert_eq!(witness.compute_old_root(), root0);
    assert_eq!(witness.compute_new_root(), root1);
}

#[test]
fn test_serialization_roundtrip() {
    let mut tree = SparseMerkleTree::new();
    tree.insert(b"key1", b"value1".to_vec());
    tree.insert(b"key2", b"value2".to_vec());

    let data = tree.serialize().unwrap();
    let tree2 = SparseMerkleTree::deserialize(&data).unwrap();

    assert_eq!(tree.root(), tree2.root());
    assert_eq!(tree2.get(b"key1"), Some(b"value1".to_vec()));
    assert_eq!(tree2.get(b"key2"), Some(b"value2".to_vec()));
}

#[test]
fn test_old_proof_fails_after_update() {
    let mut tree = SparseMerkleTree::new();
    tree.insert(b"key", b"value1".to_vec());
    let root1 = tree.root();
    let proof1 = tree.get_proof(b"key");
    assert!(proof1.verify(&root1));

    tree.insert(b"key", b"value2".to_vec());
    let root2 = tree.root();
    let proof2 = tree.get_proof(b"key");
    assert!(proof2.verify(&root2));
    assert!(!proof1.verify(&root2));
    assert!(!proof2.verify(&root1));
}

#[test]
fn test_delete_absent_key_witness() {
    let mut tree = SparseMerkleTree::new();
    tree.insert(b"present", b"value".to_vec());
    let root = tree.root();

    let witness = tree.delete(b"absent");
    assert_eq!(witness.old_value, None);
    assert_eq!(witness.new_value, None);
    assert_eq!(witness.compute_old_root(), root);
    assert_eq!(witness.compute_new_root(), root);
    assert_eq!(tree.root(), root);
}

#[test]
fn test_hash_primitives_match_sha2() {
    let data = b"some bytes";
    let expected: [u8; 32] = Sha256::digest(data).into();
    assert_eq!(zkstate::hash_bytes(data), expected);
    assert_eq!(zkstate::hash_key(data), expected);

    let left = [1u8; 32];
    let right = [2u8; 32];
    let mut hasher = Sha256::new();
    hasher.update(left);
    hasher.update(right);
    let expected_node: [u8; 32] = hasher.finalize().into();
    assert_eq!(zkstate::hash_nodes(&left, &right), expected_node);

    let key = [3u8; 32];
    let mut hasher = Sha256::new();
    hasher.update([0x00]);
    hasher.update(key);
    hasher.update(b"value");
    let expected_leaf: [u8; 32] = hasher.finalize().into();
    assert_eq!(zkstate::hash_leaf(&key, b"value"), expected_leaf);
}

#[test]
fn test_get_bit_msb_first() {
    let mut hash = [0u8; 32];
    hash[0] = 0b1000_0000;
    hash[1] = 0b0000_0001;
    assert!(zkstate::get_bit(&hash, 0));
    assert!(!zkstate::get_bit(&hash, 1));
    assert!(!zkstate::get_bit(&hash, 8));
    assert!(zkstate::get_bit(&hash, 15));
}

#[test]
fn test_empty_root_formula() {
    // E[160] is all zeroes; E[d] = H(E[d+1] || E[d+1]); the empty trie's
    // root is E[0].
    let mut level = [0u8; 32];
    for _ in 0..160 {
        let mut hasher = Sha256::new();
        hasher.update(level);
        hasher.update(level);
        level = hasher.finalize().into();
    }
    assert_eq!(SparseMerkleTree::new().root(), level);
}

#[test]
fn test_deserialize_rejects_garbage() {
    assert!(SparseMerkleTree::deserialize(b"xx").is_err());
}
