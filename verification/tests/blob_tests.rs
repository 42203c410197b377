use sha2::{Digest, Sha256};
use zkstate::{BlobError, TransitionBlobV1};

#[test]
fn test_blob_roundtrip() {
    let blob = TransitionBlobV1::new(
        b"test-app".to_vec(),
        1,
        [0u8; 32],
        [1u8; 32],
        b"public".to_vec(),
        b"proof".to_vec(),
        [2u8; 32],
    )
    .with_timestamp(12345)
    .with_public_outputs(b"outputs".to_vec());

    let encoded = blob.encode().unwrap();
    let decoded = TransitionBlobV1::decode(&encoded).unwrap();
    assert_eq!(blob, decoded);
}

#[test]
fn test_blob_hash_deterministic() {
    let blob = TransitionBlobV1::new(
        b"test".to_vec(),
        1,
        [0u8; 32],
        [1u8; 32],
        vec![],
        vec![],
        [0u8; 32],
    );

    let hash1 = blob.hash();
    let hash2 = blob.hash();
    assert_eq!(hash1, hash2);
}

#[test]
fn test_invalid_version() {
    let mut blob = TransitionBlobV1::new(
        vec![],
        0,
        [0u8; 32],
        [0u8; 32],
        vec![],
        vec![],
        [0u8; 32],
    );
    blob.version = 99;

    let encoded = blob.encode().unwrap();
    let result = TransitionBlobV1::decode(&encoded);
    assert!(matches!(result, Err(BlobError::InvalidVersion { .. })));
}

#[test]
fn test_version_two_rejected() {
    let mut blob = TransitionBlobV1::new(
        b"app".to_vec(),
        4,
        [7u8; 32],
        [8u8; 32],
        vec![],
        vec![],
        [9u8; 32],
    );
    blob.version = 2;

    let encoded = blob.encode().unwrap();
    match TransitionBlobV1::decode(&encoded) {
        Err(BlobError::InvalidVersion { expected, got }) => {
            assert_eq!(expected, 1);
            assert_eq!(got, 2);
        }
        other => panic!("expected InvalidVersion, got {:?}", other),
    }
}

#[test]
fn test_blob_encoding_matches_bincode() {
    let blob = TransitionBlobV1::new(
        b"test-app".to_vec(),
        42,
        [3u8; 32],
        [4u8; 32],
        b"inputs".to_vec(),
        b"proofbytes".to_vec(),
        [5u8; 32],
    )
    .with_public_outputs(b"out".to_vec())
    .with_timestamp(777)
    .with_signature(b"sig".to_vec());

    let encoded = blob.encode().unwrap();

    let equivalent = (
        1u8,
        b"test-app".to_vec(),
        42u64,
        [3u8; 32],
        [4u8; 32],
        b"inputs".to_vec(),
        b"out".to_vec(),
        b"proofbytes".to_vec(),
        [5u8; 32],
        Some(777u64),
        Some(b"sig".to_vec()),
    );
    let reference = bincode::serialize(&equivalent).unwrap();
    assert_eq!(encoded, reference);
}

#[test]
fn test_blob_hash_matches_sha2() {
    let blob = TransitionBlobV1::new(
        b"a".to_vec(),
        9,
        [1u8; 32],
        [2u8; 32],
        b"p".to_vec(),
        vec![],
        [3u8; 32],
    );
    let expected: [u8; 32] = Sha256::digest(blob.encode().unwrap()).into();
    assert_eq!(blob.hash(), expected);
}

#[test]
fn test_signing_message_layout() {
    let blob = TransitionBlobV1::new(
        b"id".to_vec(),
        0x0102030405060708,
        [10u8; 32],
        [11u8; 32],
        vec![],
        vec![],
        [12u8; 32],
    );
    let msg = blob.signing_message();
    assert_eq!(msg.len(), 8 + 32 + 32 + 32 + 32);
    assert_eq!(&msg[0..8], &0x0102030405060708u64.to_le_bytes());
    assert_eq!(&msg[8..40], &[10u8; 32]);
    assert_eq!(&msg[40..72], &[11u8; 32]);
    assert_eq!(&msg[72..104], &[12u8; 32]);
    assert_eq!(&msg[104..136], &blob.hash());
}

#[test]
fn test_hex_roundtrip() {
    let hash: [u8; 32] = core::array::from_fn(|i| (i * 7 + 3) as u8);
    let rendered = zkstate::hash_to_hex(&hash);
    assert_eq!(rendered, hex::encode(hash));
    let parsed = zkstate::hex_to_hash(&rendered).unwrap();
    assert_eq!(parsed, hash);
}

#[test]
fn test_hex_to_hash_rejects_bad_input() {
    assert!(zkstate::hex_to_hash("abcd").is_err());
    let mut s = String::new();
    for _ in 0..64 {
        s.push('g');
    }
    assert!(zkstate::hex_to_hash(&s).is_err());
    let upper = hex::encode([0xabu8; 32]).to_uppercase();
    assert_eq!(zkstate::hex_to_hash(&upper).unwrap(), [0xabu8; 32]);
}
