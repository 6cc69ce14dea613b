use merkle_tree::hash::Hasher;
use merkle_tree::{MerkleProof, MerkleTree, Sha256};

#[test]
fn test_root_hash_matches_manual_construction() {
    let data = vec![b"a".to_vec(), b"b".to_vec(), b"c".to_vec()];
    let tree = MerkleTree::new::<Sha256>(&data);

    // Manually compute expected root
    let ha = Sha256::hash(b"a");
    let hb = Sha256::hash(b"b");
    let hc = Sha256::hash(b"c");
    let p0 = Sha256::hash([ha.as_slice(), hb.as_slice()].concat().as_slice());
    let p1 = Sha256::hash([hc.as_slice(), hc.as_slice()].concat().as_slice());
    let expected_root = Sha256::hash([p0.as_slice(), p1.as_slice()].concat().as_slice());

    assert_eq!(tree.root_hash(), expected_root.as_slice());
}

#[test]
fn test_odd_leaves_duplicate_last() {
    let data = vec![b"x".to_vec(), b"y".to_vec(), b"z".to_vec()];
    let tree = MerkleTree::new::<Sha256>(&data);
    assert_eq!(tree.leaves.len() % 2, 0);

    let hz = Sha256::hash(b"z");
    assert_eq!(tree.leaves[2].hash, hz);
    assert_eq!(tree.leaves[3].hash, hz);
}

#[test]
fn test_merkle_proof_verification_true() {
    let data = vec![
        b"apple".to_vec(),
        b"banana".to_vec(),
        b"cherry".to_vec(),
        b"date".to_vec(),
        b"elderberry".to_vec(),
    ];
    let tree = MerkleTree::new::<Sha256>(&data);

    let index_under_test = 3; // "date"
    let leaf = &data[index_under_test];
    let proof = tree.generate_proof::<Sha256>(index_under_test);
    assert!(MerkleProof::verify::<Sha256>(leaf, &proof, tree.root_hash()));
}

#[test]
fn test_merkle_proof_verification_false_on_tampered_leaf() {
    let data = vec![
        b"apple".to_vec(),
        b"banana".to_vec(),
        b"cherry".to_vec(),
        b"date".to_vec(),
    ];
    let tree = MerkleTree::new::<Sha256>(&data);

    let index_under_test = 1; // "banana"
    let mut tampered_leaf = data[index_under_test].clone();
    tampered_leaf.push(0x00);

    let proof = tree.generate_proof::<Sha256>(index_under_test);
    assert!(!MerkleProof::verify::<Sha256>(
        &tampered_leaf,
        &proof,
        tree.root_hash()
    ));
}

#[test]
fn test_build_is_deterministic() {
    let data = vec![b"one".to_vec(), b"two".to_vec(), b"three".to_vec(), b"four".to_vec()];
    let t1 = MerkleTree::new::<Sha256>(&data);
    let t2 = MerkleTree::new::<Sha256>(&data);
    assert_eq!(t1.root_hash(), t2.root_hash());
    assert_eq!(t1.leaves.len(), t2.leaves.len());
}

#[test]
fn test_single_element_tree() {
    let data = vec![b"solo".to_vec()];
    let tree = MerkleTree::new::<Sha256>(&data);
    assert_eq!(tree.leaves.len(), 2);

    let h = Sha256::hash(b"solo");
    let expected = Sha256::hash([h.as_slice(), h.as_slice()].concat().as_slice());
    assert_eq!(tree.root_hash(), expected.as_slice());
}

#[test]
fn test_sha256_known_digest() {
    // SHA-256("abc"), the classic known-answer value.
    let digest = Sha256::hash(b"abc");
    assert_eq!(
        hex::encode(&digest),
        "ba7816bf8f01cfea414140de5dae2223b00361a396177a9cb410ff61f20015ad"
    );
    // The empty input also hashes to a fixed, non-empty digest.
    let empty = Sha256::hash(b"");
    assert_eq!(
        hex::encode(&empty),
        "e3b0c44298fc1c149afbf4c8996fb92427ae41e4649b934ca495991b7852b855"
    );
}

#[test]
fn test_empty_proof_verifies_leaf_hash_only() {
    // With no path entries, verify just compares hash(leaf) to the root.
    let proof = MerkleProof { hashes: Vec::new() };
    let h = Sha256::hash(b"block");
    assert!(MerkleProof::verify::<Sha256>(b"block", &proof, h.as_slice()));
    let other = Sha256::hash(b"other");
    assert!(!MerkleProof::verify::<Sha256>(b"block", &proof, other.as_slice()));
}

#[test]
fn test_concrete_scenario_proof_for_third_block() {
    let data = vec![b"a".to_vec(), b"b".to_vec(), b"c".to_vec()];
    let tree = MerkleTree::new::<Sha256>(&data);

    let proof = tree.generate_proof::<Sha256>(2);
    assert!(MerkleProof::verify::<Sha256>(b"c", &proof, tree.root_hash()));
    assert!(!MerkleProof::verify::<Sha256>(b"d", &proof, tree.root_hash()));
}

#[test]
fn test_every_leaf_proof_verifies() {
    let data = vec![
        b"apple".to_vec(),
        b"banana".to_vec(),
        b"cherry".to_vec(),
        b"date".to_vec(),
        b"elderberry".to_vec(),
    ];
    let tree = MerkleTree::new::<Sha256>(&data);
    for (i, leaf) in data.iter().enumerate() {
        let proof = tree.generate_proof::<Sha256>(i);
        assert!(MerkleProof::verify::<Sha256>(leaf, &proof, tree.root_hash()));
    }
}
