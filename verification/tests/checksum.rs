use hyperplane::checksum::merkle::{compute_root, generate_proof, leaf_hash, verify_proof};
use hyperplane::checksum::{hash_account_data, hash_account_data_with_pubkey, verify_account_integrity};
use hyperplane::pubkey::Pubkey;

fn unique_pubkey() -> Pubkey {
    Pubkey::new_from_array(solana_sdk::pubkey::Pubkey::new_unique().to_bytes())
}

fn hex(bytes: &[u8]) -> String {
    bytes.iter().map(|b| format!("{:02x}", b)).collect()
}

fn numbered_leaves(n: usize) -> Vec<[u8; 32]> {
    (0..n)
        .map(|i| {
            let mut leaf = [0u8; 32];
            leaf[0] = i as u8;
            leaf
        })
        .collect()
}

#[test]
fn test_account_hash() {
    let pubkey = unique_pubkey();
    let data = vec![1, 2, 3, 4, 5];

    let hash1 = hash_account_data_with_pubkey(pubkey, &data);
    let hash2 = hash_account_data_with_pubkey(pubkey, &data);

    assert_eq!(hash1, hash2);

    let pubkey2 = unique_pubkey();
    let hash3 = hash_account_data_with_pubkey(pubkey2, &data);
    assert_ne!(hash1, hash3);
}

#[test]
fn test_merkle_root() {
    let leaves = numbered_leaves(4);
    let root = compute_root(&leaves);
    assert_ne!(root, [0u8; 32]);
}

#[test]
fn test_merkle_proof() {
    let leaves = numbered_leaves(8);
    let root = compute_root(&leaves);
    for i in 0..leaves.len() {
        let proof = generate_proof(&leaves, i);
        assert!(verify_proof(leaves[i], &proof, root));
    }
}

#[test]
fn test_merkle_proof_odd_count() {
    let leaves = numbered_leaves(5);
    let root = compute_root(&leaves);
    for i in 0..leaves.len() {
        let proof = generate_proof(&leaves, i);
        assert!(verify_proof(leaves[i], &proof, root));
    }
    let proof = generate_proof(&leaves, 0);
    assert!(!verify_proof(leaves[1], &proof, root));
}

#[test]
fn test_merkle_root_edge_cases() {
    assert_eq!(compute_root(&[]), [0u8; 32]);
    let one = numbered_leaves(1);
    assert_eq!(compute_root(&one), one[0]);
}

#[test]
fn test_leaf_hash_is_sha256() {
    assert_eq!(
        hex(&leaf_hash(b"abc")),
        "ba7816bf8f01cfea414140de5dae2223b00361a396177a9cb410ff61f20015ad"
    );
}

#[test]
fn test_account_data_hash_is_blake3() {
    assert_eq!(
        hex(&hash_account_data(b"abc")),
        "6437b3ac38465133ffb63b75273a8db548c558465d79db03fd359c6cd5bd9d85"
    );
}

#[test]
fn test_integrity_check() {
    let pubkey = unique_pubkey();
    let data = vec![9u8, 8, 7];
    let h = hash_account_data_with_pubkey(pubkey, &data);
    assert!(verify_account_integrity(pubkey, &data, h));
    assert!(!verify_account_integrity(pubkey, &[9u8, 8], h));
}
