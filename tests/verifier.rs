use nockchain_pool_coordinator::computation_proof::{
    estimate_computation_steps, ComputationProof, SerializedWitness, WitnessOracle,
};
use nockchain_pool_coordinator::validator::{calculate_block_difficulty, calculate_share_difficulty, meets_target};
use sha2::{Digest, Sha256};

fn digest(b: &[u8]) -> [u8; 32] {
    Sha256::digest(b).into()
}

#[test]
fn share_difficulty_all_zero() {
    assert_eq!(calculate_share_difficulty(&[0u8; 32]), 32 * 256);
}

#[test]
fn share_difficulty_counts_bits_of_first_nonzero_byte() {
    let mut c = [0xffu8; 32];
    c[0] = 0;
    c[1] = 0;
    c[2] = 0x10;
    assert_eq!(calculate_share_difficulty(&c), 2 * 256 + 3 * 32);
    let mut d = [0u8; 32];
    d[0] = 0x01;
    assert_eq!(calculate_share_difficulty(&d), 7 * 32);
}

#[test]
fn share_difficulty_is_at_least_one() {
    assert_eq!(calculate_share_difficulty(&[0xffu8; 32]), 1);
    assert_eq!(calculate_share_difficulty(&[0x80u8; 32]), 1);
}

#[test]
fn block_difficulty_counts_leading_ff_bytes() {
    let mut t = [0u8; 32];
    t[0] = 0xff;
    t[1] = 0xff;
    assert_eq!(calculate_block_difficulty(&t), 512 * 1000);
    assert_eq!(calculate_block_difficulty(&[0u8; 32]), 1000);
    assert_eq!(calculate_block_difficulty(&[0xffu8; 32]), 32 * 256 * 1000);
    assert_eq!(calculate_block_difficulty(&[]), 1000);
}

#[test]
fn meets_target_compares_big_endian() {
    let mut target = [0u8; 32];
    target[31] = 0xff;
    let mut hash = [0u8; 32];
    hash[31] = 0x10;
    assert!(meets_target(&hash, &target));
    assert!(meets_target(&target, &target));
    let mut high = [0u8; 32];
    high[30] = 1;
    assert!(!meets_target(&high, &target));
    assert!(meets_target(&target, &high));
}

#[test]
fn meets_target_block_target_with_one_low_byte() {
    // a target of 31 zero bytes then 0xff is met by any digest starting with 31 zero bytes
    let mut target = [0u8; 32];
    target[31] = 0xff;
    let mut hash = [0u8; 32];
    hash[31] = 0xfe;
    assert!(meets_target(&hash, &target));
    hash[0] = 1;
    assert!(!meets_target(&hash, &target));
}

#[test]
fn meets_target_is_total_and_antisymmetric() {
    let values: Vec<[u8; 32]> = vec![[0u8; 32], [1u8; 32], [0xffu8; 32], digest(b"a"), digest(b"b"), digest(b"c")];
    for a in &values {
        for b in &values {
            assert!(meets_target(a, b) || meets_target(b, a));
            if meets_target(a, b) && meets_target(b, a) {
                assert_eq!(a, b);
            }
            for c in &values {
                if meets_target(a, b) && meets_target(b, c) {
                    assert!(meets_target(a, c));
                }
            }
        }
    }
}

#[test]
fn estimate_is_one_hundred_steps_per_byte() {
    assert_eq!(estimate_computation_steps(&[0u8; 40]), 4000);
    assert_eq!(estimate_computation_steps(&[]), 0);
}

#[test]
fn generate_commits_to_running_concatenation() {
    let commitment = b"block".to_vec();
    let p = ComputationProof::generate_for_range(&SerializedWitness, &commitment, 0..100, 4);
    assert_eq!(p.nonce_range, 0..100);
    assert_eq!(p.intermediate_hashes.len(), 4);
    let mut running = Vec::new();
    for (k, nonce) in [0u64, 25, 50, 75].iter().enumerate() {
        running.extend(SerializedWitness.partial_witness(&commitment, *nonce));
        assert_eq!(p.intermediate_hashes[k], digest(&running));
    }
    assert_eq!(p.witness_commitment, digest(&running));
    assert_eq!(p.computation_steps, 4 * 13 * 100);
}

#[test]
fn generate_stops_at_range_end() {
    let p = ComputationProof::generate_for_range(&SerializedWitness, b"c", 10..12, 5);
    assert_eq!(p.intermediate_hashes.len(), 2);
    let empty = ComputationProof::generate_for_range(&SerializedWitness, b"c", 7..7, 3);
    assert_eq!(empty.intermediate_hashes.len(), 0);
    assert_eq!(empty.witness_commitment, digest(&[]));
    assert_eq!(empty.computation_steps, 0);
}

#[test]
fn generated_proof_verifies() {
    let p = ComputationProof::generate_for_range(&SerializedWitness, b"job", 5..6, 1);
    assert!(p.verify(&SerializedWitness, b"job", 5));
    assert!(!p.verify(&SerializedWitness, b"other", 5));
    assert!(p.verify(&SerializedWitness, b"other", 0));
}

#[test]
fn spot_check_accepts_matching_prefix_only() {
    let base = digest(b"witness");
    let proof = ComputationProof {
        witness_commitment: base,
        nonce_range: 0..1,
        computation_steps: 1,
        intermediate_hashes: vec![digest(b"x"), base],
    };
    let mut tail_differs = base;
    tail_differs[8] ^= 0xff;
    tail_differs[31] ^= 0x01;
    assert!(proof.matches_any(&tail_differs));
    let mut head_differs = base;
    head_differs[7] ^= 0x01;
    assert!(!proof.matches_any(&head_differs));
    assert!(proof.check_spot_hashes(&vec![tail_differs, base]));
    assert!(!proof.check_spot_hashes(&vec![tail_differs, head_differs]));
    assert!(proof.check_spot_hashes(&vec![]));
}
