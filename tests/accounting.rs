use nockchain_pool_coordinator::error::PoolError;
use nockchain_pool_coordinator::payout::{mul_div, PayoutManager};
use nockchain_pool_coordinator::schema::{JobTemplate, MinerRecord, MinerReputation, ShareRecord};
use nockchain_pool_coordinator::store::Store;

fn share(id: &str, miner: &str, nonce: u64, units: u128, timestamp: i64) -> ShareRecord {
    ShareRecord {
        id: id.to_string(),
        miner_address: miner.to_string(),
        job_id: "job".to_string(),
        nonce,
        difficulty: 10,
        timestamp,
        is_valid: true,
        is_block: false,
        reward_units: units,
    }
}

#[test]
fn payout_split_two_miners() {
    let manager = PayoutManager::new(200);
    let shares = vec![share("1", "alice", 1, 300, 0), share("2", "bob", 2, 700, 0)];
    let payouts = manager.calculate_payouts(1_000_000, &shares, -5, 5).unwrap();
    assert_eq!(payouts.len(), 2);
    assert_eq!(payouts[0].miner_address, "alice");
    assert_eq!(payouts[0].amount, 294_000);
    assert_eq!(payouts[0].share_count, 1);
    assert_eq!(payouts[1].miner_address, "bob");
    assert_eq!(payouts[1].amount, 686_000);
    assert_eq!(payouts[1].window_start, -5);
    assert_eq!(payouts[1].window_end, 5);
    let paid: u64 = payouts.iter().map(|p| p.amount).sum();
    let fee = 1_000_000 * 200 / 10_000;
    assert_eq!(fee, 20_000);
    assert_eq!(1_000_000 - fee - paid, 0);
}

#[test]
fn payout_aggregates_shares_per_miner() {
    let manager = PayoutManager::new(0);
    let shares = vec![
        share("1", "alice", 1, 100, 0),
        share("2", "bob", 2, 100, 0),
        share("3", "alice", 3, 200, 0),
    ];
    let payouts = manager.calculate_payouts(400, &shares, 0, 0).unwrap();
    assert_eq!(payouts.len(), 2);
    assert_eq!((payouts[0].miner_address.as_str(), payouts[0].amount, payouts[0].share_count), ("alice", 300, 2));
    assert_eq!((payouts[1].miner_address.as_str(), payouts[1].amount, payouts[1].share_count), ("bob", 100, 1));
}

#[test]
fn payout_dust_stays_with_pool() {
    let manager = PayoutManager::new(150);
    let shares = vec![share("1", "a", 1, 1, 0), share("2", "b", 2, 1, 0), share("3", "c", 3, 1, 0)];
    let reward = 1001u64;
    let payouts = manager.calculate_payouts(reward, &shares, 0, 0).unwrap();
    let fee = reward * 150 / 10_000;
    let paid: u64 = payouts.iter().map(|p| p.amount).sum();
    assert_eq!(fee, 15);
    assert_eq!(paid, 3 * 328);
    assert!(paid + fee <= reward);
}

#[test]
fn payout_skips_zero_amounts_and_invalid_shares() {
    let manager = PayoutManager::new(0);
    let mut invalid = share("3", "carol", 3, 1_000_000, 0);
    invalid.is_valid = false;
    let shares = vec![share("1", "alice", 1, 1, 0), share("2", "bob", 2, 999, 0), invalid];
    let payouts = manager.calculate_payouts(10, &shares, 0, 0).unwrap();
    assert_eq!(payouts.len(), 1);
    assert_eq!(payouts[0].miner_address, "bob");
    assert_eq!(payouts[0].amount, 9);
}

#[test]
fn payout_without_units_is_empty() {
    let manager = PayoutManager::new(200);
    assert!(manager.calculate_payouts(1000, &vec![], 0, 0).unwrap().is_empty());
    let shares = vec![share("1", "alice", 1, 0, 0)];
    assert!(manager.calculate_payouts(1000, &shares, 0, 0).unwrap().is_empty());
}

#[test]
fn payout_overflow_is_an_error() {
    let manager = PayoutManager::new(0);
    let shares = vec![share("1", "a", 1, u128::MAX, 0), share("2", "b", 2, 1, 0)];
    assert!(matches!(manager.calculate_payouts(10, &shares, 0, 0), Err(PoolError::Payout(_))));
}

#[test]
fn payout_exact_beyond_64_bit_products() {
    let manager = PayoutManager::new(0);
    let big = vec![share("1", "a", 1, u128::MAX / 2, 0)];
    let p = manager.calculate_payouts(u64::MAX, &big, 0, 0).unwrap();
    assert_eq!(p[0].amount, u64::MAX);
    let two = vec![share("1", "a", 1, u64::MAX as u128, 0), share("2", "b", 2, u64::MAX as u128, 0)];
    let p = manager.calculate_payouts(u64::MAX, &two, 0, 0).unwrap();
    assert_eq!(p.len(), 2);
    assert_eq!(p[0].amount, u64::MAX / 2);
    assert_eq!(p[1].amount, u64::MAX / 2);
    let uneven = vec![share("1", "a", 1, u128::MAX / 3, 0), share("2", "b", 2, u128::MAX / 3 * 2, 0)];
    let p = manager.calculate_payouts(1_000_000_007, &uneven, 0, 0).unwrap();
    assert_eq!(p[0].amount, 333_333_335);
    assert_eq!(p[1].amount, 666_666_671);
}

#[test]
fn mul_div_matches_wide_arithmetic() {
    assert_eq!(mul_div(10, 3, 4), 7);
    assert_eq!(mul_div(u64::MAX, u128::MAX, u128::MAX), u64::MAX);
    assert_eq!(mul_div(u64::MAX, 1, u128::MAX), 0);
    assert_eq!(mul_div(0, 5, 9), 0);
    assert_eq!(mul_div(1 << 40, 3 << 100, 7 << 100), ((1u128 << 40) * 3 / 7) as u64);
}

#[test]
fn reputation_starts_neutral() {
    let r = MinerReputation::new("alice".to_string());
    assert_eq!(r.reputation_score, 1000);
    assert_eq!(r.valid_shares, 0);
    assert!(r.last_block_time.is_none());
}

#[test]
fn reputation_score_formula() {
    let mut r = MinerReputation::new("alice".to_string());
    r.valid_shares = 10;
    r.update_reputation();
    assert_eq!(r.reputation_score, 700);
    r.blocks_found = 1;
    r.update_reputation();
    assert_eq!(r.reputation_score, 1000);
    r.blocks_found = 5;
    r.update_reputation();
    assert_eq!(r.reputation_score, 1300);
    r.valid_shares = 3;
    r.invalid_shares = 1;
    r.blocks_found = 0;
    r.update_reputation();
    assert_eq!(r.reputation_score, 525);
}

#[test]
fn reputation_score_stays_in_bounds() {
    let mut r = MinerReputation::new("x".to_string());
    r.invalid_shares = 5;
    r.update_reputation();
    assert_eq!(r.reputation_score, 100);
    r.valid_shares = 200_000;
    r.invalid_shares = 0;
    r.blocks_found = 100;
    r.update_reputation();
    assert_eq!(r.reputation_score, 1300);
    r.valid_shares = u64::MAX;
    r.invalid_shares = u64::MAX;
    r.blocks_found = u64::MAX;
    r.update_reputation();
    assert!(r.reputation_score >= 100 && r.reputation_score <= 2000);
    r.valid_shares = 400_000;
    r.invalid_shares = 0;
    r.blocks_found = 1;
    r.update_reputation();
    assert_eq!(r.reputation_score, 775);
}

#[test]
fn store_rejects_repeated_id_and_repeated_work() {
    let mut store = Store::new();
    store.save_miner(MinerRecord::new("alice".to_string(), "w".to_string(), 0));
    assert!(store.save_share(share("s1", "alice", 42, 1, 10)).is_ok());
    assert!(matches!(store.save_share(share("s1", "alice", 43, 1, 10)), Err(PoolError::DuplicateShare)));
    assert!(matches!(store.save_share(share("s2", "alice", 42, 1, 10)), Err(PoolError::DuplicateShare)));
    assert!(store.save_share(share("s3", "alice", 43, 1, 10)).is_ok());
    assert!(store.has_share(&"job".to_string(), &"alice".to_string(), 42));
    assert!(!store.has_share(&"job".to_string(), &"alice".to_string(), 44));
    assert_eq!(store.get_shares_in_window(0, 100).len(), 2);
}

#[test]
fn store_window_and_cleanup() {
    let mut store = Store::new();
    store.save_miner(MinerRecord::new("alice".to_string(), "w".to_string(), 0));
    store.save_share(share("c", "alice", 3, 1, 300)).unwrap();
    store.save_share(share("a", "alice", 1, 1, 100)).unwrap();
    store.save_share(share("b", "alice", 2, 1, 200)).unwrap();
    let w = store.get_shares_in_window(150, 300);
    assert_eq!(w.iter().map(|s| s.id.as_str()).collect::<Vec<_>>(), vec!["b", "c"]);
    let all = store.get_shares_in_window(0, 300);
    assert_eq!(all.iter().map(|s| s.id.as_str()).collect::<Vec<_>>(), vec!["a", "b", "c"]);
    assert_eq!(store.cleanup_old_shares(200), 2);
    let rest = store.get_shares_in_window(i64::MIN, i64::MAX);
    assert_eq!(rest.len(), 1);
    assert_eq!(rest[0].id, "c");
    assert_eq!(store.cleanup_old_shares(0), 0);
}

#[test]
fn store_miner_records_and_active_set() {
    let mut store = Store::new();
    assert!(store.get_miner("alice").is_none());
    store.save_miner(MinerRecord::new("alice".to_string(), "w1".to_string(), 5));
    let mut m = store.get_miner("alice").unwrap();
    assert_eq!(m.worker_name, "w1");
    assert_eq!(m.registration_time, 5);
    m.worker_name = "w2".to_string();
    store.save_miner(m);
    assert_eq!(store.get_miner("alice").unwrap().worker_name, "w2");
    assert_eq!(store.get_active_miners(), vec!["alice".to_string()]);
}

#[test]
fn store_jobs_and_current_job() {
    let mut store = Store::new();
    assert!(store.get_current_job().is_none());
    store.save_job(job("j1", vec![0xff; 32]));
    store.save_job(job("j2", vec![0x00; 32]));
    assert_eq!(store.get_current_job().unwrap().id, "j2");
    assert!(store.get_job("j1").is_some());
    assert!(store.get_job("j3").is_none());
}

#[test]
fn store_reputations_and_stats() {
    let mut store = Store::new();
    assert!(store.get_reputation("a").is_none());
    store.save_reputation(MinerReputation::new("a".to_string()));
    assert_eq!(store.get_reputation("a").unwrap().reputation_score, 1000);
    assert!(store.get_pool_stats().is_none());
}

#[test]
fn nonce_ranges_split_evenly() {
    let j = job("j", vec![0; 32]);
    let whole = j.calculate_nonce_range("alice", 1);
    assert_eq!(whole, 0..u64::MAX);
    let r = j.calculate_nonce_range("alice", 4);
    let size = u64::MAX / 4;
    let h = <sha2::Sha256 as sha2::Digest>::digest("alice".as_bytes());
    let slot = u64::from_le_bytes(h[0..8].try_into().unwrap()) % 4;
    assert_eq!(r.start, slot * size);
    assert_eq!(r.end, if slot == 3 { u64::MAX } else { (slot + 1) * size });
}

fn job(id: &str, target: Vec<u8>) -> JobTemplate {
    JobTemplate {
        id: id.to_string(),
        block_commitment: vec![1, 2, 3],
        target,
        share_target: vec![0xff; 32],
        timestamp: 0,
        nonce_ranges: vec![],
        height: 1,
        previous_block: "genesis".to_string(),
    }
}
