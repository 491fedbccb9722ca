use nockchain_pool_coordinator::computation_proof::{SerializedWitness, WitnessOracle};
use nockchain_pool_coordinator::coordinator::{PoolConfig, PoolCoordinator};
use nockchain_pool_coordinator::error::PoolError;
use nockchain_pool_coordinator::json::{decode_submission, encode_submission, JsonField, JsonValue};
use nockchain_pool_coordinator::protocol::{StratumMessage, StratumRequest, StratumResponse};
use nockchain_pool_coordinator::schema::JobTemplate;
use nockchain_pool_coordinator::server::{MinerConnection, StratumServer};
use nockchain_pool_coordinator::types::{ShareSubmission, ShareType};
use sha2::{Digest, Sha256};

fn job(id: &str, target: Vec<u8>) -> JobTemplate {
    JobTemplate {
        id: id.to_string(),
        block_commitment: vec![0x00, 0xff, 0x10],
        target,
        share_target: vec![0xff; 32],
        timestamp: std::time::SystemTime::now().duration_since(std::time::UNIX_EPOCH).unwrap().as_secs() as i64,
        nonce_ranges: vec![],
        height: 7,
        previous_block: "prev".to_string(),
    }
}

fn valid_computation_share(job: &JobTemplate, miner: &str, nonce: u64) -> ShareSubmission {
    let witness = SerializedWitness.partial_witness(&job.block_commitment, nonce);
    let witness_commitment: [u8; 32] = Sha256::digest(&witness).into();
    ShareSubmission {
        job_id: job.id.clone(),
        miner_id: miner.to_string(),
        share_type: ShareType::ComputationProof { nonce, witness_commitment, computation_steps: 3 },
    }
}

fn request(id: Option<u64>, method: Option<&str>, params: Option<JsonValue>) -> StratumMessage {
    StratumMessage { id, method: method.map(|m| m.to_string()), params, result: None, error: None }
}

fn strs(items: &[&str]) -> JsonValue {
    JsonValue::Array(items.iter().map(|s| JsonValue::Str(s.to_string())).collect())
}

fn error_of(m: &StratumMessage) -> (i32, String) {
    let e = m.error.as_ref().unwrap();
    (e.code, e.message.clone())
}

#[test]
fn duplicate_share_rejected() {
    let mut pool = PoolCoordinator::new(PoolConfig::default());
    let j = job("J", vec![0xff; 32]);
    pool.new_job(j.clone());
    let share = valid_computation_share(&j, "alice", 42);
    let v = pool.submit_share(&SerializedWitness, share.clone()).unwrap();
    assert!(v.is_valid);
    assert!(!v.is_block);
    let wc = match &share.share_type {
        ShareType::ComputationProof { witness_commitment, .. } => *witness_commitment,
        _ => unreachable!(),
    };
    let d = nockchain_pool_coordinator::validator::calculate_share_difficulty(&wc);
    assert_eq!(v.difficulty, d);
    assert_eq!(v.reward_units, d as u128 * 3);
    let err = pool.submit_share(&SerializedWitness, share).unwrap_err();
    assert!(matches!(err, PoolError::DuplicateShare));
    assert!(err.message().contains("Duplicate"));
    let miner = pool.store().get_miner("alice").unwrap();
    assert_eq!(miner.shares_submitted, 1);
    assert_eq!(miner.shares_valid, 1);
    assert_eq!(miner.total_difficulty, d as u128);
    let shares = pool.store().get_shares_in_window(i64::MIN, i64::MAX);
    assert_eq!(shares.len(), 1);
    assert_eq!(shares[0].id.len(), 36);
    assert_eq!(shares[0].nonce, 42);
}

#[test]
fn stale_job_rejected() {
    let mut pool = PoolCoordinator::new(PoolConfig::default());
    let j = job("J", vec![0xff; 32]);
    pool.new_job(j.clone());
    let mut share = valid_computation_share(&j, "alice", 1);
    share.job_id = "deadbeef".to_string();
    let err = pool.submit_share(&SerializedWitness, share).unwrap_err();
    assert!(matches!(&err, PoolError::JobNotFound(id) if id == "deadbeef"));
    assert!(err.message().contains("Job not found"));
}

#[test]
fn expired_job_rejected() {
    let mut pool = PoolCoordinator::new(PoolConfig::default());
    let j = job("J", vec![0xff; 32]);
    pool.new_job(j.clone());
    let share = valid_computation_share(&j, "alice", 1);
    let err = pool.submit_share_at(&SerializedWitness, share.clone(), "s1".to_string(), j.timestamp + 3601).unwrap_err();
    assert!(matches!(&err, PoolError::JobNotFound(id) if id == "J"));
    assert!(pool.submit_share_at(&SerializedWitness, share, "s2".to_string(), j.timestamp + 3600).is_ok());
}

#[test]
fn prefix_match_is_enough() {
    let mut pool = PoolCoordinator::new(PoolConfig::default());
    let j = job("J", vec![0xff; 32]);
    pool.new_job(j.clone());
    let mut share = valid_computation_share(&j, "alice", 7);
    if let ShareType::ComputationProof { witness_commitment, .. } = &mut share.share_type {
        witness_commitment[8] ^= 0xff;
        witness_commitment[31] ^= 0x55;
    }
    assert!(pool.submit_share(&SerializedWitness, share.clone()).is_ok());
    let mut bad = valid_computation_share(&j, "alice", 8);
    if let ShareType::ComputationProof { witness_commitment, .. } = &mut bad.share_type {
        witness_commitment[7] ^= 0x01;
    }
    assert!(matches!(pool.submit_share(&SerializedWitness, bad), Err(PoolError::InvalidProof)));
}

#[test]
fn refused_share_changes_nothing() {
    let mut pool = PoolCoordinator::new(PoolConfig::default());
    let j = job("J", vec![0xff; 32]);
    pool.new_job(j.clone());
    pool.submit_share_at(&SerializedWitness, valid_computation_share(&j, "a", 1), "id-1".to_string(), j.timestamp).unwrap();
    let err = pool
        .submit_share_at(&SerializedWitness, valid_computation_share(&j, "b", 2), "id-1".to_string(), j.timestamp)
        .unwrap_err();
    assert!(matches!(err, PoolError::DuplicateShare));
    assert!(pool.store().get_miner("b").is_none());
    assert_eq!(pool.store().get_shares_in_window(i64::MIN, i64::MAX).len(), 1);
}

#[test]
fn invalid_proof_rejected() {
    let mut pool = PoolCoordinator::new(PoolConfig::default());
    let j = job("J", vec![0xff; 32]);
    pool.new_job(j.clone());
    let share = ShareSubmission {
        job_id: "J".to_string(),
        miner_id: "alice".to_string(),
        share_type: ShareType::ComputationProof { nonce: 1, witness_commitment: [7u8; 32], computation_steps: 3 },
    };
    assert!(matches!(pool.submit_share(&SerializedWitness, share), Err(PoolError::InvalidProof)));
    assert!(pool.store().get_miner("alice").is_none());
}

#[test]
fn block_path_counts_block_found() {
    let mut pool = PoolCoordinator::new(PoolConfig::default());
    let mut target = vec![0xffu8; 32];
    target[31] = 0x00;
    pool.new_job(job("J", target));
    let share = ShareSubmission {
        job_id: "J".to_string(),
        miner_id: "bob".to_string(),
        share_type: ShareType::ValidBlock { nonce: 9, proof: vec![1, 2, 3] },
    };
    let v = pool.submit_share_at(&SerializedWitness, share, "share-1".to_string(), 1000).unwrap();
    assert!(v.is_block);
    assert_eq!(v.reward_units, 1_000_000);
    assert_eq!(v.difficulty, 31 * 256 * 1000);
    let stats = pool.get_miner_stats("bob").unwrap();
    assert_eq!(stats.blocks_found, 1);
    assert_eq!(stats.shares_valid, 1);
    let windows = pool.payout_windows();
    assert_eq!(windows.len(), 1);
    assert_eq!((windows[0].start, windows[0].end), (1000 - 24 * 3600, 1000));
}

#[test]
fn block_below_difficulty_rejected() {
    let mut pool = PoolCoordinator::new(PoolConfig::default());
    pool.new_job(job("J", vec![0u8; 32]));
    let share = ShareSubmission {
        job_id: "J".to_string(),
        miner_id: "bob".to_string(),
        share_type: ShareType::ValidBlock { nonce: 9, proof: vec![1, 2, 3] },
    };
    let err = pool.submit_share(&SerializedWitness, share).unwrap_err();
    assert!(matches!(err, PoolError::InsufficientDifficulty));
}

#[test]
fn maintenance_drops_shares_past_retention() {
    let mut pool = PoolCoordinator::new(PoolConfig::default());
    let j = job("J", vec![0xff; 32]);
    pool.new_job(j.clone());
    pool.submit_share_at(&SerializedWitness, valid_computation_share(&j, "a", 1), "old".to_string(), 0).unwrap();
    pool.submit_share_at(&SerializedWitness, valid_computation_share(&j, "a", 2), "new".to_string(), 100_000).unwrap();
    assert_eq!(pool.run_maintenance_at(172_800 + 50), 1);
    let rest = pool.store().get_shares_in_window(i64::MIN, i64::MAX);
    assert_eq!(rest.len(), 1);
    assert_eq!(rest[0].id, "new");
    assert_eq!(pool.run_maintenance_at(i64::MIN), 0);
}

#[test]
fn pool_stats_over_window() {
    let mut pool = PoolCoordinator::new(PoolConfig::default());
    let j = job("J", vec![0xff; 32]);
    pool.new_job(j.clone());
    pool.register_miner("a", "a");
    pool.submit_share_at(&SerializedWitness, valid_computation_share(&j, "a", 1), "s1".to_string(), 1000).unwrap();
    let block = ShareSubmission {
        job_id: "J".to_string(),
        miner_id: "b".to_string(),
        share_type: ShareType::ValidBlock { nonce: 2, proof: vec![9] },
    };
    let vb = pool.submit_share_at(&SerializedWitness, block, "s2".to_string(), 2000).unwrap();
    let shares = pool.store().get_shares_in_window(i64::MIN, i64::MAX);
    let total: u128 = shares.iter().map(|s| s.difficulty as u128).sum();
    let stats = pool.pool_stats_at(3000);
    assert_eq!(stats.share_count, 2);
    assert_eq!(stats.total_difficulty, total);
    assert_eq!(stats.average_share_difficulty as u128, total / 2);
    assert_eq!(stats.blocks_found_24h, 1);
    assert_eq!(stats.active_miners, 2);
    assert_eq!(stats.window_seconds, 86_400);
    assert_eq!(stats.pool_fee_bps, 200);
    assert!(vb.is_block);
    let later = pool.pool_stats_at(2000 + 86_400 + 1);
    assert_eq!(later.share_count, 0);
    assert_eq!(later.average_share_difficulty, 0);
}

#[test]
fn register_and_unregister_keep_records() {
    let mut pool = PoolCoordinator::new(PoolConfig::default());
    pool.register_miner("addr", "worker-1");
    pool.register_miner("addr", "worker-2");
    let m = pool.store().get_miner("addr").unwrap();
    assert_eq!(m.worker_name, "worker-2");
    assert!(m.is_active);
    pool.unregister_miner("worker-2");
    assert!(!pool.store().get_miner("addr").unwrap().is_active);
    assert!(matches!(pool.get_miner_stats("nobody"), Err(PoolError::MinerNotFound(a)) if a == "nobody"));
    let stats = pool.get_miner_stats("addr").unwrap();
    assert_eq!(stats.reputation_score, 1000);
}

#[test]
fn authorize_then_notify() {
    let mut pool = PoolCoordinator::new(PoolConfig::default());
    pool.new_job(job("J1", vec![0xab; 32]));
    let mut server = StratumServer::new(pool);
    server.on_connect(MinerConnection::new("c1".to_string(), "127.0.0.1:1".to_string()));
    let msg = request(Some(1), Some("mining.authorize"), Some(strs(&["alice", ""])));
    let out = server.on_message(&SerializedWitness, "c1", msg);
    assert_eq!(out.len(), 2);
    assert_eq!(out[0].id, Some(1));
    assert!(matches!(out[0].result, Some(JsonValue::Bool(true))));
    assert!(out[0].error.is_none());
    assert_eq!(out[1].id, None);
    assert_eq!(out[1].method.as_deref(), Some("mining.notify"));
    match &out[1].params {
        Some(JsonValue::Object(fs)) => {
            let get = |k: &str| fs.iter().find(|f: &&JsonField| f.key == k).map(|f| &f.value);
            assert!(matches!(get("job_id"), Some(JsonValue::Str(s)) if s == "J1"));
            assert!(matches!(get("block_commitment"), Some(JsonValue::Str(s)) if s == "00ff10"));
            assert!(matches!(get("target"), Some(JsonValue::Str(s)) if s == &"ab".repeat(32)));
            assert!(matches!(get("clean_jobs"), Some(JsonValue::Bool(true))));
        },
        _ => panic!("notify params"),
    }
    assert!(server.coordinator().store().get_miner("alice").is_some());
    let b = server.broadcast_new_job(&job("J2", vec![0; 32]));
    assert_eq!(b.recipients, vec!["c1".to_string()]);
}

#[test]
fn subscribe_returns_subscription() {
    let mut server = StratumServer::new(PoolCoordinator::new(PoolConfig::default()));
    server.on_connect(MinerConnection::new("c1".to_string(), "peer".to_string()));
    let out = server.on_message(&SerializedWitness, "c1", request(Some(3), Some("mining.subscribe"), Some(strs(&["agent"]))));
    assert_eq!(out.len(), 1);
    assert_eq!(out[0].id, Some(3));
    match &out[0].result {
        Some(JsonValue::Array(top)) => {
            assert_eq!(top.len(), 3);
            assert!(matches!(&top[1], JsonValue::Str(s) if s == "00000000"));
            assert!(matches!(&top[2], JsonValue::UInt(4)));
            match &top[0] {
                JsonValue::Array(subs) => match &subs[0] {
                    JsonValue::Array(pair) => {
                        assert!(matches!(&pair[0], JsonValue::Str(s) if s == "mining.notify"));
                        assert!(matches!(&pair[1], JsonValue::Str(s) if s.len() == 16
                            && s.chars().all(|c| c.is_ascii_hexdigit())));
                    },
                    _ => panic!("pair"),
                },
                _ => panic!("subscriptions"),
            }
        },
        _ => panic!("subscribe result"),
    }
    let b = server.broadcast_new_job(&job("J2", vec![0; 32]));
    assert!(b.recipients.is_empty());
}

#[test]
fn submit_through_session() {
    let mut pool = PoolCoordinator::new(PoolConfig::default());
    let j = job("J", vec![0xff; 32]);
    pool.new_job(j.clone());
    let mut server = StratumServer::new(pool);
    server.on_connect(MinerConnection::new("c1".to_string(), "peer".to_string()));
    let share = valid_computation_share(&j, "ignored", 42);
    let submit = || request(Some(5), Some("mining.submit"), Some(encode_submission(&share)));
    let early = server.on_message(&SerializedWitness, "c1", submit());
    assert_eq!(error_of(&early[0]).0, -32603);
    assert!(error_of(&early[0]).1.contains("Miner not found"));
    server.on_message(&SerializedWitness, "c1", request(Some(1), Some("mining.authorize"), Some(strs(&["alice"]))));
    let ok = server.on_message(&SerializedWitness, "c1", submit());
    assert_eq!(ok[0].id, Some(5));
    assert!(matches!(ok[0].result, Some(JsonValue::Bool(true))));
    let shares = server.coordinator().store().get_shares_in_window(i64::MIN, i64::MAX);
    assert_eq!(shares.len(), 1);
    assert_eq!(shares[0].miner_address, "alice");
    assert_eq!(shares[0].nonce, 42);
    let dup = server.on_message(&SerializedWitness, "c1", submit());
    assert_eq!(error_of(&dup[0]).0, -32603);
    assert!(error_of(&dup[0]).1.contains("Duplicate"));
    let mut stale = valid_computation_share(&j, "x", 1);
    stale.job_id = "deadbeef".to_string();
    let out = server.on_message(&SerializedWitness, "c1", request(Some(6), Some("mining.submit"), Some(encode_submission(&stale))));
    assert_eq!(error_of(&out[0]).0, -32603);
    assert!(error_of(&out[0]).1.contains("Job not found"));
    let status = server.on_message(&SerializedWitness, "c1", request(Some(8), Some("mining.get_status"), None));
    assert_eq!(status[0].id, Some(8));
    assert!(matches!(&status[0].result, Some(JsonValue::Object(fs)) if fs.len() == 8));
    server.on_disconnect("c1");
    assert!(!server.coordinator().store().get_miner("alice").unwrap().is_active);
}

#[test]
fn malformed_requests_get_error_codes() {
    let mut server = StratumServer::new(PoolCoordinator::new(PoolConfig::default()));
    let out = server.on_message(&SerializedWitness, "c", request(Some(1), None, None));
    assert_eq!(error_of(&out[0]), (-32600, "Invalid request: missing method".to_string()));
    let out = server.on_message(&SerializedWitness, "c", request(None, Some("mining.subscribe"), None));
    assert_eq!(error_of(&out[0]), (-32600, "Invalid request: missing id".to_string()));
    assert_eq!(out[0].id, None);
    let out = server.on_message(&SerializedWitness, "c", request(Some(2), Some("mining.dance"), None));
    assert_eq!(error_of(&out[0]), (-32601, "Unknown method: mining.dance".to_string()));
    assert_eq!(out[0].id, Some(2));
    let out = server.on_message(&SerializedWitness, "c", request(Some(3), Some("mining.authorize"), Some(JsonValue::Null)));
    assert_eq!(error_of(&out[0]), (-32602, "Invalid params".to_string()));
    let out = server.on_message(&SerializedWitness, "c", request(Some(4), Some("mining.authorize"), Some(JsonValue::Array(vec![JsonValue::UInt(1)]))));
    assert_eq!(error_of(&out[0]), (-32602, "Missing worker name".to_string()));
    let out = server.on_message(&SerializedWitness, "c", request(Some(5), Some("mining.submit"), None));
    assert_eq!(error_of(&out[0]), (-32602, "Invalid params".to_string()));
    let out = server.on_message(&SerializedWitness, "c", request(Some(6), Some("mining.submit"), Some(strs(&["x"]))));
    assert_eq!(error_of(&out[0]), (-32602, "Invalid submission format".to_string()));
}

#[test]
fn parse_request_reads_params() {
    let m = request(Some(9), Some("mining.authorize"), Some(strs(&["w", "pw"])));
    match m.parse_request() {
        Ok(StratumRequest::Authorize { id, worker_name, password }) => {
            assert_eq!(id, 9);
            assert_eq!(worker_name, "w");
            assert_eq!(password.as_deref(), Some("pw"));
        },
        _ => panic!("authorize"),
    }
    let s = request(Some(1), Some("mining.subscribe"), None);
    assert!(matches!(s.parse_request(), Ok(StratumRequest::Subscribe { id: 1, user_agent: None })));
    let share = ShareSubmission {
        job_id: "J".to_string(),
        miner_id: "m".to_string(),
        share_type: ShareType::ValidBlock { nonce: 77, proof: vec![5, 6] },
    };
    let sub = request(Some(2), Some("mining.submit"), Some(encode_submission(&share)));
    match sub.parse_request() {
        Ok(StratumRequest::Submit { id, worker_name, job_id, nonce, .. }) => {
            assert_eq!((id, worker_name.as_str(), job_id.as_str(), nonce), (2, "m", "J", 77));
        },
        _ => panic!("submit"),
    }
}

#[test]
fn to_message_fills_the_right_members() {
    let m = StratumResponse::Result { id: 4, result: JsonValue::Bool(true) }.to_message();
    assert_eq!(m.id, Some(4));
    assert!(m.method.is_none() && m.error.is_none());
    let n = StratumResponse::Notification { method: "mining.notify".to_string(), params: JsonValue::Null }.to_message();
    assert_eq!(n.id, None);
    assert_eq!(n.method.as_deref(), Some("mining.notify"));
}

#[test]
fn submission_json_round_trip() {
    let shares = vec![
        ShareSubmission {
            job_id: "job".to_string(),
            miner_id: "miner".to_string(),
            share_type: ShareType::ComputationProof { nonce: 42, witness_commitment: [9u8; 32], computation_steps: 1234 },
        },
        ShareSubmission {
            job_id: "".to_string(),
            miner_id: "m".to_string(),
            share_type: ShareType::ValidBlock { nonce: u64::MAX, proof: vec![] },
        },
    ];
    for s in shares {
        let first = encode_submission(&s);
        let back = decode_submission(&first).unwrap();
        let second = encode_submission(&back);
        assert_eq!(format!("{:?}", first), format!("{:?}", second));
    }
}

#[test]
fn decode_rejects_bad_bytes() {
    let s = ShareSubmission {
        job_id: "j".to_string(),
        miner_id: "m".to_string(),
        share_type: ShareType::ValidBlock { nonce: 1, proof: vec![1] },
    };
    let mut v = encode_submission(&s);
    if let JsonValue::Object(fs) = &mut v {
        if let JsonValue::Object(ts) = &mut fs[2].value {
            if let JsonValue::Object(inner) = &mut ts[0].value {
                inner[1].value = JsonValue::Array(vec![JsonValue::UInt(256)]);
            }
        }
    }
    assert!(decode_submission(&v).is_none());
}

#[test]
fn error_messages() {
    assert_eq!(PoolError::DuplicateShare.message(), "Duplicate share");
    assert_eq!(PoolError::InvalidProof.message(), "Invalid proof");
    assert_eq!(PoolError::InsufficientDifficulty.message(), "Insufficient difficulty");
    assert_eq!(PoolError::JobNotFound("x".to_string()).message(), "Job not found: x");
    assert_eq!(PoolError::MinerNotFound("y".to_string()).message(), "Miner not found: y");
    assert_eq!(PoolError::Database("d".to_string()).message(), "Database error: d");
    assert_eq!(PoolError::Other("o".to_string()).message(), "Other error: o");
    assert_eq!(PoolError::WebSocket("w".to_string()).message(), "WebSocket error: w");
    assert_eq!(PoolError::Serialization("s".to_string()).message(), "Serialization error: s");
    assert_eq!(PoolError::StratumProtocol("p".to_string()).message(), "Stratum protocol error: p");
    assert_eq!(PoolError::ShareValidation("v".to_string()).message(), "Share validation error: v");
    assert_eq!(PoolError::Payout("p".to_string()).message(), "Payout error: p");
    assert_eq!(PoolError::Configuration("c".to_string()).message(), "Configuration error: c");
}
