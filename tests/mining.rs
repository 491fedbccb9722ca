use nockchain_pool_coordinator::mining::{MiningKeyConfig, MiningWire};

#[test]
fn wire_verbs() {
    assert_eq!(MiningWire::Mined.verb(), "mined");
    assert_eq!(MiningWire::Candidate.verb(), "candidate");
    assert_eq!(MiningWire::SetPubKey.verb(), "setpubkey");
    assert_eq!(MiningWire::Enable.verb(), "enable");
    assert_eq!(MiningWire::PoolCandidate.verb(), "pool-candidate");
    assert_eq!(MiningWire::ShareFound.verb(), "share-found");
}

#[test]
fn key_config_reads_share_m_and_keys() {
    let c = MiningKeyConfig::from_str("2,3:k1,k2,k3").unwrap();
    assert_eq!((c.share, c.m), (2, 3));
    assert_eq!(c.keys, vec!["k1", "k2", "k3"]);
    let single = MiningKeyConfig::from_str("1,1:key").unwrap();
    assert_eq!(single.keys, vec!["key"]);
    let plus = MiningKeyConfig::from_str("+4,5:").unwrap();
    assert_eq!((plus.share, plus.m), (4, 5));
    assert_eq!(plus.keys, vec![""]);
}

#[test]
fn key_config_errors() {
    assert_eq!(MiningKeyConfig::from_str("1,1").unwrap_err(), "Invalid format. Expected 'share,m:key1,key2,key3'");
    assert_eq!(MiningKeyConfig::from_str("1:2:3").unwrap_err(), "Invalid format. Expected 'share,m:key1,key2,key3'");
    assert_eq!(MiningKeyConfig::from_str("1:k").unwrap_err(), "Invalid share,m format");
    assert_eq!(MiningKeyConfig::from_str("x,1:k").unwrap_err(), "invalid digit found in string");
    assert_eq!(MiningKeyConfig::from_str(",1:k").unwrap_err(), "cannot parse integer from empty string");
    assert!(MiningKeyConfig::from_str("1,99999999999999999999:k").is_err());
}

use nockchain_pool_coordinator::json::{encode_submission, JsonField, JsonValue};
use nockchain_pool_coordinator::pool_client::{
    authorize_request, decode_pool_job, handle_stratum_message, share_from_witness, submit_request, subscribe_request,
    ClientEvent,
};
use nockchain_pool_coordinator::types::ShareType;
use sha2::{Digest, Sha256};

fn bytes(b: &[u8]) -> JsonValue {
    JsonValue::Array(b.iter().map(|x| JsonValue::UInt(*x as u64)).collect())
}

fn job_json() -> JsonValue {
    let f = |k: &str, v: JsonValue| JsonField { key: k.to_string(), value: v };
    JsonValue::Object(vec![
        f("id", JsonValue::Str("j7".to_string())),
        f("block_commitment", bytes(&[1, 2])),
        f("target", bytes(&[0xff])),
        f("share_target", bytes(&[])),
        f("nonce_start", JsonValue::UInt(10)),
        f("nonce_range", JsonValue::UInt(20)),
        f("extra", JsonValue::Null),
    ])
}

#[test]
fn client_reads_job_notifications() {
    let job = decode_pool_job(&job_json()).unwrap();
    assert_eq!(job.id, "j7");
    assert_eq!(job.block_commitment, vec![1, 2]);
    assert_eq!((job.nonce_start, job.nonce_range), (10, 20));
    match handle_stratum_message(&"mining.notify".to_string(), None, &job_json()) {
        ClientEvent::NewJob(j) => assert_eq!(j.target, vec![0xff]),
        _ => panic!("job"),
    }
    assert!(matches!(
        handle_stratum_message(&"mining.notify".to_string(), None, &JsonValue::Null),
        ClientEvent::Ignored
    ));
}

#[test]
fn client_sees_authorization() {
    let ok = JsonValue::Object(vec![JsonField { key: "result".to_string(), value: JsonValue::Bool(true) }]);
    assert!(matches!(handle_stratum_message(&"".to_string(), Some(1), &ok), ClientEvent::Authorized));
    assert!(matches!(handle_stratum_message(&"".to_string(), None, &ok), ClientEvent::Ignored));
    assert!(matches!(handle_stratum_message(&"mining.set_difficulty".to_string(), Some(1), &ok), ClientEvent::Ignored));
}

#[test]
fn client_requests() {
    let a = authorize_request(&"w".to_string(), &None);
    assert_eq!((a.id, a.method.as_str()), (Some(1), "mining.authorize"));
    assert!(matches!(&a.params, JsonValue::Array(ps) if matches!(&ps[1], JsonValue::Str(p) if p.is_empty())));
    let s = subscribe_request();
    assert_eq!((s.id, s.method.as_str()), (Some(2), "mining.subscribe"));
    let share = share_from_witness("j".to_string(), "m".to_string(), 5, b"witness");
    match &share.share_type {
        ShareType::ComputationProof { nonce, witness_commitment, computation_steps } => {
            assert_eq!(*nonce, 5);
            let expected: [u8; 32] = Sha256::digest(b"witness").into();
            assert_eq!(*witness_commitment, expected);
            assert_eq!(*computation_steps, 7);
        },
        _ => panic!("share"),
    }
    let sub = submit_request(&share, 9);
    assert_eq!(sub.id, Some(9));
    assert_eq!(format!("{:?}", sub.params), format!("{:?}", encode_submission(&share)));
}
