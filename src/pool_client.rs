//! The miner side of the Stratum dialect: the requests a pool client sends
//! and what it makes of the frames it receives.

use vstd::prelude::*;
use vstd::string::*;
use crate::json::{JsonField, JsonValue, bytes_json, encode_submission, encodes, field_of, get_field, json_to_bytes};
use crate::mining::PoolJob;
use crate::outside::{sha256, sha256_of};
use crate::types::{ShareSubmission, ShareType};

verus! {

/// What a received frame means to the client.
#[derive(Debug)]
pub enum ClientEvent {
    /// The pool handed out a job.
    NewJob(PoolJob),
    /// The pool accepted the client's authorization.
    Authorized,
    /// Nothing for the client to do.
    Ignored,
}

/// `v` reads as job `j`: an object whose first members of each name give
/// the job's fields, bytes as arrays of numbers.
pub open spec fn reads_as_job(v: JsonValue, j: PoolJob) -> bool {
    v matches JsonValue::Object(fs) && {
        &&& field_of(fs@, "id"@) matches Some(JsonValue::Str(s)) && s@ == j.id@
        &&& field_of(fs@, "block_commitment"@) matches Some(b) && bytes_json(b, j.block_commitment@)
        &&& field_of(fs@, "target"@) matches Some(t) && bytes_json(t, j.target@)
        &&& field_of(fs@, "share_target"@) matches Some(t) && bytes_json(t, j.share_target@)
        &&& field_of(fs@, "nonce_start"@) == Some(JsonValue::UInt(j.nonce_start))
        &&& field_of(fs@, "nonce_range"@) == Some(JsonValue::UInt(j.nonce_range))
    }
}

/// Whether `v` is an object whose first `result` member is `true`.
pub open spec fn accepts(v: JsonValue) -> bool {
    v matches JsonValue::Object(fs) && field_of(fs@, "result"@) == Some(JsonValue::Bool(true))
}

fn bytes_field(fs: &Vec<JsonField>, key: &str) -> (r: Option<Vec<u8>>)
    ensures
        match r {
            Some(b) => field_of(fs@, key@) matches Some(v) && bytes_json(v, b@),
            None => match field_of(fs@, key@) {
                Some(v) => forall|b: Seq<u8>| !bytes_json(v, b),
                None => true,
            },
        },
{
    match get_field(fs, key) {
        Some(v) => json_to_bytes(v),
        None => None,
    }
}

fn uint_field(fs: &Vec<JsonField>, key: &str) -> (r: Option<u64>)
    ensures
        match r {
            Some(n) => field_of(fs@, key@) == Some(JsonValue::UInt(n)),
            None => !(field_of(fs@, key@) matches Some(JsonValue::UInt(_))),
        },
{
    match get_field(fs, key) {
        Some(JsonValue::UInt(n)) => Some(*n),
        _ => None,
    }
}

/// Reads a job from its JSON form; `None` where `v` reads as none.
pub fn decode_pool_job(v: &JsonValue) -> (r: Option<PoolJob>)
    ensures
        match r {
            Some(j) => reads_as_job(*v, j),
            None => forall|j: PoolJob| !reads_as_job(*v, j),
        },
{
    let fs = match v {
        JsonValue::Object(fs) => fs,
        _ => {
            return None;
        },
    };
    let id = match get_field(fs, "id") {
        Some(JsonValue::Str(s)) => s.clone(),
        _ => {
            return None;
        },
    };
    let block_commitment = match bytes_field(fs, "block_commitment") {
        Some(b) => b,
        None => {
            return None;
        },
    };
    let target = match bytes_field(fs, "target") {
        Some(b) => b,
        None => {
            return None;
        },
    };
    let share_target = match bytes_field(fs, "share_target") {
        Some(b) => b,
        None => {
            return None;
        },
    };
    let nonce_start = match uint_field(fs, "nonce_start") {
        Some(n) => n,
        None => {
            return None;
        },
    };
    let nonce_range = match uint_field(fs, "nonce_range") {
        Some(n) => n,
        None => {
            return None;
        },
    };
    Some(PoolJob { id, block_commitment, target, share_target, nonce_start, nonce_range })
}

/// What a received frame with `method`, `id` and `params` means: a
/// `mining.notify` whose params read as a job hands out that job; a reply to
/// one of the client's requests whose params carry `result: true` confirms
/// the authorization; anything else, difficulty updates included, is ignored.
pub fn handle_stratum_message(method: &String, id: Option<u64>, params: &JsonValue) -> (r: ClientEvent)
    ensures
        if method@ == "mining.notify"@ {
            match r {
                ClientEvent::NewJob(j) => reads_as_job(*params, j),
                ClientEvent::Ignored => forall|j: PoolJob| !reads_as_job(*params, j),
                ClientEvent::Authorized => false,
            }
        } else if method@ == "mining.set_difficulty"@ {
            r is Ignored
        } else if id is Some && accepts(*params) {
            r is Authorized
        } else {
            r is Ignored
        },
{
    if *method == String::from_str("mining.notify") {
        match decode_pool_job(params) {
            Some(job) => ClientEvent::NewJob(job),
            None => ClientEvent::Ignored,
        }
    } else if *method == String::from_str("mining.set_difficulty") {
        ClientEvent::Ignored
    } else {
        match (id, params) {
            (Some(_), JsonValue::Object(fs)) => match get_field(fs, "result") {
                Some(JsonValue::Bool(true)) => ClientEvent::Authorized,
                _ => ClientEvent::Ignored,
            },
            _ => ClientEvent::Ignored,
        }
    }
}

/// A request the client sends: its id, method and params.
#[derive(Debug)]
pub struct ClientRequest {
    pub id: Option<u64>,
    pub method: String,
    pub params: JsonValue,
}

/// The authorization request, id 1: the worker name and its password, empty
/// where there is none.
pub fn authorize_request(worker_name: &String, worker_password: &Option<String>) -> (r: ClientRequest)
    ensures
        r.id == Some(1u64),
        r.method@ == "mining.authorize"@,
        r.params matches JsonValue::Array(ps) && ps@.len() == 2 && (ps@[0] matches JsonValue::Str(w) && w@
            == worker_name@) && (ps@[1] matches JsonValue::Str(p) && p@ == match worker_password {
            Some(p) => p@,
            None => ""@,
        }),
{
    let password = match worker_password {
        Some(p) => p.clone(),
        None => String::from_str(""),
    };
    ClientRequest {
        id: Some(1),
        method: String::from_str("mining.authorize"),
        params: JsonValue::Array(vec![JsonValue::Str(worker_name.clone()), JsonValue::Str(password)]),
    }
}

/// The subscription request, id 2, with no params.
pub fn subscribe_request() -> (r: ClientRequest)
    ensures
        r.id == Some(2u64),
        r.method@ == "mining.subscribe"@,
        r.params matches JsonValue::Array(ps) && ps@.len() == 0,
{
    ClientRequest { id: Some(2), method: String::from_str("mining.subscribe"), params: JsonValue::Array(Vec::new()) }
}

/// The request that submits `share` under request id `id`.
pub fn submit_request(share: &ShareSubmission, id: u64) -> (r: ClientRequest)
    ensures
        r.id == Some(id),
        r.method@ == "mining.submit"@,
        encodes(r.params, *share),
{
    ClientRequest { id: Some(id), method: String::from_str("mining.submit"), params: encode_submission(share) }
}

/// The computation-proof share for a witness found at `nonce`: committed by
/// the SHA-256 digest of the witness, one step per witness byte.
pub fn share_from_witness(job_id: String, miner_id: String, nonce: u64, witness: &[u8]) -> (r: ShareSubmission)
    ensures
        r.job_id == job_id,
        r.miner_id == miner_id,
        r.share_type matches ShareType::ComputationProof { nonce: n, witness_commitment: w, computation_steps: c }
            && n == nonce && w@ == sha256_of(witness@) && c == witness@.len(),
{
    ShareSubmission {
        job_id,
        miner_id,
        share_type: ShareType::ComputationProof {
            nonce,
            witness_commitment: sha256(witness),
            computation_steps: witness.len() as u64,
        },
    }
}

} // verus!
