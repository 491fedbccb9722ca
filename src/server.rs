//! The Stratum server: the registry of connections and what each request
//! does to it and to the pool. Sending and receiving frames is left to the
//! caller, which hands in requests and delivers the replies in order.

use vstd::prelude::*;
use vstd::string::*;
use crate::computation_proof::WitnessOracle;
use crate::coordinator::{PoolCoordinator, pool_stats_spec, register_outcome, submit_outcome};
use crate::error::{PoolError, error_message};
use crate::json::{JsonField, JsonValue};
use crate::outside::{hex_encode, hex_lower, random_u64};
use crate::protocol::{
    INTERNAL_ERROR,
    message_of,
    parse_outcome,
    ShareSubmissionData,
    StratumError,
    StratumMessage,
    StratumRequest,
    StratumResponse,
};
use crate::schema::{JobTemplate, PoolStats};
use crate::store::job_with;
use crate::types::{ShareSubmission, ShareType, ShareValidation};

verus! {

/// One miner's connection, as the server tracks it.
#[derive(Debug, Clone)]
pub struct MinerConnection {
    pub id: String,
    /// The peer's network address, as text.
    pub address: String,
    pub worker_name: Option<String>,
    pub subscribed: bool,
    pub authorized: bool,
}

impl MinerConnection {
    /// A connection that has neither subscribed nor authorized yet.
    pub fn new(id: String, address: String) -> (r: Self)
        ensures
            r.id == id,
            r.address == address,
            r.worker_name is None,
            !r.subscribed,
            !r.authorized,
    {
        MinerConnection { id, address, worker_name: None, subscribed: false, authorized: false }
    }
}

/// A job notification and the connections it goes to.
#[derive(Debug)]
pub struct JobBroadcast {
    pub notification: StratumResponse,
    pub recipients: Vec<String>,
}

/// The members of a job notification: the job id, the block commitment and
/// both targets in lowercase hex, and `clean_jobs`.
pub open spec fn is_notify_params(p: JsonValue, job: JobTemplate) -> bool {
    p matches JsonValue::Object(fs) && fs@.len() == 5 && {
        &&& fs@[0].key@ == "job_id"@ && (fs@[0].value matches JsonValue::Str(s) && s@ == job.id@)
        &&& fs@[1].key@ == "block_commitment"@ && (fs@[1].value matches JsonValue::Str(s) && s@ == hex_lower(
            job.block_commitment@,
        ))
        &&& fs@[2].key@ == "target"@ && (fs@[2].value matches JsonValue::Str(s) && s@ == hex_lower(job.target@))
        &&& fs@[3].key@ == "share_target"@ && (fs@[3].value matches JsonValue::Str(s) && s@ == hex_lower(
            job.share_target@,
        ))
        &&& fs@[4].key@ == "clean_jobs"@ && fs@[4].value == JsonValue::Bool(true)
    }
}

/// `r` notifies miners of `job`.
pub open spec fn is_notify(r: StratumResponse, job: JobTemplate) -> bool {
    r matches StratumResponse::Notification { method, params } && method@ == "mining.notify"@ && is_notify_params(
        params,
        job,
    )
}

/// `r` answers request `id` with `true`.
pub open spec fn is_true_result(r: StratumResponse, id: u64) -> bool {
    r matches StratumResponse::Result { id: i, result } && i == id && result == JsonValue::Bool(true)
}

/// `r` answers request `id` with an internal error showing `e`.
pub open spec fn is_internal_error(r: StratumResponse, id: u64, e: PoolError) -> bool {
    r matches StratumResponse::Error { id: i, error } && i == id && error.code == INTERNAL_ERROR && error.message@
        == error_message(e) && error.data is None
}

/// The index of the connection with id `id`.
pub open spec fn conn_index(cs: Seq<MinerConnection>, id: Seq<char>) -> Option<int> {
    if exists|i: int| 0 <= i < cs.len() && (#[trigger] cs[i]).id@ == id {
        Some(choose|i: int| 0 <= i < cs.len() && (#[trigger] cs[i]).id@ == id)
    } else {
        None
    }
}

/// The server: the pool coordinator and the live connections.
pub struct StratumServer {
    coordinator: PoolCoordinator,
    connections: Vec<MinerConnection>,
}

fn field(key: &str, value: JsonValue) -> (r: JsonField)
    ensures
        r.key@ == key@,
        r.value == value,
{
    JsonField { key: String::from_str(key), value }
}

/// The notification that hands `job` to miners.
pub fn job_notification(job: &JobTemplate) -> (r: StratumResponse)
    ensures
        is_notify(r, *job),
{
    let params = JsonValue::Object(
        vec![
            field("job_id", JsonValue::Str(job.id.clone())),
            field("block_commitment", JsonValue::Str(hex_encode(job.block_commitment.as_slice()))),
            field("target", JsonValue::Str(hex_encode(job.target.as_slice()))),
            field("share_target", JsonValue::Str(hex_encode(job.share_target.as_slice()))),
            field("clean_jobs", JsonValue::Bool(true)),
        ],
    );
    StratumResponse::Notification { method: String::from_str("mining.notify"), params }
}

/// Big-endian bytes of a 64-bit value.
fn u64_be_bytes(x: u64) -> (r: Vec<u8>)
    ensures
        r@.len() == 8,
{
    let mut out: Vec<u8> = Vec::new();
    let mut shift: u64 = 64;
    while shift > 0
        invariant
            shift % 8 == 0,
            shift <= 64,
            out@.len() == (64 - shift) / 8,
        decreases shift,
    {
        shift = shift - 8;
        out.push(((x >> shift) & 0xff) as u8);
    }
    out
}

/// The result of a subscribe request: the notification subscription with
/// its id, the first extra nonce, and the size of the second.
pub open spec fn is_subscribe_result(v: JsonValue) -> bool {
    v matches JsonValue::Array(top) && top@.len() == 3 && {
        &&& top@[0] matches JsonValue::Array(subs) && subs@.len() == 1 && (subs@[0] matches JsonValue::Array(pair)
            && pair@.len() == 2 && (pair@[0] matches JsonValue::Str(m) && m@ == "mining.notify"@) && (
        pair@[1] matches JsonValue::Str(sid) && sid@.len() == 16))
        &&& top@[1] matches JsonValue::Str(e1) && e1@ == "00000000"@
        &&& top@[2] == JsonValue::UInt(4)
    }
}

fn subscribe_result() -> (r: JsonValue)
    ensures
        is_subscribe_result(r),
{
    let bytes = u64_be_bytes(random_u64());
    proof {
        lemma_hex_len(bytes@);
    }
    let sid = hex_encode(bytes.as_slice());
    let pair = vec![JsonValue::Str(String::from_str("mining.notify")), JsonValue::Str(sid)];
    let subs = vec![JsonValue::Array(pair)];
    JsonValue::Array(vec![JsonValue::Array(subs), JsonValue::Str(String::from_str("00000000")), JsonValue::UInt(4)])
}

proof fn lemma_hex_len(b: Seq<u8>)
    ensures
        hex_lower(b).len() == 2 * b.len(),
    decreases b.len(),
{
    if b.len() > 0 {
        lemma_hex_len(b.drop_first());
    }
}

/// The members of a status result: the pool statistics as numbers. The
/// hashrate is the window's total difficulty per second, floored and held
/// at `u64::MAX`.
pub open spec fn is_stats_json(v: JsonValue, s: PoolStats) -> bool {
    v matches JsonValue::Object(fs) && fs@.len() == 8 && {
        &&& fs@[0].key@ == "total_hashrate"@ && fs@[0].value == JsonValue::UInt(
            (if s.window_seconds == 0 { 0 } else {
                let h = s.total_difficulty / (s.window_seconds as u128);
                if h > u64::MAX { u64::MAX as int } else { h as int }
            }) as u64,
        )
        &&& fs@[1].key@ == "active_miners"@ && fs@[1].value == JsonValue::UInt(s.active_miners)
        &&& fs@[2].key@ == "share_count"@ && fs@[2].value == JsonValue::UInt(s.share_count)
        &&& fs@[3].key@ == "window_seconds"@ && fs@[3].value == JsonValue::UInt(s.window_seconds)
        &&& fs@[4].key@ == "average_share_difficulty"@ && fs@[4].value == JsonValue::UInt(s.average_share_difficulty)
        &&& fs@[5].key@ == "blocks_found_24h"@ && fs@[5].value == JsonValue::UInt(s.blocks_found_24h)
        &&& fs@[6].key@ == "total_paid_24h"@ && fs@[6].value == JsonValue::UInt(s.total_paid_24h)
        &&& fs@[7].key@ == "pool_fee_bps"@ && fs@[7].value == JsonValue::UInt(s.pool_fee_bps)
    }
}

/// Pool statistics as a JSON object.
pub fn stats_json(s: &PoolStats) -> (r: JsonValue)
    ensures
        is_stats_json(r, *s),
{
    let hashrate: u64 = if s.window_seconds == 0 {
        0
    } else {
        let h = s.total_difficulty / (s.window_seconds as u128);
        if h > u64::MAX as u128 { u64::MAX } else { h as u64 }
    };
    JsonValue::Object(
        vec![
            field("total_hashrate", JsonValue::UInt(hashrate)),
            field("active_miners", JsonValue::UInt(s.active_miners)),
            field("share_count", JsonValue::UInt(s.share_count)),
            field("window_seconds", JsonValue::UInt(s.window_seconds)),
            field("average_share_difficulty", JsonValue::UInt(s.average_share_difficulty)),
            field("blocks_found_24h", JsonValue::UInt(s.blocks_found_24h)),
            field("total_paid_24h", JsonValue::UInt(s.total_paid_24h)),
            field("pool_fee_bps", JsonValue::UInt(s.pool_fee_bps)),
        ],
    )
}

impl StratumServer {
    pub closed spec fn coordinator_view(&self) -> PoolCoordinator {
        self.coordinator
    }

    /// The live connections, in order of arrival.
    pub closed spec fn connections_view(&self) -> Seq<MinerConnection> {
        self.connections@
    }

    /// The coordinator holds together and connection ids are distinct.
    pub closed spec fn wf(&self) -> bool {
        &&& self.coordinator.wf()
        &&& forall|i: int, j: int|
            0 <= i < self.connections@.len() && 0 <= j < self.connections@.len() && i != j ==> (
            #[trigger] self.connections@[i]).id@ != (#[trigger] self.connections@[j]).id@
    }

    /// A server with no connections.
    pub fn new(coordinator: PoolCoordinator) -> (r: Self)
        requires
            coordinator.wf(),
        ensures
            r.wf(),
            r.coordinator_view() == coordinator,
            r.connections_view().len() == 0,
    {
        StratumServer { coordinator, connections: Vec::new() }
    }

    /// The pool coordinator, for reading.
    pub fn coordinator(&self) -> (r: &PoolCoordinator)
        ensures
            *r == self.coordinator_view(),
    {
        &self.coordinator
    }

    /// The pool coordinator, for upstream work such as new jobs.
    pub fn coordinator_mut(&mut self) -> (r: &mut PoolCoordinator)
        requires
            old(self).wf(),
        ensures
            *r == old(self).coordinator_view(),
            final(r).wf() ==> final(self).wf(),
            final(self).coordinator_view() == *final(r),
            final(self).connections_view() == old(self).connections_view(),
    {
        &mut self.coordinator
    }

    fn find(&self, id: &String) -> (r: Option<usize>)
        ensures
            match r {
                Some(i) => i < self.connections@.len() && self.connections@[i as int].id@ == id@,
                None => forall|k: int| 0 <= k < self.connections@.len() ==> (#[trigger] self.connections@[k]).id@ != id@,
            },
    {
        let mut i: usize = 0;
        while i < self.connections.len()
            invariant
                i <= self.connections@.len(),
                forall|k: int| 0 <= k < i ==> (#[trigger] self.connections@[k]).id@ != id@,
            decreases self.connections@.len() - i,
        {
            if self.connections[i].id == *id {
                return Some(i);
            }
            i = i + 1;
        }
        None
    }

    /// Registers a new connection; one with the same id is replaced.
    pub fn on_connect(&mut self, connection: MinerConnection)
        requires
            old(self).wf(),
        ensures
            final(self).wf(),
            final(self).connections_view().contains(connection),
            final(self).coordinator_view() == old(self).coordinator_view(),
    {
        let ghost c = connection;
        match self.find(&connection.id) {
            Some(i) => {
                self.connections.set(i, connection);
                proof {
                    assert(self.connections@[i as int] == c);
                    assert forall|a: int, b: int|
                        0 <= a < self.connections@.len() && 0 <= b < self.connections@.len() && a != b implies (
                    #[trigger] self.connections@[a]).id@ != (#[trigger] self.connections@[b]).id@ by {
                        assert(old(self).connections@[a].id@ != old(self).connections@[b].id@);
                    }
                }
            },
            None => {
                self.connections.push(connection);
                proof {
                    assert(self.connections@[self.connections@.len() - 1] == c);
                }
            },
        }
    }

    /// Forgets a connection; its miner, if it had authorized, is marked
    /// inactive.
    pub fn on_disconnect(&mut self, connection_id: &str)
        requires
            old(self).wf(),
        ensures
            final(self).wf(),
            forall|k: int|
                0 <= k < final(self).connections_view().len() ==> (#[trigger] final(self).connections_view()[k]).id@
                    != connection_id@,
    {
        let id = String::from_str(connection_id);
        match self.find(&id) {
            Some(i) => {
                let c = self.connections.remove(i);
                proof {
                    assert forall|k: int| 0 <= k < self.connections@.len() implies (
                    #[trigger] self.connections@[k]).id@ != connection_id@ by {
                        if k < i {
                            assert(self.connections@[k] == old(self).connections@[k]);
                            assert(k != i);
                        } else {
                            assert(self.connections@[k] == old(self).connections@[k + 1]);
                        }
                    }
                    assert forall|a: int, b: int|
                        0 <= a < self.connections@.len() && 0 <= b < self.connections@.len() && a != b implies (
                    #[trigger] self.connections@[a]).id@ != (#[trigger] self.connections@[b]).id@ by {
                        let a0 = if a < i { a } else { a + 1 };
                        let b0 = if b < i { b } else { b + 1 };
                        assert(self.connections@[a] == old(self).connections@[a0]);
                        assert(self.connections@[b] == old(self).connections@[b0]);
                    }
                }
                match &c.worker_name {
                    Some(w) => self.coordinator.unregister_miner(w.as_str()),
                    None => {},
                }
            },
            None => {},
        }
    }

    /// Handles one request from connection `connection_id` and returns the
    /// frames to send back, in order: first the response, which echoes the
    /// request's id, then, after a successful authorize, the current job.
    /// Submitting requires an authorized connection; a refused share is
    /// answered with an internal error that shows why.
    pub fn handle_stratum_request<O: WitnessOracle>(
        &mut self,
        oracle: &O,
        connection_id: &str,
        request: StratumRequest,
    ) -> (r: Vec<StratumResponse>)
        requires
            old(self).wf(),
        ensures
            final(self).wf(),
            handle_outcome(*old(self), *final(self), *oracle, connection_id@, request, r@),
    {
        let ghost req = request;
        let conn_id = String::from_str(connection_id);
        let index = self.find(&conn_id);
        proof {
            let cs = old(self).connections@;
            match index {
                Some(i) => {
                    assert(exists|k: int| 0 <= k < cs.len() && (#[trigger] cs[k]).id@ == connection_id@);
                    let k = choose|k: int| 0 <= k < cs.len() && (#[trigger] cs[k]).id@ == connection_id@;
                    assert(k == i as int);
                },
                None => {},
            }
        }
        match request {
            StratumRequest::Subscribe { id, .. } => {
                match index {
                    Some(i) => {
                        let mut c = copy_connection(&self.connections[i]);
                        c.subscribed = true;
                        self.set_connection(i, c);
                    },
                    None => {},
                }
                let result = subscribe_result();
                let mut out: Vec<StratumResponse> = Vec::new();
                out.push(StratumResponse::Result { id, result });
                assert(handle_outcome(*old(self), *self, *oracle, connection_id@, req, out@));
                out
            },
            StratumRequest::Authorize { id, worker_name, .. } => {
                match index {
                    Some(i) => {
                        let mut c = copy_connection(&self.connections[i]);
                        c.worker_name = Some(worker_name.clone());
                        c.authorized = true;
                        self.set_connection(i, c);
                    },
                    None => {},
                }
                self.coordinator.register_miner(worker_name.as_str(), worker_name.as_str());
                let mut out: Vec<StratumResponse> = Vec::new();
                out.push(StratumResponse::Result { id, result: JsonValue::Bool(true) });
                match self.coordinator.get_current_job() {
                    Some(job) => {
                        out.push(job_notification(job));
                    },
                    None => {},
                }
                assert(handle_outcome(*old(self), *self, *oracle, connection_id@, req, out@));
                out
            },
            StratumRequest::Submit { id, job_id, nonce, share_data, .. } => {
                let worker = match index {
                    Some(i) => match &self.connections[i].worker_name {
                        Some(w) => Some(w.clone()),
                        None => None,
                    },
                    None => None,
                };
                let mut out: Vec<StratumResponse> = Vec::new();
                match worker {
                    None => {
                        let e = PoolError::MinerNotFound(conn_id);
                        out.push(StratumResponse::Error { id, error: internal_error(&e) });
                        assert(is_internal_error(out@[0], id, e));
                    },
                    Some(w) => {
                        let share_type = match share_data {
                            ShareSubmissionData::ComputationProof { witness_commitment, computation_steps } => {
                                ShareType::ComputationProof { nonce, witness_commitment, computation_steps }
                            },
                            ShareSubmissionData::ValidBlock { proof } => ShareType::ValidBlock { nonce, proof },
                        };
                        let submission = ShareSubmission { job_id, miner_id: w, share_type };
                        let ghost sub = submission;
                        let ghost c0 = self.coordinator;
                        let res = self.coordinator.submit_share(oracle, submission);
                        match &res {
                            Ok(_) => {
                                out.push(StratumResponse::Result { id, result: JsonValue::Bool(true) });
                            },
                            Err(e) => {
                                out.push(StratumResponse::Error { id, error: internal_error(e) });
                                assert(is_internal_error(out@[0], id, *e));
                            },
                        }
                        proof {
                            let (sid, now) = choose|sid: String, now: i64|
                                submit_outcome(c0, self.coordinator, *oracle, sub, sid, now, res);
                            assert(submit_outcome(
                                old(self).coordinator_view(),
                                self.coordinator_view(),
                                *oracle,
                                sub,
                                sid,
                                now,
                                res,
                            ));
                        }
                    },
                }
                assert(handle_outcome(*old(self), *self, *oracle, connection_id@, req, out@));
                out
            },
            StratumRequest::GetStatus { id } => {
                let stats = self.coordinator.get_pool_stats();
                let mut out: Vec<StratumResponse> = Vec::new();
                out.push(StratumResponse::Result { id, result: stats_json(&stats) });
                proof {
                    let now = choose|now: i64|
                        stats == pool_stats_spec(old(self).coordinator.store_view(), old(self).coordinator.config_view(), now)
                            && self.coordinator.store_view().pool_stats_view() == Some(stats);
                    assert(is_stats_json(out@[0]->Result_result, pool_stats_spec(
                        old(self).coordinator.store_view(),
                        old(self).coordinator.config_view(),
                        now,
                    )));
                }
                assert(handle_outcome(*old(self), *self, *oracle, connection_id@, req, out@));
                out
            },
        }
    }

    /// The notification of a new job and the authorized connections it goes
    /// to, in order of arrival. A failed delivery to one does not hold up the
    /// others.
    pub fn broadcast_new_job(&self, job: &JobTemplate) -> (r: JobBroadcast)
        ensures
            is_notify(r.notification, *job),
            r.recipients@.map_values(|id: String| id@) == authorized_ids(self.connections_view()),
    {
        let mut recipients: Vec<String> = Vec::new();
        let mut i: usize = 0;
        while i < self.connections.len()
            invariant
                i <= self.connections@.len(),
                recipients@.map_values(|id: String| id@) == authorized_ids(self.connections@.take(i as int)),
            decreases self.connections@.len() - i,
        {
            proof {
                assert(self.connections@.take(i as int + 1).drop_last() == self.connections@.take(i as int));
            }
            if self.connections[i].authorized {
                recipients.push(self.connections[i].id.clone());
                proof {
                    assert(recipients@.map_values(|id: String| id@) =~= authorized_ids(self.connections@.take(i as int)).push(
                        self.connections@[i as int].id@,
                    ));
                }
            }
            i = i + 1;
        }
        assert(self.connections@.take(i as int) == self.connections@);
        JobBroadcast { notification: job_notification(job), recipients }
    }

    fn set_connection(&mut self, i: usize, c: MinerConnection)
        requires
            old(self).wf(),
            i < old(self).connections@.len(),
            c.id@ == old(self).connections@[i as int].id@,
        ensures
            final(self).wf(),
            final(self).connections@ == old(self).connections@.update(i as int, c),
            final(self).coordinator == old(self).coordinator,
    {
        self.connections.set(i, c);
        proof {
            assert forall|a: int, b: int|
                0 <= a < self.connections@.len() && 0 <= b < self.connections@.len() && a != b implies (
            #[trigger] self.connections@[a]).id@ != (#[trigger] self.connections@[b]).id@ by {
                assert(old(self).connections@[a].id@ != old(self).connections@[b].id@);
            }
        }
    }

    /// Handles one message from connection `connection_id`: a message that is
    /// no valid request is answered with its error, echoing whatever id it
    /// carried; a request is handled and its replies returned as messages,
    /// the response first.
    pub fn on_message<O: WitnessOracle>(&mut self, oracle: &O, connection_id: &str, message: StratumMessage) -> (r: Vec<
        StratumMessage,
    >)
        requires
            old(self).wf(),
        ensures
            final(self).wf(),
            r@.len() >= 1,
            r@[0].id == message.id,
            (exists|e: StratumError| parse_outcome(message, Err(e))) ==> exists|e: StratumError|
                parse_outcome(message, Err(e)) && r@ == seq![
                    StratumMessage { id: message.id, method: None, params: None, result: None, error: Some(e) },
                ] && *final(self) == *old(self),
            !(exists|e: StratumError| parse_outcome(message, Err(e))) ==> exists|
                q: StratumRequest,
                rs: Seq<StratumResponse>,
            |
                parse_outcome(message, Ok(q)) && handle_outcome(*old(self), *final(self), *oracle, connection_id@, q, rs)
                    && r@ == rs.map_values(|x: StratumResponse| message_of(x)),
    {
        let ghost msg = message;
        let parsed = message.parse_request();
        match parsed {
            Err(e) => {
                let ghost ge = e;
                let mut out: Vec<StratumMessage> = Vec::new();
                out.push(StratumMessage { id: message.id, method: None, params: None, result: None, error: Some(e) });
                assert(out@ =~= seq![
                    StratumMessage { id: msg.id, method: None, params: None, result: None, error: Some(ge) },
                ]);
                out
            },
            Ok(request) => {
                let ghost q = request;
                proof {
                    assert forall|e: StratumError| !parse_outcome(msg, Err(e)) by {
                        lemma_parse_outcome_unique(msg, parsed, Err(e));
                    }
                    lemma_parse_id(msg, parsed);
                }
                let mut replies = self.handle_stratum_request(oracle, connection_id, request);
                let ghost rs = replies@;
                let mut out: Vec<StratumMessage> = Vec::new();
                let ghost mut k: int = 0;
                while replies.len() > 0
                    invariant
                        0 <= k,
                        k + replies@.len() == rs.len(),
                        replies@ == rs.subrange(k, rs.len() as int),
                        out@ == rs.take(k).map_values(|x: StratumResponse| message_of(x)),
                    decreases replies@.len(),
                {
                    let m = replies.remove(0);
                    out.push(m.to_message());
                    proof {
                        assert(rs.take(k + 1) =~= rs.take(k).push(rs[k]));
                        assert(replies@ =~= rs.subrange(k + 1, rs.len() as int));
                        k = k + 1;
                    }
                }
                proof {
                    assert(rs.take(k) =~= rs);
                    assert(out@[0] == message_of(rs[0]));
                }
                out
            },
        }
    }
}

/// A well-formed server holds a well-formed coordinator, and so a
/// well-formed state.
pub proof fn lemma_server_wf(s: StratumServer)
    requires
        s.wf(),
    ensures
        s.coordinator_view().wf(),
        s.coordinator_view().store_view().wf(),
{
    crate::coordinator::lemma_coordinator_wf(s.coordinator_view());
}

/// The worker name of the connection with id `id`, if it has authorized.
pub open spec fn worker_of(cs: Seq<MinerConnection>, id: Seq<char>) -> Option<String> {
    match conn_index(cs, id) {
        Some(k) => cs[k].worker_name,
        None => None,
    }
}

/// The submission a submit request makes for worker `w`.
pub open spec fn submission_for(job_id: String, w: String, nonce: u64, data: ShareSubmissionData) -> ShareSubmission {
    ShareSubmission {
        job_id,
        miner_id: w,
        share_type: match data {
            ShareSubmissionData::ComputationProof { witness_commitment, computation_steps } => {
                ShareType::ComputationProof { nonce, witness_commitment, computation_steps }
            },
            ShareSubmissionData::ValidBlock { proof } => ShareType::ValidBlock { nonce, proof },
        },
    }
}

/// What handling `request` from connection `cid` does, from server `s0` to
/// `s1`, with replies `r`: the response first, echoing the request's id.
/// - Subscribe answers with a subscription and leaves the pool as it was.
/// - Authorize records the worker on the connection, registers the miner
///   under the worker name, answers `true`, then sends the current job.
/// - Submit, from an authorized connection, submits the request's work under
///   the connection's worker name: `true` where it is accepted, else an
///   internal error showing why. From any other connection it is refused
///   with `MinerNotFound` and the pool is left as it was.
/// - GetStatus answers with the pool statistics over the window ending at
///   some time, which are recorded; the ledger, miners, jobs and
///   reputations stay as they were.
pub open spec fn handle_outcome<O: WitnessOracle>(
    s0: StratumServer,
    s1: StratumServer,
    oracle: O,
    cid: Seq<char>,
    request: StratumRequest,
    r: Seq<StratumResponse>,
) -> bool {
    let c0 = s0.coordinator_view();
    let c1 = s1.coordinator_view();
    &&& r.len() >= 1
    &&& response_id(r[0]) == Some(request_id(request))
    &&& match request {
        StratumRequest::Subscribe { id, .. } => {
            &&& r.len() == 1
            &&& r[0] matches StratumResponse::Result { id: i, result } && i == id && is_subscribe_result(result)
            &&& c1 == c0
        },
        StratumRequest::Authorize { id, worker_name, .. } => {
            &&& is_true_result(r[0], id)
            &&& match conn_index(s0.connections_view(), cid) {
                Some(k) => s1.connections_view()[k].authorized && s1.connections_view()[k].worker_name == Some(
                    worker_name,
                ),
                None => true,
            }
            &&& register_outcome(c0, c1, worker_name@, worker_name@)
            &&& match c1.store_view().current_job_view() {
                Some(jid) => match job_with(c1.store_view().jobs_view(), jid) {
                    Some(job) => r.len() == 2 && is_notify(r[1], job),
                    None => r.len() == 1,
                },
                None => r.len() == 1,
            }
        },
        StratumRequest::Submit { id, job_id, nonce, share_data, .. } => {
            &&& r.len() == 1
            &&& match worker_of(s0.connections_view(), cid) {
                Some(w) => exists|res: Result<ShareValidation, PoolError>, sid: String, now: i64|
                    {
                        &&& submit_outcome(c0, c1, oracle, submission_for(job_id, w, nonce, share_data), sid, now, res)
                        &&& match res {
                            Ok(_) => is_true_result(r[0], id),
                            Err(e) => is_internal_error(r[0], id, e),
                        }
                    },
                None => {
                    &&& c1 == c0
                    &&& exists|e: PoolError|
                        is_internal_error(r[0], id, e) && (e matches PoolError::MinerNotFound(c) && c@ == cid)
                },
            }
        },
        StratumRequest::GetStatus { id } => {
            let st0 = c0.store_view();
            let st1 = c1.store_view();
            &&& r.len() == 1
            &&& exists|now: i64|
                {
                    &&& r[0] matches StratumResponse::Result { id: i, result } && i == id && is_stats_json(
                        result,
                        #[trigger] pool_stats_spec(st0, c0.config_view(), now),
                    )
                    &&& st1.pool_stats_view() == Some(pool_stats_spec(st0, c0.config_view(), now))
                }
            &&& st1.shares_view() == st0.shares_view()
            &&& st1.miners_view() == st0.miners_view()
            &&& st1.jobs_view() == st0.jobs_view()
            &&& st1.reputations_view() == st0.reputations_view()
            &&& c1.config_view() == c0.config_view()
        },
    }
}

/// Ids of the authorized connections, in order.
pub open spec fn authorized_ids(cs: Seq<MinerConnection>) -> Seq<Seq<char>>
    decreases cs.len(),
{
    if cs.len() == 0 {
        Seq::empty()
    } else if cs.last().authorized {
        authorized_ids(cs.drop_last()).push(cs.last().id@)
    } else {
        authorized_ids(cs.drop_last())
    }
}

/// The id a request carries.
pub open spec fn request_id(r: StratumRequest) -> u64 {
    match r {
        StratumRequest::Subscribe { id, .. } => id,
        StratumRequest::Authorize { id, .. } => id,
        StratumRequest::Submit { id, .. } => id,
        StratumRequest::GetStatus { id } => id,
    }
}

/// The id a response echoes; a notification has none.
pub open spec fn response_id(r: StratumResponse) -> Option<u64> {
    match r {
        StratumResponse::Result { id, .. } => Some(id),
        StratumResponse::Error { id, .. } => Some(id),
        StratumResponse::Notification { .. } => None,
    }
}

proof fn lemma_parse_outcome_unique(m: StratumMessage, a: Result<StratumRequest, StratumError>, b: Result<StratumRequest, StratumError>)
    requires
        parse_outcome(m, a),
        a is Ok,
        b is Err,
    ensures
        !parse_outcome(m, b),
{
}

proof fn lemma_parse_id(m: StratumMessage, a: Result<StratumRequest, StratumError>)
    requires
        parse_outcome(m, a),
        a is Ok,
    ensures
        m.id == Some(request_id(a->Ok_0)),
{
}

fn copy_connection(c: &MinerConnection) -> (r: MinerConnection)
    ensures
        r == *c,
{
    MinerConnection {
        id: c.id.clone(),
        address: c.address.clone(),
        worker_name: match &c.worker_name {
            Some(w) => Some(w.clone()),
            None => None,
        },
        subscribed: c.subscribed,
        authorized: c.authorized,
    }
}

fn internal_error(e: &PoolError) -> (r: StratumError)
    ensures
        r.code == INTERNAL_ERROR,
        r.message@ == error_message(*e),
        r.data is None,
{
    StratumError { code: INTERNAL_ERROR, message: e.message(), data: None }
}

} // verus!
