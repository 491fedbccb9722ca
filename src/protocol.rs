//! The Stratum wire messages and the reading of client requests.

use vstd::prelude::*;
use vstd::string::*;
use crate::json::{JsonValue, decode_submission, reads_as};
use crate::types::{ShareSubmission, ShareType};

verus! {

/// One frame of the Stratum dialect: a request, a response or a notification.
#[derive(Debug)]
pub struct StratumMessage {
    pub id: Option<u64>,
    pub method: Option<String>,
    pub params: Option<JsonValue>,
    pub result: Option<JsonValue>,
    pub error: Option<StratumError>,
}

/// A JSON-RPC style error object.
#[derive(Debug)]
pub struct StratumError {
    pub code: i32,
    pub message: String,
    pub data: Option<JsonValue>,
}

/// A client request, read from a message.
#[derive(Debug)]
pub enum StratumRequest {
    Subscribe { id: u64, user_agent: Option<String> },
    Authorize { id: u64, worker_name: String, password: Option<String> },
    Submit { id: u64, worker_name: String, job_id: String, nonce: u64, share_data: ShareSubmissionData },
    GetStatus { id: u64 },
}

/// The work carried by a submit request, apart from its nonce.
#[derive(Debug, Clone)]
pub enum ShareSubmissionData {
    ComputationProof { witness_commitment: [u8; 32], computation_steps: u64 },
    ValidBlock { proof: Vec<u8> },
}

/// What the server sends: a response to request `id`, or a notification.
#[derive(Debug)]
pub enum StratumResponse {
    Result { id: u64, result: JsonValue },
    Error { id: u64, error: StratumError },
    Notification { method: String, params: JsonValue },
}

/// Invalid request: missing `id` or `method`.
pub const INVALID_REQUEST: i32 = -32600;

/// Unknown method.
pub const METHOD_NOT_FOUND: i32 = -32601;

/// Malformed params.
pub const INVALID_PARAMS: i32 = -32602;

/// Internal error, domain errors included.
pub const INTERNAL_ERROR: i32 = -32603;

pub open spec fn opt_view(o: Option<String>) -> Option<Seq<char>> {
    match o {
        Some(s) => Some(s@),
        None => None,
    }
}

/// The string at position `i` of an array of params, if there is one.
pub open spec fn param_str(p: Option<JsonValue>, i: int) -> Option<Seq<char>> {
    match p {
        Some(JsonValue::Array(items)) => if 0 <= i < items@.len() {
            match items@[i] {
                JsonValue::Str(s) => Some(s@),
                _ => None,
            }
        } else {
            None
        },
        _ => None,
    }
}

/// An error with `code` and message `msg`.
pub open spec fn is_error(r: Result<StratumRequest, StratumError>, code: i32, msg: Seq<char>) -> bool {
    r matches Err(e) && e.code == code && e.message@ == msg && e.data is None
}

/// The submit request holds the submission's content.
pub open spec fn submit_holds(req: StratumRequest, id: u64, s: ShareSubmission) -> bool {
    req matches StratumRequest::Submit { id: i, worker_name, job_id, nonce, share_data } && i == id && worker_name@
        == s.miner_id@ && job_id@ == s.job_id@ && nonce == s.share_type.nonce_spec() && match (s.share_type, share_data) {
        (
            ShareType::ComputationProof { witness_commitment: w1, computation_steps: c1, .. },
            ShareSubmissionData::ComputationProof { witness_commitment: w2, computation_steps: c2 },
        ) => w1@ == w2@ && c1 == c2,
        (ShareType::ValidBlock { proof: p1, .. }, ShareSubmissionData::ValidBlock { proof: p2 }) => p1@ == p2@,
        _ => false,
    }
}

/// How a message is read as a request: `method` is checked first, then
/// `id`; then each method reads its params.
pub open spec fn parse_outcome(m: StratumMessage, r: Result<StratumRequest, StratumError>) -> bool {
    match m.method {
        None => is_error(r, INVALID_REQUEST, "Invalid request: missing method"@),
        Some(method) => match m.id {
            None => is_error(r, INVALID_REQUEST, "Invalid request: missing id"@),
            Some(id) => if method@ == "mining.subscribe"@ {
                r matches Ok(StratumRequest::Subscribe { id: i, user_agent }) && i == id && opt_view(user_agent)
                    == param_str(m.params, 0)
            } else if method@ == "mining.authorize"@ {
                if !(m.params matches Some(JsonValue::Array(_))) {
                    is_error(r, INVALID_PARAMS, "Invalid params"@)
                } else if param_str(m.params, 0) is None {
                    is_error(r, INVALID_PARAMS, "Missing worker name"@)
                } else {
                    r matches Ok(StratumRequest::Authorize { id: i, worker_name, password }) && i == id && Some(
                        worker_name@,
                    ) == param_str(m.params, 0) && opt_view(password) == param_str(m.params, 1)
                }
            } else if method@ == "mining.submit"@ {
                match m.params {
                    None => is_error(r, INVALID_PARAMS, "Invalid params"@),
                    Some(p) => if exists|s: ShareSubmission| reads_as(p, s) {
                        r matches Ok(req) && exists|s: ShareSubmission| reads_as(p, s) && submit_holds(req, id, s)
                    } else {
                        is_error(r, INVALID_PARAMS, "Invalid submission format"@)
                    },
                }
            } else if method@ == "mining.get_status"@ {
                r matches Ok(StratumRequest::GetStatus { id: i }) && i == id
            } else {
                is_error(r, METHOD_NOT_FOUND, "Unknown method: "@ + method@)
            },
        },
    }
}

fn error(code: i32, message: &str) -> (e: StratumError)
    ensures
        e.code == code,
        e.message@ == message@,
        e.data is None,
{
    StratumError { code, message: String::from_str(message), data: None }
}

fn param_string(p: &Option<JsonValue>, i: usize) -> (r: Option<String>)
    ensures
        opt_view(r) == param_str(*p, i as int),
{
    match p {
        Some(JsonValue::Array(items)) => {
            if i < items.len() {
                match &items[i] {
                    JsonValue::Str(s) => Some(s.clone()),
                    _ => None,
                }
            } else {
                None
            }
        },
        _ => None,
    }
}

impl StratumMessage {
    /// Reads the message as a client request, or says why it is none.
    pub fn parse_request(&self) -> (r: Result<StratumRequest, StratumError>)
        ensures
            parse_outcome(*self, r),
    {
        let method = match &self.method {
            Some(m) => m,
            None => {
                return Err(error(INVALID_REQUEST, "Invalid request: missing method"));
            },
        };
        let id = match self.id {
            Some(id) => id,
            None => {
                return Err(error(INVALID_REQUEST, "Invalid request: missing id"));
            },
        };
        if *method == String::from_str("mining.subscribe") {
            let user_agent = param_string(&self.params, 0);
            Ok(StratumRequest::Subscribe { id, user_agent })
        } else if *method == String::from_str("mining.authorize") {
            match &self.params {
                Some(JsonValue::Array(_)) => {},
                _ => {
                    return Err(error(INVALID_PARAMS, "Invalid params"));
                },
            }
            let worker_name = match param_string(&self.params, 0) {
                Some(w) => w,
                None => {
                    return Err(error(INVALID_PARAMS, "Missing worker name"));
                },
            };
            let password = param_string(&self.params, 1);
            Ok(StratumRequest::Authorize { id, worker_name, password })
        } else if *method == String::from_str("mining.submit") {
            let params = match &self.params {
                Some(p) => p,
                None => {
                    return Err(error(INVALID_PARAMS, "Invalid params"));
                },
            };
            let submission = match decode_submission(params) {
                Some(s) => s,
                None => {
                    return Err(error(INVALID_PARAMS, "Invalid submission format"));
                },
            };
            let ghost s0 = submission;
            let nonce = submission.share_type.nonce();
            let share_data = match submission.share_type {
                ShareType::ComputationProof { witness_commitment, computation_steps, .. } => {
                    ShareSubmissionData::ComputationProof { witness_commitment, computation_steps }
                },
                ShareType::ValidBlock { proof, .. } => ShareSubmissionData::ValidBlock { proof },
            };
            let req = StratumRequest::Submit {
                id,
                worker_name: submission.miner_id,
                job_id: submission.job_id,
                nonce,
                share_data,
            };
            assert(submit_holds(req, id, s0));
            Ok(req)
        } else if *method == String::from_str("mining.get_status") {
            Ok(StratumRequest::GetStatus { id })
        } else {
            Err(StratumError {
                code: METHOD_NOT_FOUND,
                message: String::from_str("Unknown method: ").concat(method.as_str()),
                data: None,
            })
        }
    }
}

/// The message that carries response `r`: a result or an error echoes the
/// request's id, a notification has none.
pub open spec fn message_of(r: StratumResponse) -> StratumMessage {
    match r {
        StratumResponse::Result { id, result } => StratumMessage {
            id: Some(id),
            method: None,
            params: None,
            result: Some(result),
            error: None,
        },
        StratumResponse::Error { id, error } => StratumMessage {
            id: Some(id),
            method: None,
            params: None,
            result: None,
            error: Some(error),
        },
        StratumResponse::Notification { method, params } => StratumMessage {
            id: None,
            method: Some(method),
            params: Some(params),
            result: None,
            error: None,
        },
    }
}

impl StratumResponse {
    /// The message that carries the response on the wire.
    pub fn to_message(self) -> (m: StratumMessage)
        ensures
            m == message_of(self),
    {
        match self {
            StratumResponse::Result { id, result } => StratumMessage {
                id: Some(id),
                method: None,
                params: None,
                result: Some(result),
                error: None,
            },
            StratumResponse::Error { id, error } => StratumMessage {
                id: Some(id),
                method: None,
                params: None,
                result: None,
                error: Some(error),
            },
            StratumResponse::Notification { method, params } => StratumMessage {
                id: None,
                method: Some(method),
                params: Some(params),
                result: None,
                error: None,
            },
        }
    }
}

} // verus!
