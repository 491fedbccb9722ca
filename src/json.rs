//! JSON values as the protocol reads and writes them, and the wire form of
//! share submissions.

use vstd::prelude::*;
use vstd::string::*;
use crate::types::{ShareSubmission, ShareType};

verus! {

/// A JSON value. Numbers are kept as they arrive: a non-negative integer, a
/// negative one, or the decimal text of any other number.
#[derive(Debug)]
pub enum JsonValue {
    Null,
    Bool(bool),
    UInt(u64),
    NegInt(i64),
    Float(String),
    Str(String),
    Array(Vec<JsonValue>),
    Object(Vec<JsonField>),
}

/// One member of a JSON object.
#[derive(Debug)]
pub struct JsonField {
    pub key: String,
    pub value: JsonValue,
}

/// The value of the first member of `fs` named `key`.
pub open spec fn field_of(fs: Seq<JsonField>, key: Seq<char>) -> Option<JsonValue>
    decreases fs.len(),
{
    if fs.len() == 0 {
        None
    } else if fs[0].key@ == key {
        Some(fs[0].value)
    } else {
        field_of(fs.drop_first(), key)
    }
}

/// `v` is an array holding the bytes of `b` as numbers.
pub open spec fn bytes_json(v: JsonValue, b: Seq<u8>) -> bool {
    v matches JsonValue::Array(items) && items@.len() == b.len() && forall|i: int|
        0 <= i < b.len() ==> (#[trigger] items@[i]) == JsonValue::UInt(b[i] as u64)
}

/// `v` reads as share kind `t`: an object with one member, named after the
/// kind, whose members give its fields.
pub open spec fn reads_as_type(v: JsonValue, t: ShareType) -> bool {
    v matches JsonValue::Object(ts) && ts@.len() == 1 && (ts@[0].value matches JsonValue::Object(inner) && match t {
        ShareType::ComputationProof { nonce, witness_commitment, computation_steps } => {
            &&& ts@[0].key@ == "ComputationProof"@
            &&& field_of(inner@, "nonce"@) == Some(JsonValue::UInt(nonce))
            &&& field_of(inner@, "witness_commitment"@) matches Some(w) && bytes_json(w, witness_commitment@)
            &&& field_of(inner@, "computation_steps"@) == Some(JsonValue::UInt(computation_steps))
        },
        ShareType::ValidBlock { nonce, proof } => {
            &&& ts@[0].key@ == "ValidBlock"@
            &&& field_of(inner@, "nonce"@) == Some(JsonValue::UInt(nonce))
            &&& field_of(inner@, "proof"@) matches Some(p) && bytes_json(p, proof@)
        },
    })
}

/// `v` reads as submission `s`: an object whose first members named
/// `job_id`, `miner_id` and `share_type` give its fields; other members are
/// ignored.
pub open spec fn reads_as(v: JsonValue, s: ShareSubmission) -> bool {
    v matches JsonValue::Object(fs) && {
        &&& field_of(fs@, "job_id"@) matches Some(JsonValue::Str(j)) && j@ == s.job_id@
        &&& field_of(fs@, "miner_id"@) matches Some(JsonValue::Str(m)) && m@ == s.miner_id@
        &&& field_of(fs@, "share_type"@) matches Some(t) && reads_as_type(t, s.share_type)
    }
}

/// Two submissions with the same content.
pub open spec fn same_submission(a: ShareSubmission, b: ShareSubmission) -> bool {
    &&& a.job_id@ == b.job_id@
    &&& a.miner_id@ == b.miner_id@
    &&& match (a.share_type, b.share_type) {
        (
            ShareType::ComputationProof { nonce: n1, witness_commitment: w1, computation_steps: c1 },
            ShareType::ComputationProof { nonce: n2, witness_commitment: w2, computation_steps: c2 },
        ) => n1 == n2 && w1@ == w2@ && c1 == c2,
        (ShareType::ValidBlock { nonce: n1, proof: p1 }, ShareType::ValidBlock { nonce: n2, proof: p2 }) => n1 == n2
            && p1@ == p2@,
        _ => false,
    }
}

/// `v` is the encoding of `s`: members `job_id`, `miner_id`, `share_type` in
/// that order; the kind as an object with one member named after it, whose
/// members are the kind's fields in declaration order; bytes as arrays of
/// numbers.
pub open spec fn encodes(v: JsonValue, s: ShareSubmission) -> bool {
    v matches JsonValue::Object(fs) && fs@.len() == 3 && {
        &&& fs@[0].key@ == "job_id"@ && (fs@[0].value matches JsonValue::Str(j) && j@ == s.job_id@)
        &&& fs@[1].key@ == "miner_id"@ && (fs@[1].value matches JsonValue::Str(m) && m@ == s.miner_id@)
        &&& fs@[2].key@ == "share_type"@ && (fs@[2].value matches JsonValue::Object(ts) && ts@.len() == 1 && (
        ts@[0].value matches JsonValue::Object(inner) && match s.share_type {
            ShareType::ComputationProof { nonce, witness_commitment, computation_steps } => {
                &&& ts@[0].key@ == "ComputationProof"@
                &&& inner@.len() == 3
                &&& inner@[0].key@ == "nonce"@ && inner@[0].value == JsonValue::UInt(nonce)
                &&& inner@[1].key@ == "witness_commitment"@ && bytes_json(inner@[1].value, witness_commitment@)
                &&& inner@[2].key@ == "computation_steps"@ && inner@[2].value == JsonValue::UInt(computation_steps)
            },
            ShareType::ValidBlock { nonce, proof } => {
                &&& ts@[0].key@ == "ValidBlock"@
                &&& inner@.len() == 2
                &&& inner@[0].key@ == "nonce"@ && inner@[0].value == JsonValue::UInt(nonce)
                &&& inner@[1].key@ == "proof"@ && bytes_json(inner@[1].value, proof@)
            },
        }))
    }
}

fn field(key: &str, value: JsonValue) -> (r: JsonField)
    ensures
        r.key@ == key@,
        r.value == value,
{
    JsonField { key: String::from_str(key), value }
}

/// A byte sequence as an array of numbers.
pub fn bytes_to_json(b: &[u8]) -> (r: JsonValue)
    ensures
        bytes_json(r, b@),
{
    let mut items: Vec<JsonValue> = Vec::new();
    let mut i: usize = 0;
    while i < b.len()
        invariant
            i <= b@.len(),
            items@.len() == i,
            forall|k: int| 0 <= k < i ==> (#[trigger] items@[k]) == JsonValue::UInt(b@[k] as u64),
        decreases b@.len() - i,
    {
        items.push(JsonValue::UInt(b[i] as u64));
        i = i + 1;
    }
    JsonValue::Array(items)
}

/// The JSON form of a submission.
pub fn encode_submission(s: &ShareSubmission) -> (r: JsonValue)
    ensures
        encodes(r, *s),
{
    let share_type = match &s.share_type {
        ShareType::ComputationProof { nonce, witness_commitment, computation_steps } => {
            let inner = vec![
                field("nonce", JsonValue::UInt(*nonce)),
                field("witness_commitment", bytes_to_json(witness_commitment)),
                field("computation_steps", JsonValue::UInt(*computation_steps)),
            ];
            vec![field("ComputationProof", JsonValue::Object(inner))]
        },
        ShareType::ValidBlock { nonce, proof } => {
            let inner = vec![
                field("nonce", JsonValue::UInt(*nonce)),
                field("proof", bytes_to_json(proof.as_slice())),
            ];
            vec![field("ValidBlock", JsonValue::Object(inner))]
        },
    };
    JsonValue::Object(
        vec![
            field("job_id", JsonValue::Str(s.job_id.clone())),
            field("miner_id", JsonValue::Str(s.miner_id.clone())),
            field("share_type", JsonValue::Object(share_type)),
        ],
    )
}

/// The value of the first member of `fs` named `key`.
pub fn get_field<'a>(fs: &'a Vec<JsonField>, key: &str) -> (r: Option<&'a JsonValue>)
    ensures
        match r {
            Some(v) => field_of(fs@, key@) == Some(*v),
            None => field_of(fs@, key@) is None,
        },
{
    let k = String::from_str(key);
    let mut i: usize = 0;
    assert(fs@.subrange(0, fs@.len() as int) =~= fs@);
    while i < fs.len()
        invariant
            i <= fs@.len(),
            k@ == key@,
            field_of(fs@, key@) == field_of(fs@.subrange(i as int, fs@.len() as int), key@),
        decreases fs@.len() - i,
    {
        let ghost rest = fs@.subrange(i as int, fs@.len() as int);
        assert(rest.drop_first() =~= fs@.subrange(i as int + 1, fs@.len() as int));
        if fs[i].key == k {
            return Some(&fs[i].value);
        }
        i = i + 1;
    }
    None
}

/// The bytes an array of numbers below 256 holds.
pub fn json_to_bytes(v: &JsonValue) -> (r: Option<Vec<u8>>)
    ensures
        match r {
            Some(b) => bytes_json(*v, b@),
            None => forall|b: Seq<u8>| !bytes_json(*v, b),
        },
{
    match v {
        JsonValue::Array(items) => {
            let mut out: Vec<u8> = Vec::new();
            let mut i: usize = 0;
            while i < items.len()
                invariant
                    i <= items@.len(),
                    out@.len() == i,
                    forall|k: int| 0 <= k < i ==> (#[trigger] items@[k]) == JsonValue::UInt(out@[k] as u64),
                    v->Array_0 == *items,
                    *v is Array,
                decreases items@.len() - i,
            {
                match &items[i] {
                    JsonValue::UInt(n) => {
                        if *n > 255 {
                            proof {
                                assert forall|b: Seq<u8>| !bytes_json(*v, b) by {
                                    if bytes_json(*v, b) {
                                        assert(items@[i as int] == JsonValue::UInt(b[i as int] as u64));
                                    }
                                }
                            }
                            return None;
                        }
                        out.push(*n as u8);
                    },
                    _ => {
                        proof {
                            assert forall|b: Seq<u8>| !bytes_json(*v, b) by {
                                if bytes_json(*v, b) {
                                    assert(items@[i as int] == JsonValue::UInt(b[i as int] as u64));
                                }
                            }
                        }
                        return None;
                    },
                }
                i = i + 1;
            }
            Some(out)
        },
        _ => None,
    }
}

fn json_to_bytes32(v: &JsonValue) -> (r: Option<[u8; 32]>)
    ensures
        match r {
            Some(b) => bytes_json(*v, b@),
            None => forall|b: [u8; 32]| !bytes_json(*v, b@),
        },
{
    match json_to_bytes(v) {
        Some(b) => {
            if b.len() != 32 {
                proof {
                    assert forall|a: [u8; 32]| !bytes_json(*v, a@) by {
                        if bytes_json(*v, a@) {
                            assert(a@.len() == 32);
                        }
                    }
                }
                return None;
            }
            let mut a = [0u8; 32];
            let mut i: usize = 0;
            while i < 32
                invariant
                    i <= 32,
                    b@.len() == 32,
                    forall|k: int| 0 <= k < i ==> a@[k] == b@[k],
                decreases 32 - i,
            {
                a.set(i, b[i]);
                i = i + 1;
            }
            assert(a@ =~= b@);
            Some(a)
        },
        None => None,
    }
}

fn uint_of(v: Option<&JsonValue>) -> (r: Option<u64>)
    ensures
        match r {
            Some(n) => v matches Some(x) && *x == JsonValue::UInt(n),
            None => !(v matches Some(x) && *x is UInt),
        },
{
    match v {
        Some(JsonValue::UInt(n)) => Some(*n),
        _ => None,
    }
}

fn decode_share_type(v: &JsonValue) -> (r: Option<ShareType>)
    ensures
        match r {
            Some(t) => reads_as_type(*v, t),
            None => forall|t: ShareType| !reads_as_type(*v, t),
        },
{
    let ts = match v {
        JsonValue::Object(ts) => ts,
        _ => {
            return None;
        },
    };
    if ts.len() != 1 {
        return None;
    }
    let inner = match &ts[0].value {
        JsonValue::Object(inner) => inner,
        _ => {
            return None;
        },
    };
    assert(v->Object_0 == *ts);
    assert(ts@[0].value->Object_0 == *inner);
    let kind = &ts[0].key;
    let nonce = match uint_of(get_field(inner, "nonce")) {
        Some(n) => n,
        None => {
            return None;
        },
    };
    proof {
        reveal_strlit("ComputationProof");
        reveal_strlit("ValidBlock");
        assert("ComputationProof"@.len() == 16 && "ValidBlock"@.len() == 10);
    }
    if *kind == String::from_str("ComputationProof") {
        let witness_commitment = match get_field(inner, "witness_commitment") {
            Some(w) => match json_to_bytes32(w) {
                Some(a) => a,
                None => {
                    proof {
                        assert forall|t: ShareType| !reads_as_type(*v, t) by {
                            if reads_as_type(*v, t) {
                                if let ShareType::ComputationProof { witness_commitment, .. } = t {
                                    assert(!bytes_json(*w, witness_commitment@));
                                }
                            }
                        }
                    }
                    return None;
                },
            },
            None => {
                return None;
            },
        };
        let computation_steps = match uint_of(get_field(inner, "computation_steps")) {
            Some(n) => n,
            None => {
                return None;
            },
        };
        Some(ShareType::ComputationProof { nonce, witness_commitment, computation_steps })
    } else if *kind == String::from_str("ValidBlock") {
        let proof = match get_field(inner, "proof") {
            Some(p) => match json_to_bytes(p) {
                Some(b) => b,
                None => {
                    return None;
                },
            },
            None => {
                return None;
            },
        };
        Some(ShareType::ValidBlock { nonce, proof })
    } else {
        None
    }
}

fn str_of(v: Option<&JsonValue>) -> (r: Option<String>)
    ensures
        match r {
            Some(s) => v matches Some(x) && (*x matches JsonValue::Str(t) && t@ == s@),
            None => !(v matches Some(x) && *x is Str),
        },
{
    match v {
        Some(JsonValue::Str(s)) => Some(s.clone()),
        _ => None,
    }
}

/// Reads a submission from its JSON form; `None` where `v` reads as none.
pub fn decode_submission(v: &JsonValue) -> (r: Option<ShareSubmission>)
    ensures
        match r {
            Some(s) => reads_as(*v, s),
            None => forall|s: ShareSubmission| !reads_as(*v, s),
        },
{
    let fs = match v {
        JsonValue::Object(fs) => fs,
        _ => {
            return None;
        },
    };
    let job_id = match str_of(get_field(fs, "job_id")) {
        Some(s) => s,
        None => {
            return None;
        },
    };
    let miner_id = match str_of(get_field(fs, "miner_id")) {
        Some(s) => s,
        None => {
            return None;
        },
    };
    let share_type = match get_field(fs, "share_type") {
        Some(t) => match decode_share_type(t) {
            Some(t) => t,
            None => {
                return None;
            },
        },
        None => {
            return None;
        },
    };
    Some(ShareSubmission { job_id, miner_id, share_type })
}

proof fn lemma_field_first(fs: Seq<JsonField>, i: int, key: Seq<char>)
    requires
        0 <= i < fs.len(),
        fs[i].key@ == key,
        forall|k: int| 0 <= k < i ==> (#[trigger] fs[k]).key@ != key,
    ensures
        field_of(fs, key) == Some(fs[i].value),
    decreases i,
{
    if i > 0 {
        assert forall|k: int| 0 <= k < i - 1 implies (#[trigger] fs.drop_first()[k]).key@ != key by {
            assert(fs.drop_first()[k] == fs[k + 1]);
        }
        lemma_field_first(fs.drop_first(), i - 1, key);
    }
}

/// Round trip: the encoding of a submission reads back as a submission with
/// the same content, whose own encoding is, member for member, the first.
pub proof fn lemma_submission_round_trip(s: ShareSubmission, v: JsonValue, s2: ShareSubmission, v2: JsonValue)
    requires
        encodes(v, s),
        reads_as(v, s2),
        encodes(v2, s2),
    ensures
        same_submission(s, s2),
        encodes(v2, s),
{
    reveal_strlit("job_id");
    reveal_strlit("miner_id");
    reveal_strlit("share_type");
    reveal_strlit("nonce");
    reveal_strlit("witness_commitment");
    reveal_strlit("computation_steps");
    reveal_strlit("proof");
    reveal_strlit("ComputationProof");
    reveal_strlit("ValidBlock");
    assert("job_id"@ != "miner_id"@ && "job_id"@ != "share_type"@ && "miner_id"@ != "share_type"@) by {
        assert("job_id"@.len() == 6 && "miner_id"@.len() == 8);
        assert("share_type"@[0] != "job_id"@[0] && "share_type"@[0] != "miner_id"@[0]);
    }
    assert("nonce"@ != "witness_commitment"@ && "nonce"@ != "computation_steps"@ && "witness_commitment"@
        != "computation_steps"@ && "nonce"@ != "proof"@) by {
        assert("nonce"@.len() == 5 && "witness_commitment"@.len() == 18 && "computation_steps"@.len() == 17);
        assert("nonce"@[0] != "proof"@[0]);
    }
    assert("ComputationProof"@ != "ValidBlock"@) by {
        assert("ComputationProof"@.len() == 16 && "ValidBlock"@.len() == 10);
    }
    let fs = v->Object_0@;
    lemma_field_first(fs, 0, "job_id"@);
    lemma_field_first(fs, 1, "miner_id"@);
    lemma_field_first(fs, 2, "share_type"@);
    let ts = fs[2].value->Object_0@;
    let inner = ts[0].value->Object_0@;
    lemma_field_first(inner, 0, "nonce"@);
    match s.share_type {
        ShareType::ComputationProof { .. } => {
            lemma_field_first(inner, 1, "witness_commitment"@);
            lemma_field_first(inner, 2, "computation_steps"@);
            let w1 = inner[1].value->Array_0@;
            match s2.share_type {
                ShareType::ComputationProof { witness_commitment: w2, .. } => {
                    let a = s.share_type->ComputationProof_witness_commitment@;
                    assert forall|i: int| 0 <= i < 32 implies a[i] == w2@[i] by {
                        assert(w1[i] == JsonValue::UInt(a[i] as u64));
                        assert(w1[i] == JsonValue::UInt(w2@[i] as u64));
                    }
                    assert(a =~= w2@);
                },
                _ => {},
            }
        },
        ShareType::ValidBlock { proof, .. } => {
            lemma_field_first(inner, 1, "proof"@);
            let p1 = inner[1].value->Array_0@;
            match s2.share_type {
                ShareType::ValidBlock { proof: p2, .. } => {
                    assert forall|i: int| 0 <= i < proof@.len() implies proof@[i] == p2@[i] by {
                        assert(p1[i] == JsonValue::UInt(proof@[i] as u64));
                        assert(p1[i] == JsonValue::UInt(p2@[i] as u64));
                    }
                    assert(proof@ =~= p2@);
                },
                _ => {},
            }
        },
    }
}

} // verus!
