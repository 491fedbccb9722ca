//! Share validation: duplicate detection, job lookup, proof verification,
//! difficulty scoring and target comparison.

use vstd::prelude::*;
use crate::computation_proof::{ComputationProof, WitnessOracle, prefix_match, spot_check_passes};
use crate::error::PoolError;
use crate::outside::{sha256, sha256_of};
use crate::schema::JobTemplate;
use crate::store::{Store, has_work, job_with};
use crate::types::{ShareSubmission, ShareType, ShareValidation};

verus! {

/// Spot checks made on each computation-proof share.
pub const SPOT_CHECK_COUNT: usize = 5;

/// Seconds a job stays valid after its timestamp.
pub const JOB_LIFETIME_SECONDS: i64 = 3600;

/// A job is live at `now` until an hour past its timestamp.
pub open spec fn job_live(job: JobTemplate, now: i64) -> bool {
    now - job.timestamp <= JOB_LIFETIME_SECONDS
}

/// Reward units credited for a block.
pub const BLOCK_REWARD_UNITS: u128 = 1_000_000;

/// Number of leading zero bits of a byte.
pub open spec fn leading_zero_bits(b: u8) -> nat {
    if b >= 128 {
        0
    } else if b >= 64 {
        1
    } else if b >= 32 {
        2
    } else if b >= 16 {
        3
    } else if b >= 8 {
        4
    } else if b >= 4 {
        5
    } else if b >= 2 {
        6
    } else if b >= 1 {
        7
    } else {
        8
    }
}

/// Number of leading bytes of `s` equal to `v`.
pub open spec fn run_len(s: Seq<u8>, v: u8) -> nat
    decreases s.len(),
{
    if s.len() == 0 || s[0] != v {
        0
    } else {
        1 + run_len(s.drop_first(), v)
    }
}

/// Share difficulty of a witness commitment: 256 for each leading zero byte,
/// then 32 for each leading zero bit of the first non-zero byte; at least 1.
pub open spec fn share_difficulty_spec(c: Seq<u8>) -> nat {
    let k = run_len(c, 0);
    let raw = 256 * k + if k < c.len() { 32 * leading_zero_bits(c[k as int]) } else { 0 };
    if raw == 0 { 1 } else { raw }
}

/// Block difficulty of a target: 256 for each leading 0xff byte, at least 1,
/// times 1000.
pub open spec fn block_difficulty_spec(t: Seq<u8>) -> nat {
    let k = run_len(t, 0xff);
    if k == 0 { 1000 } else { 256 * k * 1000 }
}

/// Big-endian comparison `h <= t` over the common length of the two.
pub open spec fn bytes_le(h: Seq<u8>, t: Seq<u8>) -> bool {
    let n = if h.len() < t.len() { h.len() } else { t.len() };
    (forall|j: int| 0 <= j < n ==> h[j] == t[j]) || exists|i: int|
        0 <= i < n && h[i] < t[i] && (forall|j: int| 0 <= j < i ==> h[j] == t[j])
}

proof fn lemma_run_len(s: Seq<u8>, v: u8, i: int)
    requires
        0 <= i <= s.len(),
        forall|j: int| 0 <= j < i ==> s[j] == v,
        i == s.len() || s[i] != v,
    ensures
        run_len(s, v) == i,
    decreases i,
{
    if i > 0 {
        lemma_run_len(s.drop_first(), v, i - 1);
    }
}

proof fn lemma_run_len_bound(s: Seq<u8>, v: u8)
    ensures
        run_len(s, v) <= s.len(),
        forall|j: int| 0 <= j < run_len(s, v) ==> s[j] == v,
        run_len(s, v) < s.len() ==> s[run_len(s, v) as int] != v,
    decreases s.len(),
{
    if s.len() > 0 && s[0] == v {
        lemma_run_len_bound(s.drop_first(), v);
        assert forall|j: int| 0 <= j < run_len(s, v) implies s[j] == v by {
            if j > 0 {
                assert(s[j] == s.drop_first()[j - 1]);
            }
        }
    }
}

fn leading_zeros_u8(b: u8) -> (r: u64)
    ensures
        r == leading_zero_bits(b),
{
    if b >= 128 {
        0
    } else if b >= 64 {
        1
    } else if b >= 32 {
        2
    } else if b >= 16 {
        3
    } else if b >= 8 {
        4
    } else if b >= 4 {
        5
    } else if b >= 2 {
        6
    } else if b >= 1 {
        7
    } else {
        8
    }
}

/// Difficulty of a computation-proof share, scored from its witness commitment.
pub fn calculate_share_difficulty(commitment: &[u8; 32]) -> (r: u64)
    ensures
        r == share_difficulty_spec(commitment@),
{
    let mut i: usize = 0;
    while i < 32 && commitment[i] == 0
        invariant
            i <= 32,
            commitment@.len() == 32,
            forall|j: int| 0 <= j < i ==> commitment@[j] == 0,
        decreases 32 - i,
    {
        i = i + 1;
    }
    proof {
        lemma_run_len(commitment@, 0, i as int);
    }
    let mut difficulty: u64 = 256 * (i as u64);
    if i < 32 {
        difficulty = difficulty + leading_zeros_u8(commitment[i]) * 32;
    }
    if difficulty == 0 {
        1
    } else {
        difficulty
    }
}

/// Difficulty credited for a block found against `target`; the product is
/// capped at `u64::MAX`.
pub fn calculate_block_difficulty(target: &[u8]) -> (r: u64)
    ensures
        r == if block_difficulty_spec(target@) <= u64::MAX {
            block_difficulty_spec(target@)
        } else {
            u64::MAX as nat
        },
{
    let mut i: usize = 0;
    while i < target.len() && target[i] == 0xff
        invariant
            i <= target@.len(),
            forall|j: int| 0 <= j < i ==> target@[j] == 0xff,
        decreases target@.len() - i,
    {
        i = i + 1;
    }
    proof {
        lemma_run_len(target@, 0xff, i as int);
    }
    if i == 0 {
        1000
    } else {
        let k = i as u64;
        if k > u64::MAX / 256000 {
            u64::MAX
        } else {
            k * 256000
        }
    }
}

/// Whether `hash` meets `target`: `hash <= target` read as big-endian
/// numbers, over their common length.
pub fn meets_target(hash: &[u8], target: &[u8]) -> (r: bool)
    ensures
        r == bytes_le(hash@, target@),
{
    let n: usize = if hash.len() < target.len() { hash.len() } else { target.len() };
    let mut i: usize = 0;
    while i < n
        invariant
            n == if hash@.len() < target@.len() { hash@.len() } else { target@.len() },
            i <= n,
            forall|j: int| 0 <= j < i ==> hash@[j] == target@[j],
        decreases n - i,
    {
        if hash[i] < target[i] {
            return true;
        } else if hash[i] > target[i] {
            assert(!bytes_le(hash@, target@)) by {
                if forall|j: int| 0 <= j < n ==> hash@[j] == target@[j] {
                    assert(hash@[i as int] == target@[i as int]);
                }
                assert forall|k: int|
                    0 <= k < n && hash@[k] < target@[k] implies !(forall|j: int|
                    0 <= j < k ==> hash@[j] == target@[j]) by {
                    if k > i {
                        assert(hash@[i as int] != target@[i as int]);
                    }
                }
            }
            return false;
        }
        i = i + 1;
    }
    true
}

/// Comparison against a target is a total order on 32-byte big-endian values:
/// reflexive, antisymmetric, transitive and total.
pub proof fn lemma_meets_target_total_order(a: Seq<u8>, b: Seq<u8>, c: Seq<u8>)
    requires
        a.len() == 32,
        b.len() == 32,
        c.len() == 32,
    ensures
        bytes_le(a, a),
        bytes_le(a, b) && bytes_le(b, a) ==> a == b,
        bytes_le(a, b) && bytes_le(b, c) ==> bytes_le(a, c),
        bytes_le(a, b) || bytes_le(b, a),
{
    if bytes_le(a, b) && bytes_le(b, a) {
        lemma_le_antisym(a, b);
    }
    lemma_le_trans(a, b, c);
    lemma_le_total(a, b);
}

proof fn lemma_le_antisym(a: Seq<u8>, b: Seq<u8>)
    requires
        a.len() == 32,
        b.len() == 32,
        bytes_le(a, b),
        bytes_le(b, a),
    ensures
        a == b,
{
    if exists|i: int| 0 <= i < 32 && a[i] < b[i] && (forall|j: int| 0 <= j < i ==> a[j] == b[j]) {
        let i = choose|i: int| 0 <= i < 32 && a[i] < b[i] && (forall|j: int| 0 <= j < i ==> a[j] == b[j]);
        if exists|k: int| 0 <= k < 32 && b[k] < a[k] && (forall|j: int| 0 <= j < k ==> b[j] == a[j]) {
            let k = choose|k: int| 0 <= k < 32 && b[k] < a[k] && (forall|j: int| 0 <= j < k ==> b[j] == a[j]);
            if k < i {
                assert(a[k] == b[k]);
            } else if i < k {
                assert(a[i] == b[i]);
            }
        } else {
            assert(b[i] == a[i]);
        }
    } else if exists|k: int| 0 <= k < 32 && b[k] < a[k] && (forall|j: int| 0 <= j < k ==> b[j] == a[j]) {
        let k = choose|k: int| 0 <= k < 32 && b[k] < a[k] && (forall|j: int| 0 <= j < k ==> b[j] == a[j]);
        assert(a[k] == b[k]);
    }
    assert(a =~= b);
}

proof fn lemma_le_trans(a: Seq<u8>, b: Seq<u8>, c: Seq<u8>)
    requires
        a.len() == 32,
        b.len() == 32,
        c.len() == 32,
    ensures
        bytes_le(a, b) && bytes_le(b, c) ==> bytes_le(a, c),
{
    if bytes_le(a, b) && bytes_le(b, c) {
        let ab_eq = forall|j: int| 0 <= j < 32 ==> a[j] == b[j];
        let bc_eq = forall|j: int| 0 <= j < 32 ==> b[j] == c[j];
        if ab_eq && bc_eq {
            assert(forall|j: int| 0 <= j < 32 ==> a[j] == c[j]);
        } else if ab_eq {
            let k = choose|k: int| 0 <= k < 32 && b[k] < c[k] && (forall|j: int| 0 <= j < k ==> b[j] == c[j]);
            assert(a[k] < c[k] && (forall|j: int| 0 <= j < k ==> a[j] == c[j]));
        } else if bc_eq {
            let i = choose|i: int| 0 <= i < 32 && a[i] < b[i] && (forall|j: int| 0 <= j < i ==> a[j] == b[j]);
            assert(a[i] < c[i] && (forall|j: int| 0 <= j < i ==> a[j] == c[j]));
        } else {
            let i = choose|i: int| 0 <= i < 32 && a[i] < b[i] && (forall|j: int| 0 <= j < i ==> a[j] == b[j]);
            let k = choose|k: int| 0 <= k < 32 && b[k] < c[k] && (forall|j: int| 0 <= j < k ==> b[j] == c[j]);
            let m = if i < k { i } else { k };
            assert(a[m] < c[m] && (forall|j: int| 0 <= j < m ==> a[j] == c[j]));
        }
    }
}

proof fn lemma_le_total(a: Seq<u8>, b: Seq<u8>)
    requires
        a.len() == 32,
        b.len() == 32,
    ensures
        bytes_le(a, b) || bytes_le(b, a),
{
    if !(forall|j: int| 0 <= j < 32 ==> a[j] == b[j]) {
        let d = choose|d: int| 0 <= d < 32 && a[d] != b[d];
        lemma_first_diff(a, b, d);
    }
}

proof fn lemma_first_diff(a: Seq<u8>, b: Seq<u8>, d: int)
    requires
        a.len() == 32,
        b.len() == 32,
        0 <= d < 32,
        a[d] != b[d],
    ensures
        bytes_le(a, b) || bytes_le(b, a),
    decreases d,
{
    if forall|j: int| 0 <= j < d ==> a[j] == b[j] {
        if a[d] < b[d] {
            assert(bytes_le(a, b));
        } else {
            assert(bytes_le(b, a));
        }
    } else {
        let e = choose|e: int| 0 <= e < d && a[e] != b[e];
        lemma_first_diff(a, b, e);
    }
}

/// The verdict on an accepted computation-proof share.
pub open spec fn computation_validation(commitment: Seq<u8>, steps: u64) -> ShareValidation {
    ShareValidation {
        is_valid: true,
        difficulty: share_difficulty_spec(commitment) as u64,
        is_block: false,
        reward_units: (share_difficulty_spec(commitment) * steps) as u128,
    }
}

/// A computation-proof share passes its spot checks: its commitment agrees,
/// in the first eight bytes, with the digest of the oracle's witness at its
/// nonce. The last nonce has no one-nonce range and never passes.
pub open spec fn proof_accepted<O: WitnessOracle>(oracle: O, commitment: Seq<u8>, nonce: u64, wc: [u8; 32]) -> bool {
    nonce < u64::MAX && prefix_match(wc@, sha256_of(oracle.witness_of(commitment, nonce)))
}

/// The verdict on an accepted block.
pub open spec fn block_validation(target: Seq<u8>) -> ShareValidation {
    ShareValidation {
        is_valid: true,
        difficulty: (if block_difficulty_spec(target) <= u64::MAX {
            block_difficulty_spec(target)
        } else {
            u64::MAX as nat
        }) as u64,
        is_block: true,
        reward_units: BLOCK_REWARD_UNITS,
    }
}

/// What validation at time `now` owes for a submission: duplicates are
/// refused, and so are unknown and expired jobs; a computation proof is
/// accepted exactly when it passes its spot checks through `oracle`, a block
/// exactly when its proof digest meets the job's target.
pub open spec fn validation_outcome<O: WitnessOracle>(
    store: Store,
    oracle: O,
    share: ShareSubmission,
    now: i64,
    r: Result<ShareValidation, PoolError>,
) -> bool {
    if has_work(store.shares_view(), share.job_id@, share.miner_id@, share.share_type.nonce_spec()) {
        r matches Err(e) && e is DuplicateShare
    } else {
        match job_with(store.jobs_view(), share.job_id@) {
            None => r matches Err(e) && e matches PoolError::JobNotFound(id) && id@ == share.job_id@,
            Some(job) => if !job_live(job, now) {
                r matches Err(e) && e matches PoolError::JobNotFound(id) && id@ == share.job_id@
            } else {
                match share.share_type {
                ShareType::ComputationProof { nonce, witness_commitment, computation_steps } => if proof_accepted(
                    oracle,
                    job.block_commitment@,
                    nonce,
                    witness_commitment,
                ) {
                    r == Ok::<ShareValidation, PoolError>(computation_validation(witness_commitment@, computation_steps))
                } else {
                    r matches Err(e) && e is InvalidProof
                },
                ShareType::ValidBlock { proof, .. } => if bytes_le(sha256_of(proof@), job.target@) {
                    r == Ok::<ShareValidation, PoolError>(block_validation(job.target@))
                } else {
                    r matches Err(e) && e is InsufficientDifficulty
                },
                }
            },
        }
    }
}

/// Validates share submissions against the pool's state.
pub struct ShareValidator {
    pub spot_check_count: usize,
}

impl ShareValidator {
    /// A validator making the standard number of spot checks.
    pub fn new() -> (r: Self)
        ensures
            r.spot_check_count == SPOT_CHECK_COUNT,
            r.spot_check_count > 0,
    {
        ShareValidator { spot_check_count: SPOT_CHECK_COUNT }
    }

    /// Validates one submission at time `now`: refuses a repeated (job,
    /// miner, nonce) and an unknown or expired job, verifies a computation
    /// proof by spot checks through `oracle`, and checks a block's proof
    /// digest against the job's target.
    pub fn validate_share<O: WitnessOracle>(
        &self,
        store: &Store,
        oracle: &O,
        share: &ShareSubmission,
        now: i64,
    ) -> (r: Result<ShareValidation, PoolError>)
        requires
            store.wf(),
            self.spot_check_count > 0,
        ensures
            validation_outcome(*store, *oracle, *share, now, r),
            r matches Ok(v) ==> v.is_valid,
    {
        if self.is_duplicate(store, share) {
            return Err(PoolError::DuplicateShare);
        }
        let job = match self.get_job_template(store, &share.job_id) {
            Ok(j) => j,
            Err(e) => {
                return Err(e);
            },
        };
        if (now as i128) - (job.timestamp as i128) > JOB_LIFETIME_SECONDS as i128 {
            return Err(PoolError::JobNotFound(share.job_id.clone()));
        }
        match &share.share_type {
            ShareType::ComputationProof { witness_commitment, computation_steps, nonce } => {
                self.validate_computation_proof(job, oracle, witness_commitment, *computation_steps, *nonce)
            },
            ShareType::ValidBlock { proof, .. } => self.validate_block(job, proof),
        }
    }

    fn is_duplicate(&self, store: &Store, share: &ShareSubmission) -> (r: bool)
        ensures
            r == has_work(store.shares_view(), share.job_id@, share.miner_id@, share.share_type.nonce_spec()),
    {
        store.has_share(&share.job_id, &share.miner_id, share.share_type.nonce())
    }

    fn get_job_template<'a>(&self, store: &'a Store, job_id: &String) -> (r: Result<&'a JobTemplate, PoolError>)
        requires
            store.wf(),
        ensures
            match r {
                Ok(j) => job_with(store.jobs_view(), job_id@) == Some(*j),
                Err(e) => job_with(store.jobs_view(), job_id@) is None && (e matches PoolError::JobNotFound(id)
                    && id@ == job_id@),
            },
    {
        match store.get_job(job_id.as_str()) {
            Some(j) => Ok(j),
            None => Err(PoolError::JobNotFound(job_id.clone())),
        }
    }

    /// A computation-proof share is checked as a one-sample proof over
    /// `[nonce, nonce + 1)`; at the last nonce no such range exists and the
    /// share is refused.
    fn validate_computation_proof<O: WitnessOracle>(
        &self,
        job: &JobTemplate,
        oracle: &O,
        witness_commitment: &[u8; 32],
        computation_steps: u64,
        nonce: u64,
    ) -> (r: Result<ShareValidation, PoolError>)
        requires
            self.spot_check_count > 0,
        ensures
            if proof_accepted(*oracle, job.block_commitment@, nonce, *witness_commitment) {
                r == Ok::<ShareValidation, PoolError>(computation_validation(witness_commitment@, computation_steps))
            } else {
                r matches Err(e) && e is InvalidProof
            },
    {
        if nonce == u64::MAX {
            return Err(PoolError::InvalidProof);
        }
        let proof = ComputationProof {
            witness_commitment: *witness_commitment,
            nonce_range: nonce..nonce + 1,
            computation_steps,
            intermediate_hashes: vec![*witness_commitment],
        };
        let ghost h = sha256_of(oracle.witness_of(job.block_commitment@, nonce));
        assert(proof.intermediate_hashes@ == seq![*witness_commitment]);
        let passed = proof.verify(oracle, job.block_commitment.as_slice(), self.spot_check_count);
        proof {
            let ns = choose|ns: Seq<u64>|
                {
                    &&& ns.len() == self.spot_check_count
                    &&& forall|k: int| 0 <= k < ns.len() ==> nonce <= #[trigger] ns[k] < nonce + 1
                    &&& passed == forall|k: int|
                        0 <= k < ns.len() ==> spot_check_passes(
                            seq![*witness_commitment],
                            sha256_of(oracle.witness_of(job.block_commitment@, #[trigger] ns[k])),
                        )
                };
            assert(ns[0] == nonce);
            if passed {
                assert(spot_check_passes(seq![*witness_commitment], h));
                let i = choose|i: int| 0 <= i < 1 && prefix_match((#[trigger] seq![*witness_commitment][i])@, h);
                assert(prefix_match(witness_commitment@, h));
            } else {
                let k = choose|k: int|
                    0 <= k < ns.len() && !spot_check_passes(
                        seq![*witness_commitment],
                        sha256_of(oracle.witness_of(job.block_commitment@, #[trigger] ns[k])),
                    );
                assert(ns[k] == nonce);
                if prefix_match(witness_commitment@, h) {
                    assert(prefix_match(seq![*witness_commitment][0]@, h));
                }
            }
        }
        if !passed {
            return Err(PoolError::InvalidProof);
        }
        let difficulty = calculate_share_difficulty(witness_commitment);
        assert((difficulty as int) * (computation_steps as int) <= (u64::MAX as int) * (u64::MAX as int)) by (nonlinear_arith)
            requires
                difficulty <= u64::MAX,
                computation_steps <= u64::MAX,
        ;
        Ok(ShareValidation {
            is_valid: true,
            difficulty,
            is_block: false,
            reward_units: (difficulty as u128) * (computation_steps as u128),
        })
    }

    fn validate_block(&self, job: &JobTemplate, proof: &Vec<u8>) -> (r: Result<ShareValidation, PoolError>)
        ensures
            if bytes_le(sha256_of(proof@), job.target@) {
                r == Ok::<ShareValidation, PoolError>(block_validation(job.target@))
            } else {
                r matches Err(e) && e is InsufficientDifficulty
            },
    {
        let proof_hash = sha256(proof.as_slice());
        if !meets_target(&proof_hash, job.target.as_slice()) {
            return Err(PoolError::InsufficientDifficulty);
        }
        Ok(ShareValidation {
            is_valid: true,
            difficulty: calculate_block_difficulty(job.target.as_slice()),
            is_block: true,
            reward_units: BLOCK_REWARD_UNITS,
        })
    }
}

} // verus!
