//! Computation proofs: sampled witness evaluation committed by rolling
//! SHA-256 digests, and their spot-check verification.

use vstd::prelude::*;
use std::ops::Range;
use crate::outside::{random_in_range, sha256, sha256_of};

verus! {

/// The verification oracle: the partial witness of a block commitment at a
/// nonce, as an opaque byte serialization. The witness depends on the
/// commitment and the nonce alone.
pub trait WitnessOracle {
    /// The witness the oracle gives for `commitment` at `nonce`.
    spec fn witness_of(&self, commitment: Seq<u8>, nonce: u64) -> Seq<u8>;

    fn partial_witness(&self, commitment: &[u8], nonce: u64) -> (r: Vec<u8>)
        ensures
            r@ == self.witness_of(commitment@, nonce),
    ;
}

/// The eight little-endian bytes of `n`.
pub open spec fn le_bytes(n: nat, k: nat) -> Seq<u8>
    decreases k,
{
    if k == 0 {
        Seq::empty()
    } else {
        seq![(n % 256) as u8] + le_bytes(n / 256, (k - 1) as nat)
    }
}

/// A witness serialized as the commitment's bytes followed by the nonce's
/// eight bytes, little-endian.
pub struct SerializedWitness;

impl WitnessOracle for SerializedWitness {
    open spec fn witness_of(&self, commitment: Seq<u8>, nonce: u64) -> Seq<u8> {
        commitment + le_bytes(nonce as nat, 8)
    }

    fn partial_witness(&self, commitment: &[u8], nonce: u64) -> (r: Vec<u8>) {
        let mut out: Vec<u8> = Vec::new();
        let mut i: usize = 0;
        while i < commitment.len()
            invariant
                i <= commitment@.len(),
                out@ == commitment@.take(i as int),
            decreases commitment@.len() - i,
        {
            out.push(commitment[i]);
            proof {
                assert(commitment@.take(i as int + 1) =~= commitment@.take(i as int).push(commitment@[i as int]));
            }
            i = i + 1;
        }
        assert(commitment@.take(i as int) =~= commitment@);
        let mut x: u64 = nonce;
        let mut k: usize = 0;
        while k < 8
            invariant
                k <= 8,
                out@ + le_bytes(x as nat, (8 - k) as nat) == commitment@ + le_bytes(nonce as nat, 8),
            decreases 8 - k,
        {
            let ghost before = out@;
            out.push((x % 256) as u8);
            proof {
                let rest = le_bytes(x as nat, (8 - k) as nat);
                assert(rest == seq![(x % 256) as u8] + le_bytes((x / 256) as nat, (8 - k - 1) as nat));
                assert(out@ + le_bytes((x / 256) as nat, (8 - k - 1) as nat) =~= before + rest);
            }
            x = x / 256;
            k = k + 1;
        }
        assert(le_bytes(x as nat, 0) =~= Seq::<u8>::empty());
        assert(out@ =~= commitment@ + le_bytes(nonce as nat, 8));
        out
    }
}

/// The nonce of sample `j`: `j` strides from `lo`.
pub open spec fn sample_nonce(lo: u64, hi: u64, rate: usize, j: int) -> u64 {
    (lo + j * sample_stride(lo, hi, rate)) as u64
}

/// The oracle's witnesses at the first `n` sampled nonces.
pub open spec fn sampled_witnesses<O: WitnessOracle>(
    oracle: O,
    commitment: Seq<u8>,
    lo: u64,
    hi: u64,
    rate: usize,
    n: int,
) -> Seq<Seq<u8>> {
    Seq::new(n as nat, |j: int| oracle.witness_of(commitment, sample_nonce(lo, hi, rate, j)))
}

/// Evidence that a miner evaluated witnesses over a nonce range.
#[derive(Debug)]
pub struct ComputationProof {
    pub witness_commitment: [u8; 32],
    pub nonce_range: Range<u64>,
    pub computation_steps: u64,
    pub intermediate_hashes: Vec<[u8; 32]>,
}

/// The witnesses one after the other.
pub open spec fn concat_all(ws: Seq<Seq<u8>>) -> Seq<u8>
    decreases ws.len(),
{
    if ws.len() == 0 {
        Seq::empty()
    } else {
        concat_all(ws.drop_last()) + ws.last()
    }
}

/// Estimated steps of the witnesses: 100 per byte.
pub open spec fn steps_total(ws: Seq<Seq<u8>>) -> int
    decreases ws.len(),
{
    if ws.len() == 0 {
        0
    } else {
        steps_total(ws.drop_last()) + 100 * (ws.last().len() as int)
    }
}

pub open spec fn cap_u64(x: int) -> int {
    if x > u64::MAX { u64::MAX as int } else { x }
}

/// Distance between sampled nonces: the range over the sample rate, at least 1.
pub open spec fn sample_stride(lo: u64, hi: u64, rate: usize) -> int {
    let s = (hi - lo) / (rate as int);
    if s < 1 { 1 } else { s }
}

/// `n` is the number of samples taken: the `n`-th sample (the last taken)
/// stays below `hi`, and either the sample rate is reached or the next one
/// does not; samples rise by the stride from `lo`.
pub open spec fn is_sample_count(lo: u64, hi: u64, rate: usize, n: int) -> bool {
    &&& 0 <= n <= rate
    &&& n == 0 || lo + (n - 1) * sample_stride(lo, hi, rate) < hi
    &&& n == rate || lo + n * sample_stride(lo, hi, rate) >= hi
}

/// The first eight bytes of two digests agree.
pub open spec fn prefix_match(a: Seq<u8>, b: Seq<u8>) -> bool {
    a.subrange(0, 8) == b.subrange(0, 8)
}

/// A recomputed digest passes a spot check when its first eight bytes agree
/// with those of some intermediate hash of the proof.
pub open spec fn spot_check_passes(hs: Seq<[u8; 32]>, h: Seq<u8>) -> bool {
    exists|i: int| 0 <= i < hs.len() && prefix_match(#[trigger] hs[i]@, h)
}

/// The proof holds `ws` as its sampled witnesses: one intermediate hash per
/// witness, over all witnesses so far; the commitment over all of them.
pub open spec fn commits_to(p: ComputationProof, ws: Seq<Seq<u8>>) -> bool {
    &&& p.intermediate_hashes@.len() == ws.len()
    &&& forall|k: int|
        0 <= k < ws.len() ==> (#[trigger] p.intermediate_hashes@[k])@ == sha256_of(concat_all(ws.take(k + 1)))
    &&& p.witness_commitment@ == sha256_of(concat_all(ws))
    &&& p.computation_steps == cap_u64(steps_total(ws))
}

/// Estimated computation steps for a witness: 100 per byte, capped at `u64::MAX`.
pub fn estimate_computation_steps(witness_bytes: &[u8]) -> (r: u64)
    ensures
        r == cap_u64(100 * (witness_bytes@.len() as int)),
{
    let n = witness_bytes.len() as u64;
    if n > u64::MAX / 100 {
        u64::MAX
    } else {
        n * 100
    }
}

impl ComputationProof {
    /// Samples `sample_rate` nonces evenly across `nonce_range`, stopping at
    /// its end, evaluates each witness through `oracle`, and commits to the
    /// running concatenation of the witnesses after each sample: the `j`-th
    /// witness is the oracle's at `lo + j * stride`.
    pub fn generate_for_range<O: WitnessOracle>(
        oracle: &O,
        block_commitment: &[u8],
        nonce_range: Range<u64>,
        sample_rate: usize,
    ) -> (r: Self)
        requires
            sample_rate > 0,
            nonce_range.start <= nonce_range.end,
        ensures
            r.nonce_range == nonce_range,
            is_sample_count(nonce_range.start, nonce_range.end, sample_rate, r.intermediate_hashes@.len() as int),
            commits_to(
                r,
                sampled_witnesses(
                    *oracle,
                    block_commitment@,
                    nonce_range.start,
                    nonce_range.end,
                    sample_rate,
                    r.intermediate_hashes@.len() as int,
                ),
            ),
    {
        let lo = nonce_range.start;
        let hi = nonce_range.end;
        let q = (hi - lo) / (sample_rate as u64);
        let step: u64 = if q < 1 { 1 } else { q };
        let ghost stride = sample_stride(lo, hi, sample_rate);
        assert(step == stride);
        let mut running: Vec<u8> = Vec::new();
        let mut intermediate_hashes: Vec<[u8; 32]> = Vec::new();
        let mut computation_steps: u64 = 0;
        let ghost mut ws: Seq<Seq<u8>> = Seq::empty();
        let mut i: usize = 0;
        while i < sample_rate
            invariant
                step == stride,
                stride == sample_stride(lo, hi, sample_rate),
                stride >= 1,
                i <= sample_rate,
                ws.len() == i,
                ws == sampled_witnesses(*oracle, block_commitment@, lo, hi, sample_rate, i as int),
                intermediate_hashes@.len() == i,
                running@ == concat_all(ws),
                computation_steps == cap_u64(steps_total(ws)),
                i == 0 || lo + (i - 1) * stride < hi,
                forall|k: int|
                    0 <= k < i ==> (#[trigger] intermediate_hashes@[k])@ == sha256_of(concat_all(ws.take(k + 1))),
            ensures
                i <= sample_rate,
                i == 0 || lo + (i - 1) * stride < hi,
                i == sample_rate || lo + i * stride >= hi,
                ws.len() == i,
                ws == sampled_witnesses(*oracle, block_commitment@, lo, hi, sample_rate, i as int),
                intermediate_hashes@.len() == i,
                running@ == concat_all(ws),
                computation_steps == cap_u64(steps_total(ws)),
                forall|k: int|
                    0 <= k < i ==> (#[trigger] intermediate_hashes@[k])@ == sha256_of(concat_all(ws.take(k + 1))),
            decreases sample_rate - i,
        {
            let off_opt = (i as u64).checked_mul(step);
            if off_opt.is_none() {
                proof {
                    assert(lo + (i as int) * stride >= hi) by (nonlinear_arith)
                        requires
                            (i as int) * stride > u64::MAX,
                            lo >= 0,
                            hi <= u64::MAX,
                    ;
                }
                break;
            }
            let off = off_opt.unwrap();
            let nonce_opt = lo.checked_add(off);
            if nonce_opt.is_none() {
                break;
            }
            let nonce = nonce_opt.unwrap();
            assert(off as int == (i as int) * stride);
            assert(nonce as int == lo + (i as int) * stride);
            assert(sample_nonce(lo, hi, sample_rate, i as int) == (lo + (i as int) * stride) as u64);
            assert(((lo + (i as int) * stride) as u64) == nonce);
            if nonce >= hi {
                break;
            }
            let mut witness = oracle.partial_witness(block_commitment, nonce);
            let estimate = estimate_computation_steps(witness.as_slice());
            let ghost w = witness@;
            running.append(&mut witness);
            let h = sha256(running.as_slice());
            intermediate_hashes.push(h);
            computation_steps = if computation_steps > u64::MAX - estimate {
                u64::MAX
            } else {
                computation_steps + estimate
            };
            proof {
                let ws0 = ws;
                ws = ws.push(w);
                assert(nonce == sample_nonce(lo, hi, sample_rate, i as int));
                assert(ws =~= sampled_witnesses(*oracle, block_commitment@, lo, hi, sample_rate, i as int + 1));
                assert(ws.drop_last() == ws0);
                assert(ws.take(i as int + 1) == ws);
                assert forall|k: int| 0 <= k < i implies #[trigger] ws.take(k + 1) == ws0.take(k + 1) by {
                    assert(ws.take(k + 1) =~= ws0.take(k + 1));
                }
            }
            i = i + 1;
        }
        let witness_commitment = sha256(running.as_slice());
        let r = ComputationProof { witness_commitment, nonce_range, computation_steps, intermediate_hashes };
        assert(commits_to(r, ws));
        r
    }

    /// Whether `hash` passes a spot check against this proof.
    pub fn matches_any(&self, hash: &[u8; 32]) -> (r: bool)
        ensures
            r == spot_check_passes(self.intermediate_hashes@, hash@),
    {
        let mut i: usize = 0;
        while i < self.intermediate_hashes.len()
            invariant
                i <= self.intermediate_hashes@.len(),
                forall|k: int| 0 <= k < i ==> !prefix_match(#[trigger] self.intermediate_hashes@[k]@, hash@),
            decreases self.intermediate_hashes@.len() - i,
        {
            let h = &self.intermediate_hashes[i];
            let mut j: usize = 0;
            let mut same = true;
            while j < 8
                invariant
                    j <= 8,
                    h@.len() == 32,
                    hash@.len() == 32,
                    same == forall|t: int| 0 <= t < j ==> h@[t] == hash@[t],
                decreases 8 - j,
            {
                if h[j] != hash[j] {
                    same = false;
                }
                j = j + 1;
            }
            if same {
                assert(h@.subrange(0, 8) =~= hash@.subrange(0, 8));
                return true;
            }
            assert(!prefix_match(h@, hash@)) by {
                let t = choose|t: int| 0 <= t < 8 && h@[t] != hash@[t];
                assert(h@.subrange(0, 8)[t] != hash@.subrange(0, 8)[t]);
            }
            i = i + 1;
        }
        false
    }

    /// Whether every recomputed digest passes a spot check.
    pub fn check_spot_hashes(&self, hashes: &Vec<[u8; 32]>) -> (r: bool)
        ensures
            r == forall|k: int| 0 <= k < hashes@.len() ==> spot_check_passes(self.intermediate_hashes@, #[trigger] hashes@[k]@),
    {
        let mut k: usize = 0;
        while k < hashes.len()
            invariant
                k <= hashes@.len(),
                forall|t: int| 0 <= t < k ==> spot_check_passes(self.intermediate_hashes@, #[trigger] hashes@[t]@),
            decreases hashes@.len() - k,
        {
            if !self.matches_any(&hashes[k]) {
                return false;
            }
            k = k + 1;
        }
        true
    }

    /// Spot-checks the proof: draws `spot_check_count` nonces uniformly from
    /// its range, recomputes each witness through `oracle`, and requires the
    /// digest of each to pass a spot check against the intermediate hashes.
    pub fn verify<O: WitnessOracle>(&self, oracle: &O, block_commitment: &[u8], spot_check_count: usize) -> (r: bool)
        requires
            spot_check_count == 0 || self.nonce_range.start < self.nonce_range.end,
        ensures
            exists|ns: Seq<u64>|
                {
                    &&& ns.len() == spot_check_count
                    &&& forall|k: int|
                        0 <= k < ns.len() ==> self.nonce_range.start <= #[trigger] ns[k] < self.nonce_range.end
                    &&& r == forall|k: int|
                        0 <= k < ns.len() ==> spot_check_passes(
                            self.intermediate_hashes@,
                            sha256_of(oracle.witness_of(block_commitment@, #[trigger] ns[k])),
                        )
                },
    {
        let mut hashes: Vec<[u8; 32]> = Vec::new();
        let ghost mut ns: Seq<u64> = Seq::empty();
        let mut i: usize = 0;
        while i < spot_check_count
            invariant
                spot_check_count == 0 || self.nonce_range.start < self.nonce_range.end,
                i <= spot_check_count,
                hashes@.len() == i,
                ns.len() == i,
                forall|k: int| 0 <= k < i ==> self.nonce_range.start <= #[trigger] ns[k] < self.nonce_range.end,
                forall|k: int|
                    0 <= k < i ==> (#[trigger] hashes@[k])@ == sha256_of(oracle.witness_of(block_commitment@, ns[k])),
            decreases spot_check_count - i,
        {
            let nonce = random_in_range(self.nonce_range.start, self.nonce_range.end);
            let witness = oracle.partial_witness(block_commitment, nonce);
            let h = sha256(witness.as_slice());
            hashes.push(h);
            proof {
                ns = ns.push(nonce);
                assert(hashes@[i as int]@ == sha256_of(oracle.witness_of(block_commitment@, ns[i as int])));
            }
            i = i + 1;
        }
        let r = self.check_spot_hashes(&hashes);
        proof {
            assert(r == forall|k: int|
                0 <= k < ns.len() ==> spot_check_passes(
                    self.intermediate_hashes@,
                    sha256_of(oracle.witness_of(block_commitment@, #[trigger] ns[k])),
                )) by {
                assert forall|k: int| 0 <= k < ns.len() implies hashes@[k]@ == sha256_of(
                    oracle.witness_of(block_commitment@, #[trigger] ns[k]),
                ) by {}
            }
        }
        r
    }
}

} // verus!
