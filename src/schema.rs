//! The records the pool keeps. Times are whole seconds since the Unix epoch.

use vstd::prelude::*;
use std::ops::Range;
use crate::outside::{sha256, sha256_of};
use vstd::string::StringSliceAdditionalSpecFns;

verus! {

/// A registered miner, keyed by address.
#[derive(Debug, Clone)]
pub struct MinerRecord {
    pub address: String,
    pub worker_name: String,
    pub shares_submitted: u64,
    pub shares_valid: u64,
    pub last_share_time: i64,
    pub total_difficulty: u128,
    pub registration_time: i64,
    pub is_active: bool,
}

impl MinerRecord {
    /// Accounting holds together: no more valid shares than submitted ones.
    pub open spec fn wf(&self) -> bool {
        self.shares_valid <= self.shares_submitted
    }

    /// A fresh, active record with no shares, registered at `now`.
    pub fn new(address: String, worker_name: String, now: i64) -> (r: Self)
        ensures
            r.address == address,
            r.worker_name == worker_name,
            r.shares_submitted == 0,
            r.shares_valid == 0,
            r.last_share_time == now,
            r.total_difficulty == 0,
            r.registration_time == now,
            r.is_active,
            r.wf(),
    {
        MinerRecord {
            address,
            worker_name,
            shares_submitted: 0,
            shares_valid: 0,
            last_share_time: now,
            total_difficulty: 0,
            registration_time: now,
            is_active: true,
        }
    }
}

/// One accepted share; immutable once stored.
#[derive(Debug, Clone)]
pub struct ShareRecord {
    pub id: String,
    pub miner_address: String,
    pub job_id: String,
    pub nonce: u64,
    pub difficulty: u64,
    pub timestamp: i64,
    pub is_valid: bool,
    pub is_block: bool,
    pub reward_units: u128,
}

/// Work handed out to miners: a block commitment with its targets.
#[derive(Debug, Clone)]
pub struct JobTemplate {
    pub id: String,
    pub block_commitment: Vec<u8>,
    pub target: Vec<u8>,
    /// Numerically larger (easier) than `target`.
    pub share_target: Vec<u8>,
    pub timestamp: i64,
    /// Nonce range assigned to each miner, by miner id.
    pub nonce_ranges: Vec<(String, Range<u64>)>,
    pub height: u64,
    pub previous_block: String,
}

/// Little-endian value of a byte sequence.
pub open spec fn le_value(b: Seq<u8>) -> int
    decreases b.len(),
{
    if b.len() == 0 {
        0
    } else {
        b[0] + 256 * le_value(b.drop_first())
    }
}

/// The slot of a miner among `total` miners: the first eight bytes of the
/// SHA-256 digest of its id, read little-endian, modulo `total`.
pub open spec fn miner_slot(miner_id: Seq<u8>, total: int) -> int {
    le_value(sha256_of(miner_id).subrange(0, 8)) % total
}

proof fn lemma_le_value_bound(b: Seq<u8>, k: int)
    requires
        0 <= k <= b.len(),
    ensures
        0 <= le_value(b.subrange(k, b.len() as int)),
        b.len() - k <= 8 ==> le_value(b.subrange(k, b.len() as int)) < pow256(b.len() - k),
    decreases b.len() - k,
{
    if k < b.len() {
        lemma_le_value_bound(b, k + 1);
        let s = b.subrange(k, b.len() as int);
        assert(s.drop_first() =~= b.subrange(k + 1, b.len() as int));
        let v = le_value(b.subrange(k + 1, b.len() as int));
        if b.len() - k <= 8 {
            assert(b[k] + 256 * v < 256 * pow256(b.len() - k - 1)) by (nonlinear_arith)
                requires
                    v < pow256(b.len() - k - 1),
                    0 <= b[k] < 256,
            ;
        }
    } else {
        assert(b.subrange(k, b.len() as int) =~= Seq::<u8>::empty());
    }
}

pub open spec fn pow256(n: int) -> int
    decreases n,
{
    if n <= 0 { 1 } else { 256 * pow256(n - 1) }
}

impl JobTemplate {
    /// The nonce range of one miner when the nonces are split evenly among
    /// `total_miners`: its slot's share, the last slot running to `u64::MAX`.
    pub fn calculate_nonce_range(&self, miner_id: &str, total_miners: usize) -> (r: Range<u64>)
        requires
            total_miners > 0,
        ensures
            ({
                let size = (u64::MAX as int) / (total_miners as int);
                let slot = miner_slot(miner_id.spec_bytes(), total_miners as int);
                &&& r.start == slot * size
                &&& r.end == if slot == total_miners - 1 { u64::MAX as int } else { (slot + 1) * size }
            }),
    {
        let total = total_miners as u64;
        let range_size = u64::MAX / total;
        let h = sha256(miner_id.as_bytes());
        let ghost prefix = h@.subrange(0, 8);
        let mut v: u64 = 0;
        let mut i: usize = 8;
        proof {
            assert(prefix.subrange(8, 8) =~= Seq::<u8>::empty());
        }
        while i > 0
            invariant
                i <= 8,
                h@.len() == 32,
                prefix == h@.subrange(0, 8),
                v == le_value(prefix.subrange(i as int, 8)),
            decreases i,
        {
            proof {
                lemma_le_value_bound(prefix, i as int);
                assert(pow256(9 - i as int) <= pow256(8)) by {
                    lemma_pow_mono(9 - i as int, 8);
                }
                assert(pow256(8) == 0x1_0000_0000_0000_0000) by {
                    reveal_with_fuel(pow256, 9);
                }
                assert(prefix.subrange(i as int - 1, 8).drop_first() =~= prefix.subrange(i as int, 8));
                assert(v * 256 + 255 < 0x1_0000_0000_0000_0000) by (nonlinear_arith)
                    requires
                        v < pow256(8 - i as int),
                        pow256(8 - i as int) * 256 == pow256(9 - i as int),
                        pow256(9 - i as int) <= 0x1_0000_0000_0000_0000,
                {
                }
            }
            i = i - 1;
            v = (h[i] as u64) + v * 256;
        }
        assert(prefix.subrange(0, 8) =~= prefix);
        let slot = v % total;
        assert(slot * range_size <= u64::MAX) by (nonlinear_arith)
            requires
                slot < total,
                range_size == (u64::MAX as int) / (total as int),
                total > 0,
        ;
        let start = slot * range_size;
        let end = if slot == total - 1 {
            u64::MAX
        } else {
            assert((slot + 1) * range_size <= u64::MAX) by (nonlinear_arith)
                requires
                    slot + 1 <= total,
                    range_size == (u64::MAX as int) / (total as int),
                    total > 0,
            ;
            (slot + 1) * range_size
        };
        start..end
    }
}

proof fn lemma_pow_mono(a: int, b: int)
    requires
        0 <= a <= b,
    ensures
        pow256(a) <= pow256(b),
        pow256(a) >= 1,
    decreases b,
{
    if b > a {
        lemma_pow_mono(a, b - 1);
    } else if a > 0 {
        lemma_pow_mono(a - 1, a - 1);
    }
}

/// A payout owed to one miner for a reward window.
#[derive(Debug, Clone)]
pub struct PendingPayout {
    pub miner_address: String,
    pub amount: u64,
    /// The reward window the payout covers, start and end.
    pub window_start: i64,
    pub window_end: i64,
    pub share_count: u64,
}

/// Payouts waiting for the outside broadcaster.
#[derive(Debug, Clone)]
pub struct PayoutQueue {
    pub pending_payouts: Vec<PendingPayout>,
    pub last_payout_time: i64,
    pub total_paid: u64,
}

} // verus!

verus! {

/// Reputation score in thousandths, from valid and invalid share counts and
/// blocks found: 0.7 of the valid ratio plus 0.3 of the block ratio (blocks
/// found over expected blocks, one per 100000 valid shares and at least one,
/// capped at 2), each term floored to thousandths, clamped to [0.1, 2.0].
pub open spec fn reputation_score_spec(valid: u64, invalid: u64, blocks: u64) -> int {
    let shares: int = if valid + invalid == 0 { 1 } else { valid + invalid };
    let valid_term: int = 700 * (valid as int) / shares;
    let block_term: int = if valid <= 100000 {
        if blocks >= 2 { 600 } else { 300 * (blocks as int) }
    } else {
        let t: int = 30000000 * (blocks as int) / (valid as int);
        if t > 600 { 600 } else { t }
    };
    let raw = valid_term + block_term;
    if raw < 100 { 100 } else if raw > 2000 { 2000 } else { raw }
}

/// How a miner's work has held up.
#[derive(Debug, Clone)]
pub struct MinerReputation {
    pub miner_address: String,
    pub valid_shares: u64,
    pub invalid_shares: u64,
    pub blocks_found: u64,
    pub last_block_time: Option<i64>,
    /// Score in thousandths: 1000 stands for 1.0.
    pub reputation_score: u64,
}

impl MinerReputation {
    /// The score lies in [0.1, 2.0].
    pub open spec fn wf(&self) -> bool {
        100 <= self.reputation_score <= 2000
    }

    /// A neutral reputation (score 1.0) with no history.
    pub fn new(miner_address: String) -> (r: Self)
        ensures
            r.miner_address == miner_address,
            r.valid_shares == 0,
            r.invalid_shares == 0,
            r.blocks_found == 0,
            r.last_block_time is None,
            r.reputation_score == 1000,
            r.wf(),
    {
        MinerReputation {
            miner_address,
            valid_shares: 0,
            invalid_shares: 0,
            blocks_found: 0,
            last_block_time: None,
            reputation_score: 1000,
        }
    }

    /// Recomputes the score from the counts; nothing else changes.
    pub fn update_reputation(&mut self)
        ensures
            final(self).reputation_score == reputation_score_spec(
                old(self).valid_shares,
                old(self).invalid_shares,
                old(self).blocks_found,
            ),
            final(self).wf(),
            final(self).miner_address == old(self).miner_address,
            final(self).valid_shares == old(self).valid_shares,
            final(self).invalid_shares == old(self).invalid_shares,
            final(self).blocks_found == old(self).blocks_found,
            final(self).last_block_time == old(self).last_block_time,
    {
        let valid = self.valid_shares as u128;
        let sum: u128 = valid + self.invalid_shares as u128;
        let shares: u128 = if sum == 0 { 1 } else { sum };
        assert(700 * valid <= 700 * (u64::MAX as int));
        let valid_term: u128 = 700 * valid / shares;
        assert(valid_term <= 700) by (nonlinear_arith)
            requires
                valid_term == 700 * (valid as int) / (shares as int),
                valid <= shares,
                shares >= 1,
        ;
        let block_term: u128 = if self.valid_shares <= 100000 {
            if self.blocks_found >= 2 { 600 } else { 300 * (self.blocks_found as u128) }
        } else {
            assert(30000000 * (self.blocks_found as int) <= 30000000 * (u64::MAX as int));
            let t: u128 = 30000000 * (self.blocks_found as u128) / valid;
            if t > 600 { 600 } else { t }
        };
        let raw = valid_term + block_term;
        self.reputation_score = if raw < 100 { 100 } else if raw > 2000 { 2000 } else { raw as u64 };
    }
}

/// Pool-wide figures over the reward window. Rates are kept as their two
/// integer parts: the hashrate is `total_difficulty / window_seconds`, the
/// share rate `share_count / window_seconds`.
#[derive(Debug, Clone, Copy)]
pub struct PoolStats {
    pub total_difficulty: u128,
    pub share_count: u64,
    pub window_seconds: u64,
    pub active_miners: u64,
    pub average_share_difficulty: u64,
    pub blocks_found_24h: u64,
    pub total_paid_24h: u64,
    /// Pool fee in basis points (hundredths of a percent).
    pub pool_fee_bps: u64,
}

} // verus!
