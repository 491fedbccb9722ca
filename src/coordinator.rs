//! The façade through which sessions reach the pool: miner registration,
//! share submission and its bookkeeping, jobs, statistics and maintenance.

use vstd::prelude::*;
use vstd::string::*;
use crate::computation_proof::WitnessOracle;
use crate::error::PoolError;
use crate::outside::{new_uuid, now_timestamp};
use crate::payout::{PayoutManager, miners_of, payout_row, payout_rows, pool_fee, total_units};
use crate::schema::{
    JobTemplate,
    MinerRecord,
    MinerReputation,
    PendingPayout,
    PoolStats,
    ShareRecord,
    reputation_score_spec,
};
use crate::store::{
    Store,
    miners_after_save,
    conflicts,
    has_share_id,
    has_work,
    same_work,
    copy_miner,
    miner_with,
    reputation_with,
    shares_after,
    window_shares,
};
use crate::types::{ShareSubmission, ShareValidation};
use crate::validator::{ShareValidator, validation_outcome};

verus! {

/// Seconds shares are kept in the window before maintenance drops them.
pub const RETENTION_SECONDS: i64 = 172800;

/// Settings of a pool.
#[derive(Debug, Clone)]
pub struct PoolConfig {
    pub pool_name: String,
    /// Pool fee in basis points (hundredths of a percent); 200 is 2%.
    pub fee_bps: u64,
    pub min_payout: u64,
    pub payout_interval: u64,
    pub share_window_hours: u64,
    /// Validation threshold in basis points; 9500 is 0.95.
    pub validation_threshold_bps: u64,
}

impl PoolConfig {
    /// The fee is at most 100%, and the window's length in seconds fits an `i64`.
    pub open spec fn wf(&self) -> bool {
        self.fee_bps <= 10000 && self.share_window_hours * 3600 <= i64::MAX
    }

    pub open spec fn window_seconds(&self) -> int {
        self.share_window_hours * 3600
    }
}

impl Default for PoolConfig {
    fn default() -> (r: Self)
        ensures
            r.fee_bps == 200,
            r.min_payout == 1_000_000,
            r.payout_interval == 3600,
            r.share_window_hours == 24,
            r.validation_threshold_bps == 9500,
            r.wf(),
    {
        PoolConfig {
            pool_name: String::from_str("Nockchain Mining Pool"),
            fee_bps: 200,
            min_payout: 1_000_000,
            payout_interval: 3600,
            share_window_hours: 24,
            validation_threshold_bps: 9500,
        }
    }
}

/// A reward window waiting for payout calculation.
#[derive(Debug, Clone, Copy)]
pub struct PayoutWindow {
    pub start: i64,
    pub end: i64,
}

/// What the pool reports about one miner.
#[derive(Debug, Clone)]
pub struct MinerStats {
    pub address: String,
    pub worker_name: String,
    pub shares_submitted: u64,
    pub shares_valid: u64,
    pub total_difficulty: u128,
    pub last_share_time: i64,
    pub blocks_found: u64,
    /// In thousandths: 1000 stands for 1.0.
    pub reputation_score: u64,
    pub is_active: bool,
}

/// `x + 1`, held at `u64::MAX`.
pub open spec fn sat_inc(x: u64) -> u64 {
    if x == u64::MAX { x } else { (x + 1) as u64 }
}

/// `x + y`, held at `u128::MAX`.
pub open spec fn sat_add(x: u128, y: u64) -> u128 {
    if x + y > u128::MAX { u128::MAX } else { (x + y) as u128 }
}

/// `a - b`, held at `i64::MIN`.
pub open spec fn sat_sub(a: i64, b: i64) -> i64 {
    if a - b < i64::MIN { i64::MIN } else { (a - b) as i64 }
}

/// The single writer of the pool's state.
pub struct PoolCoordinator {
    store: Store,
    share_validator: ShareValidator,
    payout_manager: PayoutManager,
    config: PoolConfig,
    payout_windows: Vec<PayoutWindow>,
}

impl PoolCoordinator {
    pub closed spec fn store_view(&self) -> Store {
        self.store
    }

    pub closed spec fn config_view(&self) -> PoolConfig {
        self.config
    }

    /// Reward windows queued for payout, oldest first.
    pub closed spec fn payout_windows_view(&self) -> Seq<PayoutWindow> {
        self.payout_windows@
    }

    pub closed spec fn wf(&self) -> bool {
        &&& self.store.wf()
        &&& self.config.wf()
        &&& self.payout_manager.wf()
        &&& self.payout_manager.pool_fee_bps == self.config.fee_bps
        &&& self.share_validator.spot_check_count == crate::validator::SPOT_CHECK_COUNT
    }

    /// A coordinator over an empty state.
    pub fn new(config: PoolConfig) -> (r: Self)
        requires
            config.wf(),
        ensures
            r.wf(),
            r.config_view() == config,
            r.store_view().miners_view().len() == 0,
            r.store_view().shares_view().len() == 0,
            r.store_view().jobs_view().len() == 0,
            r.payout_windows_view().len() == 0,
    {
        let payout_manager = PayoutManager::new(config.fee_bps);
        PoolCoordinator {
            store: Store::new(),
            share_validator: ShareValidator::new(),
            payout_manager,
            config,
            payout_windows: Vec::new(),
        }
    }

    /// The pool's state, for reading.
    pub fn store(&self) -> (r: &Store)
        ensures
            *r == self.store_view(),
    {
        &self.store
    }

    /// Registers the miner at `address` under `worker_name` and marks it
    /// active; an existing record keeps its accounting.
    pub fn register_miner(&mut self, address: &str, worker_name: &str)
        requires
            old(self).wf(),
        ensures
            final(self).wf(),
            register_outcome(*old(self), *final(self), address@, worker_name@),
    {
        let miner = match self.store.get_miner(address) {
            Some(m) => {
                let mut m = m;
                m.worker_name = String::from_str(worker_name);
                m.is_active = true;
                m
            },
            None => MinerRecord::new(String::from_str(address), String::from_str(worker_name), now_timestamp()),
        };
        self.store.save_miner(miner);
    }

    /// Marks every miner registered under `worker_name` inactive; records
    /// are never removed and nothing else changes.
    pub fn unregister_miner(&mut self, worker_name: &str)
        requires
            old(self).wf(),
        ensures
            final(self).wf(),
            final(self).store_view().miners_view() == old(self).store_view().miners_view().map_values(
                |m: MinerRecord| if m.worker_name@ == worker_name@ { MinerRecord { is_active: false, ..m } } else { m },
            ),
            final(self).store_view().shares_view() == old(self).store_view().shares_view(),
            final(self).store_view().jobs_view() == old(self).store_view().jobs_view(),
            final(self).store_view().reputations_view() == old(self).store_view().reputations_view(),
            final(self).config_view() == old(self).config_view(),
            final(self).payout_windows_view() == old(self).payout_windows_view(),
    {
        self.store.deactivate_worker(worker_name);
    }

    /// Validates a submission and, where it is accepted, records it under a
    /// fresh id at the current time: the outcome of `submit_share_at` for
    /// some id and time.
    pub fn submit_share<O: WitnessOracle>(&mut self, oracle: &O, submission: ShareSubmission) -> (r: Result<
        ShareValidation,
        PoolError,
    >)
        requires
            old(self).wf(),
        ensures
            final(self).wf(),
            exists|id: String, now: i64| submit_outcome(*old(self), *final(self), *oracle, submission, id, now, r),
    {
        let id = new_uuid();
        let now = now_timestamp();
        let ghost gid = id;
        let r = self.submit_share_at(oracle, submission, id, now);
        assert(submit_outcome(*old(self), *self, *oracle, submission, gid, now, r));
        r
    }

    /// Validates a submission at time `now` and, where it is accepted, records
    /// share `share_id` at that time: the miner's counts and total difficulty grow
    /// (a record is created for a miner seen for the first time), its
    /// reputation counts one more valid share (and block) and is rescored,
    /// and a found block queues the reward window that ends at `now`. A
    /// refused submission, or a share id already stored, changes nothing.
    pub fn submit_share_at<O: WitnessOracle>(
        &mut self,
        oracle: &O,
        submission: ShareSubmission,
        share_id: String,
        now: i64,
    ) -> (r: Result<ShareValidation, PoolError>)
        requires
            old(self).wf(),
        ensures
            final(self).wf(),
            submit_outcome(*old(self), *final(self), *oracle, submission, share_id, now, r),
    {
        let validation = match self.share_validator.validate_share(&self.store, oracle, &submission, now) {
            Ok(v) => v,
            Err(e) => {
                return Err(e);
            },
        };
        if self.store.has_share_id(&share_id) {
            return Err(PoolError::DuplicateShare);
        }
        let miner_id = submission.miner_id.clone();
        let nonce = submission.share_type.nonce();
        // a miner seen for the first time gets a record before its first share
        let prev = self.store.get_miner(miner_id.as_str());
        let base = match prev {
            Some(m) => m,
            None => {
                let fresh = MinerRecord::new(miner_id.clone(), miner_id.clone(), now);
                self.store.save_miner(copy_miner(&fresh));
                fresh
            },
        };
        let record = ShareRecord {
            id: share_id,
            miner_address: submission.miner_id,
            job_id: submission.job_id,
            nonce,
            difficulty: validation.difficulty,
            timestamp: now,
            is_valid: true,
            is_block: validation.is_block,
            reward_units: validation.reward_units,
        };
        assert(!conflicts(self.store.shares_view(), record)) by {
            if conflicts(self.store.shares_view(), record) {
                let ss = self.store.shares_view();
                let k = choose|k: int| 0 <= k < ss.len() && ((#[trigger] ss[k]).id@ == record.id@ || same_work(ss[k], record));
                if !(ss[k].id@ == record.id@) {
                    assert(has_work(ss, submission.job_id@, submission.miner_id@, submission.share_type.nonce_spec()));
                }
            }
        }
        match self.store.save_share(record) {
            Ok(()) => {},
            Err(e) => {
                return Err(e);
            },
        }
        let mut miner = base;
        if miner.shares_submitted < u64::MAX {
            miner.shares_submitted = miner.shares_submitted + 1;
            miner.shares_valid = miner.shares_valid + 1;
        } else if miner.shares_valid < u64::MAX {
            miner.shares_valid = miner.shares_valid + 1;
        }
        miner.total_difficulty = if miner.total_difficulty > u128::MAX - validation.difficulty as u128 {
            u128::MAX
        } else {
            miner.total_difficulty + validation.difficulty as u128
        };
        miner.last_share_time = now;
        self.store.save_miner(miner);
        // reputation
        let mut reputation = match self.store.get_reputation(miner_id.as_str()) {
            Some(r) => r,
            None => MinerReputation::new(miner_id.clone()),
        };
        if reputation.valid_shares < u64::MAX {
            reputation.valid_shares = reputation.valid_shares + 1;
        }
        if validation.is_block {
            if reputation.blocks_found < u64::MAX {
                reputation.blocks_found = reputation.blocks_found + 1;
            }
            reputation.last_block_time = Some(now);
        }
        reputation.update_reputation();
        self.store.save_reputation(reputation);
        if validation.is_block {
            self.trigger_block_payout(now);
        }
        Ok(validation)
    }

    /// Queues payout calculation for the reward window ending at `end`.
    fn trigger_block_payout(&mut self, end: i64)
        requires
            old(self).config.wf(),
        ensures
            final(self).payout_windows@ == old(self).payout_windows@.push(
                PayoutWindow { start: sat_sub(end, old(self).config.window_seconds() as i64), end },
            ),
            final(self).store == old(self).store,
            final(self).config == old(self).config,
            final(self).payout_manager == old(self).payout_manager,
            final(self).share_validator == old(self).share_validator,
    {
        let start = window_start(end, self.config.share_window_hours);
        self.payout_windows.push(PayoutWindow { start, end });
    }

    /// Stores a job template and makes it current.
    pub fn new_job(&mut self, job: JobTemplate)
        requires
            old(self).wf(),
        ensures
            final(self).wf(),
            final(self).store_view().current_job_view() == Some(job.id@),
            final(self).store_view().jobs_view() == crate::store::jobs_after_save(
                old(self).store_view().jobs_view(),
                job,
            ),
            final(self).store_view().shares_view() == old(self).store_view().shares_view(),
            final(self).config_view() == old(self).config_view(),
    {
        self.store.save_job(job);
    }

    /// The current job, if one is stored.
    pub fn get_current_job(&self) -> (r: Option<&JobTemplate>)
        requires
            self.wf(),
        ensures
            match self.store_view().current_job_view() {
                Some(id) => match r {
                    Some(j) => crate::store::job_with(self.store_view().jobs_view(), id) == Some(*j),
                    None => crate::store::job_with(self.store_view().jobs_view(), id) is None,
                },
                None => r is None,
            },
    {
        self.store.get_current_job()
    }

    /// Pool statistics over the share window ending now; they are also recorded.
    pub fn get_pool_stats(&mut self) -> (r: PoolStats)
        requires
            old(self).wf(),
        ensures
            final(self).wf(),
            exists|now: i64|
                r == pool_stats_spec(old(self).store_view(), old(self).config_view(), now)
                    && final(self).store_view().pool_stats_view() == Some(r),
            final(self).store_view().shares_view() == old(self).store_view().shares_view(),
            final(self).store_view().miners_view() == old(self).store_view().miners_view(),
            final(self).store_view().jobs_view() == old(self).store_view().jobs_view(),
            final(self).store_view().reputations_view() == old(self).store_view().reputations_view(),
            final(self).config_view() == old(self).config_view(),
            final(self).payout_windows_view() == old(self).payout_windows_view(),
    {
        let now = now_timestamp();
        self.pool_stats_at(now)
    }

    /// Pool statistics over the share window ending at `now`: the shares in
    /// it, their total and average difficulty, the blocks among them, and the
    /// active miners. They are also recorded.
    pub fn pool_stats_at(&mut self, now: i64) -> (r: PoolStats)
        requires
            old(self).wf(),
        ensures
            final(self).wf(),
            r == pool_stats_spec(old(self).store_view(), old(self).config_view(), now),
            final(self).store_view().pool_stats_view() == Some(r),
            final(self).store_view().shares_view() == old(self).store_view().shares_view(),
            final(self).store_view().miners_view() == old(self).store_view().miners_view(),
            final(self).store_view().jobs_view() == old(self).store_view().jobs_view(),
            final(self).store_view().reputations_view() == old(self).store_view().reputations_view(),
            final(self).config_view() == old(self).config_view(),
            final(self).payout_windows_view() == old(self).payout_windows_view(),
    {
        let active_miners = self.store.get_active_miners().len() as u64;
        let start = window_start(now, self.config.share_window_hours);
        let shares = self.store.get_shares_in_window(start, now);
        let (total_difficulty, blocks) = difficulty_totals(&shares);
        let count = shares.len() as u64;
        let average: u64 = if count == 0 {
            0
        } else {
            proof {
                assert((total_difficulty as int) / (count as int) <= u64::MAX) by (nonlinear_arith)
                    requires
                        total_difficulty <= (count as int) * (u64::MAX as int),
                        count > 0,
                ;
            }
            (total_difficulty / (count as u128)) as u64
        };
        let stats = PoolStats {
            total_difficulty,
            share_count: count,
            window_seconds: (self.config.share_window_hours * 3600) as u64,
            active_miners,
            average_share_difficulty: average,
            blocks_found_24h: blocks,
            total_paid_24h: 0,
            pool_fee_bps: self.config.fee_bps,
        };
        self.store.update_pool_stats(&stats);
        stats
    }

    /// What the pool reports about the miner at `address`; `MinerNotFound`
    /// where none is registered. A miner without a reputation shows a
    /// neutral one.
    pub fn get_miner_stats(&self, address: &str) -> (r: Result<MinerStats, PoolError>)
        requires
            self.wf(),
        ensures
            match miner_with(self.store_view().miners_view(), address@) {
                None => r matches Err(e) && (e matches PoolError::MinerNotFound(a) && a@ == address@),
                Some(m) => r matches Ok(s) && s.address == m.address && s.worker_name == m.worker_name
                    && s.shares_submitted == m.shares_submitted && s.shares_valid == m.shares_valid
                    && s.total_difficulty == m.total_difficulty && s.last_share_time == m.last_share_time
                    && s.is_active == m.is_active && match reputation_with(
                    self.store_view().reputations_view(),
                    address@,
                ) {
                    Some(rep) => s.blocks_found == rep.blocks_found && s.reputation_score == rep.reputation_score,
                    None => s.blocks_found == 0 && s.reputation_score == 1000,
                },
            },
    {
        let miner = match self.store.get_miner(address) {
            Some(m) => m,
            None => {
                return Err(PoolError::MinerNotFound(String::from_str(address)));
            },
        };
        let (blocks_found, reputation_score) = match self.store.get_reputation(address) {
            Some(rep) => (rep.blocks_found, rep.reputation_score),
            None => (0, 1000),
        };
        Ok(MinerStats {
            address: miner.address,
            worker_name: miner.worker_name,
            shares_submitted: miner.shares_submitted,
            shares_valid: miner.shares_valid,
            total_difficulty: miner.total_difficulty,
            last_share_time: miner.last_share_time,
            blocks_found,
            reputation_score,
            is_active: miner.is_active,
        })
    }

    /// Drops the shares older than the retention window, at the current time.
    pub fn run_maintenance(&mut self) -> (removed: u64)
        requires
            old(self).wf(),
        ensures
            final(self).wf(),
            exists|now: i64|
                final(self).store_view().shares_view() == shares_after(
                    old(self).store_view().shares_view(),
                    sat_sub(now, RETENTION_SECONDS),
                ),
    {
        let now = now_timestamp();
        self.run_maintenance_at(now)
    }

    /// Drops every share whose timestamp lies at or before `now` less the
    /// retention window (48 hours), and returns how many went.
    pub fn run_maintenance_at(&mut self, now: i64) -> (removed: u64)
        requires
            old(self).wf(),
        ensures
            final(self).wf(),
            final(self).store_view().shares_view() == shares_after(
                old(self).store_view().shares_view(),
                sat_sub(now, RETENTION_SECONDS),
            ),
            forall|k: int|
                0 <= k < final(self).store_view().shares_view().len() ==> (#[trigger] final(self).store_view().shares_view()[k]).timestamp
                    > sat_sub(now, RETENTION_SECONDS),
            removed == old(self).store_view().shares_view().len() - final(self).store_view().shares_view().len(),
            final(self).store_view().miners_view() == old(self).store_view().miners_view(),
            final(self).config_view() == old(self).config_view(),
    {
        let cutoff = if now < i64::MIN + RETENTION_SECONDS {
            i64::MIN
        } else {
            now - RETENTION_SECONDS
        };
        self.store.cleanup_old_shares(cutoff)
    }

    /// Payouts of `block_reward` over the valid shares of `window`, from the
    /// share ledger.
    pub fn calculate_payouts(&self, block_reward: u64, window: PayoutWindow) -> (r: Result<Vec<PendingPayout>, PoolError>)
        requires
            self.wf(),
        ensures
            ({
                let shares = window_shares(self.store_view().shares_view(), window.start, window.end);
                let t = total_units(shares);
                let d = block_reward - pool_fee(block_reward as int, self.config_view().fee_bps as int);
                match r {
                    Ok(ps) => t <= u128::MAX && ps@.map_values(|p: PendingPayout| payout_row(p))
                        == (if t == 0 { Seq::empty() } else { payout_rows(shares, miners_of(shares), d) }),
                    Err(e) => t > u128::MAX && e is Payout,
                }
            }),
    {
        let shares = self.store.get_shares_in_window(window.start, window.end);
        self.payout_manager.calculate_payouts(block_reward, &shares, window.start, window.end)
    }

    /// Reward windows queued for payout, oldest first.
    pub fn payout_windows(&self) -> (r: &Vec<PayoutWindow>)
        ensures
            r@ == self.payout_windows_view(),
    {
        &self.payout_windows
    }

    /// The payout calculator of the pool.
    pub fn payout_manager(&self) -> (r: &PayoutManager)
        requires
            self.wf(),
        ensures
            r.wf(),
            r.pool_fee_bps == self.config_view().fee_bps,
    {
        &self.payout_manager
    }
}

/// What registering the miner at `address` under `worker` does, from `c0`
/// to `c1`: its record (created with no shares where there was none, else
/// keeping its accounting) is stored active under the new worker name, every
/// other record stays, the address joins the active set, and nothing else
/// changes.
pub open spec fn register_outcome(c0: PoolCoordinator, c1: PoolCoordinator, address: Seq<char>, worker: Seq<char>) -> bool {
    let s0 = c0.store_view();
    let s1 = c1.store_view();
    &&& exists|m: MinerRecord|
        {
            &&& m.address@ == address
            &&& m.worker_name@ == worker
            &&& m.is_active
            &&& s1.miners_view() == miners_after_save(s0.miners_view(), m)
            &&& match miner_with(s0.miners_view(), address) {
                Some(p) => m.shares_submitted == p.shares_submitted && m.shares_valid == p.shares_valid
                    && m.total_difficulty == p.total_difficulty && m.registration_time == p.registration_time
                    && m.last_share_time == p.last_share_time,
                None => m.shares_submitted == 0 && m.shares_valid == 0 && m.total_difficulty == 0,
            }
        }
    &&& s1.active_view().contains(address)
    &&& forall|a: Seq<char>| s0.active_view().contains(a) ==> s1.active_view().contains(a)
    &&& s1.shares_view() == s0.shares_view()
    &&& s1.jobs_view() == s0.jobs_view()
    &&& s1.current_job_view() == s0.current_job_view()
    &&& s1.reputations_view() == s0.reputations_view()
    &&& s1.pool_stats_view() == s0.pool_stats_view()
    &&& c1.config_view() == c0.config_view()
    &&& c1.payout_windows_view() == c0.payout_windows_view()
}

/// A well-formed coordinator holds a well-formed state: every share has a
/// miner record, no miner has more valid than submitted shares, at most one
/// share per (job, miner, nonce), every score in [0.1, 2.0]; and its
/// configuration is valid.
pub proof fn lemma_coordinator_wf(c: PoolCoordinator)
    requires
        c.wf(),
    ensures
        c.store_view().wf(),
        c.config_view().wf(),
{
}

/// What submitting `sub` as share `share_id` at time `now` does, from
/// coordinator `c0` to `c1`, with result `r`.
pub open spec fn submit_outcome<O: WitnessOracle>(
    c0: PoolCoordinator,
    c1: PoolCoordinator,
    oracle: O,
    sub: ShareSubmission,
    share_id: String,
    now: i64,
    r: Result<ShareValidation, PoolError>,
) -> bool {
    let old_store = c0.store_view();
    let new_store = c1.store_view();
    let a = sub.miner_id@;
    &&& c1.config_view() == c0.config_view()
    &&& match r {
        Err(e) => {
            &&& new_store == old_store
            &&& c1.payout_windows_view() == c0.payout_windows_view()
            &&& (validation_outcome(old_store, oracle, sub, now, Err(e)) || (e is DuplicateShare && has_share_id(
                old_store.shares_view(),
                share_id@,
            )))
        },
        Ok(v) => {
            let rec = ShareRecord {
                id: share_id,
                miner_address: sub.miner_id,
                job_id: sub.job_id,
                nonce: sub.share_type.nonce_spec(),
                difficulty: v.difficulty,
                timestamp: now,
                is_valid: true,
                is_block: v.is_block,
                reward_units: v.reward_units,
            };
            &&& validation_outcome(old_store, oracle, sub, now, Ok(v))
            &&& !has_share_id(old_store.shares_view(), share_id@)
            &&& new_store.shares_view() == old_store.shares_view().push(rec)
            &&& new_store.jobs_view() == old_store.jobs_view()
            &&& new_store.current_job_view() == old_store.current_job_view()
            &&& match miner_with(new_store.miners_view(), a) {
                Some(m) => {
                    let (sub0, val0, diff0) = match miner_with(old_store.miners_view(), a) {
                        Some(p) => (p.shares_submitted, p.shares_valid, p.total_difficulty),
                        None => (0u64, 0u64, 0u128),
                    };
                    &&& m.shares_submitted == sat_inc(sub0)
                    &&& m.shares_valid == sat_inc(val0)
                    &&& m.total_difficulty == sat_add(diff0, v.difficulty)
                    &&& m.last_share_time == now
                },
                None => false,
            }
            &&& match reputation_with(new_store.reputations_view(), a) {
                Some(rep) => {
                    let (valid0, invalid0, blocks0) = match reputation_with(old_store.reputations_view(), a) {
                        Some(p) => (p.valid_shares, p.invalid_shares, p.blocks_found),
                        None => (0u64, 0u64, 0u64),
                    };
                    &&& rep.valid_shares == sat_inc(valid0)
                    &&& rep.invalid_shares == invalid0
                    &&& rep.blocks_found == if v.is_block { sat_inc(blocks0) } else { blocks0 }
                    &&& v.is_block ==> rep.last_block_time == Some(now)
                    &&& rep.reputation_score == reputation_score_spec(rep.valid_shares, rep.invalid_shares, rep.blocks_found)
                    &&& rep.wf()
                },
                None => false,
            }
            &&& c1.payout_windows_view() == if v.is_block {
                c0.payout_windows_view().push(
                    PayoutWindow { start: sat_sub(now, c0.config_view().window_seconds() as i64), end: now },
                )
            } else {
                c0.payout_windows_view()
            }
        },
    }
}

/// Sum of the difficulties of the shares.
pub open spec fn difficulty_sum(s: Seq<ShareRecord>) -> int
    decreases s.len(),
{
    if s.len() == 0 {
        0
    } else {
        difficulty_sum(s.drop_last()) + s.last().difficulty
    }
}

/// Number of blocks among the shares.
pub open spec fn block_count(s: Seq<ShareRecord>) -> int
    decreases s.len(),
{
    if s.len() == 0 {
        0
    } else {
        block_count(s.drop_last()) + if s.last().is_block { 1int } else { 0 }
    }
}

/// Pool statistics of a state at time `now`.
pub open spec fn pool_stats_spec(store: Store, config: PoolConfig, now: i64) -> PoolStats {
    let shares = window_shares(store.shares_view(), sat_sub(now, config.window_seconds() as i64), now);
    let total = difficulty_sum(shares);
    PoolStats {
        total_difficulty: total as u128,
        share_count: shares.len() as u64,
        window_seconds: config.window_seconds() as u64,
        active_miners: store.active_view().len() as u64,
        average_share_difficulty: if shares.len() == 0 { 0 } else { (total / (shares.len() as int)) as u64 },
        blocks_found_24h: block_count(shares) as u64,
        total_paid_24h: 0,
        pool_fee_bps: config.fee_bps,
    }
}

/// Start of the window of `hours` hours that ends at `end`, held at `i64::MIN`.
fn window_start(end: i64, hours: u64) -> (r: i64)
    requires
        hours * 3600 <= i64::MAX,
    ensures
        r == sat_sub(end, (hours * 3600) as i64),
{
    let span = (hours * 3600) as i64;
    if end < i64::MIN + span {
        i64::MIN
    } else {
        end - span
    }
}

/// Total difficulty and number of blocks of the shares.
fn difficulty_totals(shares: &Vec<ShareRecord>) -> (r: (u128, u64))
    ensures
        r.0 == difficulty_sum(shares@),
        r.0 <= shares@.len() * u64::MAX,
        r.1 == block_count(shares@),
{
    let mut total: u128 = 0;
    let mut blocks: u64 = 0;
    let mut i: usize = 0;
    while i < shares.len()
        invariant
            i <= shares@.len(),
            total == difficulty_sum(shares@.take(i as int)),
            total <= i * u64::MAX,
            blocks == block_count(shares@.take(i as int)),
            blocks <= i,
        decreases shares@.len() - i,
    {
        proof {
            assert(shares@.take(i as int + 1).drop_last() == shares@.take(i as int));
            assert((i as int) * (u64::MAX as int) + (u64::MAX as int) == (i as int + 1) * (u64::MAX as int))
                by (nonlinear_arith);
            assert((i as int + 1) * (u64::MAX as int) <= (u64::MAX as int) * (u64::MAX as int)) by (nonlinear_arith)
                requires
                    i < u64::MAX,
            ;
        }
        total = total + shares[i].difficulty as u128;
        if shares[i].is_block {
            blocks = blocks + 1;
        }
        i = i + 1;
    }
    assert(shares@.take(i as int) == shares@);
    (total, blocks)
}

} // verus!
