//! The pool's state: miner records, the share ledger, job templates,
//! reputations and the last pool statistics. One writer at a time.

use vstd::prelude::*;
use vstd::string::*;
use crate::error::PoolError;
use crate::schema::{JobTemplate, MinerRecord, MinerReputation, PoolStats, ShareRecord};

verus! {

/// Whether some record of `ms` has address `a`.
pub open spec fn has_miner(ms: Seq<MinerRecord>, a: Seq<char>) -> bool {
    exists|i: int| 0 <= i < ms.len() && (#[trigger] ms[i]).address@ == a
}

/// Two shares for the same job, miner and nonce.
pub open spec fn same_work(x: ShareRecord, y: ShareRecord) -> bool {
    x.job_id@ == y.job_id@ && x.miner_address@ == y.miner_address@ && x.nonce == y.nonce
}

/// Whether `r` repeats a stored share, by id or by (job, miner, nonce).
pub open spec fn conflicts(ss: Seq<ShareRecord>, r: ShareRecord) -> bool {
    exists|i: int| 0 <= i < ss.len() && ((#[trigger] ss[i]).id@ == r.id@ || same_work(ss[i], r))
}

/// Whether a stored share has id `id`.
pub open spec fn has_share_id(ss: Seq<ShareRecord>, id: Seq<char>) -> bool {
    exists|i: int| 0 <= i < ss.len() && (#[trigger] ss[i]).id@ == id
}

/// Whether a stored share was made for (job, miner, nonce).
pub open spec fn has_work(ss: Seq<ShareRecord>, job_id: Seq<char>, miner: Seq<char>, nonce: u64) -> bool {
    exists|i: int|
        0 <= i < ss.len() && (#[trigger] ss[i]).job_id@ == job_id && ss[i].miner_address@ == miner && ss[i].nonce
            == nonce
}

/// The shares with `start <= timestamp <= end`, in ledger order.
pub open spec fn shares_between(s: Seq<ShareRecord>, start: i64, end: i64) -> Seq<ShareRecord>
    decreases s.len(),
{
    if s.len() == 0 {
        Seq::empty()
    } else {
        let r = shares_between(s.drop_last(), start, end);
        if start <= s.last().timestamp <= end {
            r.push(s.last())
        } else {
            r
        }
    }
}

/// Where `x` goes in `s`: after every share from the end whose timestamp
/// exceeds its own.
pub open spec fn insert_pos(s: Seq<ShareRecord>, x: ShareRecord) -> int
    decreases s.len(),
{
    if s.len() == 0 {
        0
    } else if s.last().timestamp <= x.timestamp {
        s.len() as int
    } else {
        insert_pos(s.drop_last(), x)
    }
}

/// The shares ordered by timestamp; shares of equal timestamp keep their order.
pub open spec fn sort_by_time(s: Seq<ShareRecord>) -> Seq<ShareRecord>
    decreases s.len(),
{
    if s.len() == 0 {
        s
    } else {
        let t = sort_by_time(s.drop_last());
        t.insert(insert_pos(t, s.last()), s.last())
    }
}

/// What a window scan returns: the shares with `start <= timestamp <= end`,
/// by ascending timestamp.
pub open spec fn window_shares(s: Seq<ShareRecord>, start: i64, end: i64) -> Seq<ShareRecord> {
    sort_by_time(shares_between(s, start, end))
}

pub open spec fn time_sorted(s: Seq<ShareRecord>) -> bool {
    forall|a: int, b: int| 0 <= a < b < s.len() ==> (#[trigger] s[a]).timestamp <= (#[trigger] s[b]).timestamp
}

proof fn lemma_insert_sorted(s: Seq<ShareRecord>, x: ShareRecord)
    ensures
        0 <= insert_pos(s, x) <= s.len(),
        time_sorted(s) ==> time_sorted(s.insert(insert_pos(s, x), x)),
        forall|k: int| insert_pos(s, x) <= k < s.len() ==> (#[trigger] s[k]).timestamp > x.timestamp,
        insert_pos(s, x) > 0 ==> s[insert_pos(s, x) - 1].timestamp <= x.timestamp,
    decreases s.len(),
{
    if s.len() > 0 && s.last().timestamp > x.timestamp {
        lemma_insert_sorted(s.drop_last(), x);
        let p = insert_pos(s, x);
        assert forall|k: int| p <= k < s.len() implies (#[trigger] s[k]).timestamp > x.timestamp by {
            if k < s.len() - 1 {
                assert(s[k] == s.drop_last()[k]);
            }
        }
        if p > 0 {
            assert(s[p - 1] == s.drop_last()[p - 1]);
        }
    }
    let p = insert_pos(s, x);
    if time_sorted(s) {
        let t = s.insert(p, x);
        assert forall|a: int, b: int| 0 <= a < b < t.len() implies (#[trigger] t[a]).timestamp <= (
        #[trigger] t[b]).timestamp by {
            if a < p && b < p {
                assert(t[a] == s[a] && t[b] == s[b]);
            } else if a < p && b == p {
                assert(t[a] == s[a]);
            } else if a < p {
                assert(t[a] == s[a] && t[b] == s[b - 1]);
            } else if a == p {
                assert(t[b] == s[b - 1]);
            } else {
                assert(t[a] == s[a - 1] && t[b] == s[b - 1]);
            }
        }
    }
}

proof fn lemma_sort_sorted(s: Seq<ShareRecord>)
    ensures
        time_sorted(sort_by_time(s)),
    decreases s.len(),
{
    if s.len() > 0 {
        lemma_sort_sorted(s.drop_last());
        lemma_insert_sorted(sort_by_time(s.drop_last()), s.last());
    }
}

/// The shares with `timestamp > before`, in ledger order.
pub open spec fn shares_after(s: Seq<ShareRecord>, before: i64) -> Seq<ShareRecord>
    decreases s.len(),
{
    if s.len() == 0 {
        Seq::empty()
    } else {
        let r = shares_after(s.drop_last(), before);
        if s.last().timestamp > before {
            r.push(s.last())
        } else {
            r
        }
    }
}

/// The record of `ms` with address `a`, where there is one.
pub open spec fn miner_with(ms: Seq<MinerRecord>, a: Seq<char>) -> Option<MinerRecord> {
    if has_miner(ms, a) {
        Some(ms[choose|i: int| 0 <= i < ms.len() && (#[trigger] ms[i]).address@ == a])
    } else {
        None
    }
}

/// `ms` after storing `m`: the record with its address replaced, or `m` appended.
pub open spec fn miners_after_save(ms: Seq<MinerRecord>, m: MinerRecord) -> Seq<MinerRecord> {
    if has_miner(ms, m.address@) {
        ms.map_values(|x: MinerRecord| if x.address@ == m.address@ { m } else { x })
    } else {
        ms.push(m)
    }
}

pub open spec fn has_reputation(rs: Seq<MinerReputation>, a: Seq<char>) -> bool {
    exists|i: int| 0 <= i < rs.len() && (#[trigger] rs[i]).miner_address@ == a
}

pub open spec fn reputation_with(rs: Seq<MinerReputation>, a: Seq<char>) -> Option<MinerReputation> {
    if has_reputation(rs, a) {
        Some(rs[choose|i: int| 0 <= i < rs.len() && (#[trigger] rs[i]).miner_address@ == a])
    } else {
        None
    }
}

pub open spec fn reputations_after_save(rs: Seq<MinerReputation>, r: MinerReputation) -> Seq<MinerReputation> {
    if has_reputation(rs, r.miner_address@) {
        rs.map_values(|x: MinerReputation| if x.miner_address@ == r.miner_address@ { r } else { x })
    } else {
        rs.push(r)
    }
}

pub open spec fn has_job(js: Seq<JobTemplate>, id: Seq<char>) -> bool {
    exists|i: int| 0 <= i < js.len() && (#[trigger] js[i]).id@ == id
}

pub open spec fn job_with(js: Seq<JobTemplate>, id: Seq<char>) -> Option<JobTemplate> {
    if has_job(js, id) {
        Some(js[choose|i: int| 0 <= i < js.len() && (#[trigger] js[i]).id@ == id])
    } else {
        None
    }
}

pub open spec fn jobs_after_save(js: Seq<JobTemplate>, j: JobTemplate) -> Seq<JobTemplate> {
    if has_job(js, j.id@) {
        js.map_values(|x: JobTemplate| if x.id@ == j.id@ { j } else { x })
    } else {
        js.push(j)
    }
}

/// The pool's state.
pub struct Store {
    miners: Vec<MinerRecord>,
    active: Vec<String>,
    shares: Vec<ShareRecord>,
    jobs: Vec<JobTemplate>,
    current_job: Option<String>,
    reputations: Vec<MinerReputation>,
    pool_stats: Option<PoolStats>,
}

impl Store {
    /// Miner records, one per address.
    pub closed spec fn miners_view(&self) -> Seq<MinerRecord> {
        self.miners@
    }

    /// Addresses of the active-miner set.
    pub closed spec fn active_view(&self) -> Seq<Seq<char>> {
        self.active@.map_values(|a: String| a@)
    }

    /// The share ledger, in order of insertion.
    pub closed spec fn shares_view(&self) -> Seq<ShareRecord> {
        self.shares@
    }

    pub closed spec fn jobs_view(&self) -> Seq<JobTemplate> {
        self.jobs@
    }

    pub closed spec fn current_job_view(&self) -> Option<Seq<char>> {
        match self.current_job {
            Some(id) => Some(id@),
            None => None,
        }
    }

    pub closed spec fn reputations_view(&self) -> Seq<MinerReputation> {
        self.reputations@
    }

    pub closed spec fn pool_stats_view(&self) -> Option<PoolStats> {
        self.pool_stats
    }

    /// The invariants of the state: one record per miner address, job id and
    /// reputation; every miner's accounting holds together; every share
    /// belongs to a registered miner; no two shares have the same id or the
    /// same (job, miner, nonce); every score lies in [0.1, 2.0].
    pub open spec fn wf(&self) -> bool {
        let ms = self.miners_view();
        let ss = self.shares_view();
        let js = self.jobs_view();
        let rs = self.reputations_view();
        &&& forall|i: int, j: int|
            0 <= i < ms.len() && 0 <= j < ms.len() && i != j ==> (#[trigger] ms[i]).address@ != (#[trigger] ms[j]).address@
        &&& forall|i: int| 0 <= i < ms.len() ==> (#[trigger] ms[i]).wf()
        &&& forall|k: int| 0 <= k < ss.len() ==> has_miner(ms, (#[trigger] ss[k]).miner_address@)
        &&& forall|k: int, l: int|
            0 <= k < ss.len() && 0 <= l < ss.len() && k != l ==> (#[trigger] ss[k]).id@ != (#[trigger] ss[l]).id@
                && !same_work(ss[k], ss[l])
        &&& forall|i: int, j: int|
            0 <= i < js.len() && 0 <= j < js.len() && i != j ==> (#[trigger] js[i]).id@ != (#[trigger] js[j]).id@
        &&& forall|i: int, j: int|
            0 <= i < rs.len() && 0 <= j < rs.len() && i != j ==> (#[trigger] rs[i]).miner_address@
                != (#[trigger] rs[j]).miner_address@
        &&& forall|i: int| 0 <= i < rs.len() ==> (#[trigger] rs[i]).wf()
    }

    /// An empty state.
    pub fn new() -> (r: Self)
        ensures
            r.wf(),
            r.miners_view().len() == 0,
            r.active_view().len() == 0,
            r.shares_view().len() == 0,
            r.jobs_view().len() == 0,
            r.current_job_view() is None,
            r.reputations_view().len() == 0,
            r.pool_stats_view() is None,
    {
        let r = Store {
            miners: Vec::new(),
            active: Vec::new(),
            shares: Vec::new(),
            jobs: Vec::new(),
            current_job: None,
            reputations: Vec::new(),
            pool_stats: None,
        };
        assert(r.active_view() =~= Seq::empty());
        r
    }

    fn miner_index(&self, address: &String) -> (r: Option<usize>)
        ensures
            match r {
                Some(i) => i < self.miners@.len() && self.miners@[i as int].address@ == address@,
                None => !has_miner(self.miners@, address@),
            },
    {
        let mut i: usize = 0;
        while i < self.miners.len()
            invariant
                i <= self.miners@.len(),
                forall|k: int| 0 <= k < i ==> (#[trigger] self.miners@[k]).address@ != address@,
            decreases self.miners@.len() - i,
        {
            if self.miners[i].address == *address {
                return Some(i);
            }
            i = i + 1;
        }
        None
    }

    /// The record of the miner at `address`, if registered.
    pub fn get_miner(&self, address: &str) -> (r: Option<MinerRecord>)
        requires
            self.wf(),
        ensures
            r == miner_with(self.miners_view(), address@),
    {
        let a = String::from_str(address);
        match self.miner_index(&a) {
            Some(i) => {
                let ghost ms = self.miners@;
                assert(has_miner(ms, a@));
                proof {
                    let j = choose|j: int| 0 <= j < ms.len() && (#[trigger] ms[j]).address@ == a@;
                    assert(j == i as int);
                }
                Some(copy_miner(&self.miners[i]))
            },
            None => None,
        }
    }

    /// Stores a miner record, replacing the one at its address, and adds the
    /// address to the active-miner set.
    pub fn save_miner(&mut self, miner: MinerRecord)
        requires
            old(self).wf(),
            miner.wf(),
        ensures
            final(self).wf(),
            final(self).miners_view() == miners_after_save(old(self).miners_view(), miner),
            miner_with(final(self).miners_view(), miner.address@) == Some(miner),
            final(self).active_view().contains(miner.address@),
            forall|a: Seq<char>| old(self).active_view().contains(a) ==> final(self).active_view().contains(a),
            final(self).shares_view() == old(self).shares_view(),
            final(self).jobs_view() == old(self).jobs_view(),
            final(self).current_job_view() == old(self).current_job_view(),
            final(self).reputations_view() == old(self).reputations_view(),
            final(self).pool_stats_view() == old(self).pool_stats_view(),
    {
        proof {
            lemma_views(*self);
        }
        let ghost old_ms = self.miners@;
        let ghost old_active = self.active_view();
        let address = miner.address.clone();
        match self.miner_index(&address) {
            Some(i) => {
                self.miners.set(i, miner);
                proof {
                    let ms = self.miners@;
                    assert(has_miner(old_ms, address@));
                    assert forall|k: int| 0 <= k < old_ms.len() implies ms[k] == (if old_ms[k].address@ == address@ {
                        self.miners@[i as int]
                    } else {
                        old_ms[k]
                    }) by {
                        if k != i {
                            assert(old_ms[k].address@ != old_ms[i as int].address@);
                        }
                    }
                    assert(ms =~= miners_after_save(old_ms, self.miners@[i as int]));
                    assert forall|k: int| 0 <= k < self.shares@.len() implies has_miner(
                        ms,
                        (#[trigger] self.shares@[k]).miner_address@,
                    ) by {
                        let a = self.shares@[k].miner_address@;
                        assert(has_miner(old_ms, a));
                        let j = choose|j: int| 0 <= j < old_ms.len() && (#[trigger] old_ms[j]).address@ == a;
                        assert(ms[j].address@ == a);
                    }
                }
            },
            None => {
                self.miners.push(miner);
                proof {
                    let ms = self.miners@;
                    assert(ms =~= old_ms.push(ms.last()));
                    assert forall|k: int| 0 <= k < self.shares@.len() implies has_miner(
                        ms,
                        (#[trigger] self.shares@[k]).miner_address@,
                    ) by {
                        let a = self.shares@[k].miner_address@;
                        let j = choose|j: int| 0 <= j < old_ms.len() && (#[trigger] old_ms[j]).address@ == a;
                        assert(ms[j].address@ == a);
                    }
                }
            },
        }
        proof {
            lemma_views(*self);
            let ms = self.miners@;
            assert(has_miner(ms, address@)) by {
                if has_miner(old_ms, address@) {
                    let j = choose|j: int| 0 <= j < old_ms.len() && (#[trigger] old_ms[j]).address@ == address@;
                    assert(ms[j].address@ == address@);
                } else {
                    assert(ms[old_ms.len() as int].address@ == address@);
                }
            }
            let j = choose|j: int| 0 <= j < ms.len() && (#[trigger] ms[j]).address@ == address@;
            if has_miner(old_ms, address@) {
                assert(ms[j] == miner);
            } else {
                if j < old_ms.len() {
                    assert(ms[j] == old_ms[j]);
                }
                assert(ms[j] == miner);
            }
        }
        // the active-miner set
        let mut present = false;
        let mut k: usize = 0;
        while k < self.active.len()
            invariant
                k <= self.active@.len(),
                present == exists|q: int| 0 <= q < k && (#[trigger] self.active@[q])@ == address@,
            decreases self.active@.len() - k,
        {
            if self.active[k] == address {
                present = true;
            }
            k = k + 1;
        }
        if !present {
            self.active.push(address);
            proof {
                lemma_views(*self);
                assert(self.active_view() =~= old_active.push(address@));
                assert(self.active_view()[old_active.len() as int] == address@);
                assert forall|a: Seq<char>| old_active.contains(a) implies self.active_view().contains(a) by {
                    let q = choose|q: int| 0 <= q < old_active.len() && old_active[q] == a;
                    assert(self.active_view()[q] == a);
                }
            }
        } else {
            proof {
                let q = choose|q: int| 0 <= q < self.active@.len() && (#[trigger] self.active@[q])@ == address@;
                assert(self.active_view()[q] == address@);
            }
        }
    }

    /// Marks inactive every record registered under `worker`.
    pub fn deactivate_worker(&mut self, worker: &str)
        requires
            old(self).wf(),
        ensures
            final(self).wf(),
            final(self).miners_view() == old(self).miners_view().map_values(
                |m: MinerRecord| if m.worker_name@ == worker@ { MinerRecord { is_active: false, ..m } } else { m },
            ),
            final(self).active_view() == old(self).active_view(),
            final(self).shares_view() == old(self).shares_view(),
            final(self).jobs_view() == old(self).jobs_view(),
            final(self).current_job_view() == old(self).current_job_view(),
            final(self).reputations_view() == old(self).reputations_view(),
            final(self).pool_stats_view() == old(self).pool_stats_view(),
    {
        proof {
            lemma_views(*self);
        }
        let w = String::from_str(worker);
        let ghost ms0 = self.miners@;
        let mut i: usize = 0;
        while i < self.miners.len()
            invariant
                w@ == worker@,
                self.miners@.len() == ms0.len(),
                i <= ms0.len(),
                forall|k: int|
                    0 <= k < ms0.len() ==> (#[trigger] self.miners@[k]) == if k < i && ms0[k].worker_name@ == worker@ {
                        MinerRecord { is_active: false, ..ms0[k] }
                    } else {
                        ms0[k]
                    },
                self.shares == old(self).shares,
                self.active == old(self).active,
                self.jobs == old(self).jobs,
                self.current_job == old(self).current_job,
                self.reputations == old(self).reputations,
                self.pool_stats == old(self).pool_stats,
            decreases ms0.len() - i,
        {
            if self.miners[i].worker_name == w {
                let mut m = copy_miner(&self.miners[i]);
                m.is_active = false;
                self.miners.set(i, m);
            }
            i = i + 1;
        }
        proof {
            lemma_views(*self);
            let ms = self.miners@;
            assert(ms =~= ms0.map_values(
                |m: MinerRecord| if m.worker_name@ == worker@ { MinerRecord { is_active: false, ..m } } else { m },
            ));
            assert forall|k: int| 0 <= k < self.shares@.len() implies has_miner(
                ms,
                (#[trigger] self.shares@[k]).miner_address@,
            ) by {
                let a = self.shares@[k].miner_address@;
                assert(has_miner(ms0, a));
                let j = choose|j: int| 0 <= j < ms0.len() && (#[trigger] ms0[j]).address@ == a;
                assert(ms[j].address@ == a);
            }
            assert forall|a: int, b: int| 0 <= a < ms.len() && 0 <= b < ms.len() && a != b implies (
            #[trigger] ms[a]).address@ != (#[trigger] ms[b]).address@ by {
                assert(ms0[a].address@ != ms0[b].address@);
            }
            assert forall|a: int| 0 <= a < ms.len() implies (#[trigger] ms[a]).wf() by {
                assert(ms0[a].wf());
            }
        }
    }

    /// Addresses of the active-miner set.
    pub fn get_active_miners(&self) -> (r: Vec<String>)
        ensures
            r@.map_values(|a: String| a@) == self.active_view(),
    {
        let mut out: Vec<String> = Vec::new();
        let mut i: usize = 0;
        while i < self.active.len()
            invariant
                i <= self.active@.len(),
                out@.len() == i,
                out@.map_values(|a: String| a@) == self.active_view().take(i as int),
            decreases self.active@.len() - i,
        {
            let ghost old_out = out@;
            out.push(self.active[i].clone());
            proof {
                lemma_views(*self);
                assert forall|k: int| 0 <= k < i implies out@[k]@ == self.active_view()[k] by {
                    assert(out@[k] == old_out[k]);
                    assert(old_out.map_values(|a: String| a@)[k] == self.active_view().take(i as int)[k]);
                }
                assert(out@[i as int]@ == self.active_view()[i as int]);
                assert(out@.map_values(|a: String| a@) =~= self.active_view().take(i as int + 1));
            }
            i = i + 1;
        }
        assert(self.active_view().take(i as int) =~= self.active_view());
        out
    }

    /// Whether a share was already stored for (job, miner, nonce).
    pub fn has_share(&self, job_id: &String, miner: &String, nonce: u64) -> (r: bool)
        ensures
            r == has_work(self.shares_view(), job_id@, miner@, nonce),
    {
        let mut i: usize = 0;
        while i < self.shares.len()
            invariant
                i <= self.shares@.len(),
                forall|k: int|
                    0 <= k < i ==> !((#[trigger] self.shares@[k]).job_id@ == job_id@ && self.shares@[k].miner_address@
                        == miner@ && self.shares@[k].nonce == nonce),
            decreases self.shares@.len() - i,
        {
            if self.shares[i].nonce == nonce && self.shares[i].job_id == *job_id && self.shares[i].miner_address
                == *miner {
                return true;
            }
            i = i + 1;
        }
        false
    }

    /// Whether a share with id `id` is stored.
    pub fn has_share_id(&self, id: &String) -> (r: bool)
        ensures
            r == has_share_id(self.shares_view(), id@),
    {
        proof {
            lemma_views(*self);
        }
        let mut i: usize = 0;
        while i < self.shares.len()
            invariant
                i <= self.shares@.len(),
                forall|k: int| 0 <= k < i ==> (#[trigger] self.shares@[k]).id@ != id@,
            decreases self.shares@.len() - i,
        {
            if self.shares[i].id == *id {
                return true;
            }
            i = i + 1;
        }
        false
    }

    fn conflicting(&self, share: &ShareRecord) -> (r: bool)
        ensures
            r == conflicts(self.shares@, *share),
    {
        let mut i: usize = 0;
        while i < self.shares.len()
            invariant
                i <= self.shares@.len(),
                forall|k: int|
                    0 <= k < i ==> !((#[trigger] self.shares@[k]).id@ == share.id@ || same_work(self.shares@[k], *share)),
            decreases self.shares@.len() - i,
        {
            let s = &self.shares[i];
            if s.id == share.id || (s.nonce == share.nonce && s.job_id == share.job_id && s.miner_address
                == share.miner_address) {
                return true;
            }
            i = i + 1;
        }
        false
    }

    /// Stores an accepted share. Fails with `DuplicateShare`, storing nothing,
    /// where a share with the same id, or for the same job, miner and nonce,
    /// is already stored.
    pub fn save_share(&mut self, share: ShareRecord) -> (r: Result<(), PoolError>)
        requires
            old(self).wf(),
            has_miner(old(self).miners_view(), share.miner_address@),
        ensures
            final(self).wf(),
            match r {
                Ok(()) => !conflicts(old(self).shares_view(), share) && final(self).shares_view()
                    == old(self).shares_view().push(share),
                Err(e) => conflicts(old(self).shares_view(), share) && e is DuplicateShare
                    && final(self).shares_view() == old(self).shares_view(),
            },
            final(self).miners_view() == old(self).miners_view(),
            final(self).active_view() == old(self).active_view(),
            final(self).jobs_view() == old(self).jobs_view(),
            final(self).current_job_view() == old(self).current_job_view(),
            final(self).reputations_view() == old(self).reputations_view(),
            final(self).pool_stats_view() == old(self).pool_stats_view(),
    {
        proof {
            lemma_views(*self);
        }
        if self.conflicting(&share) {
            return Err(PoolError::DuplicateShare);
        }
        let ghost old_ss = self.shares@;
        self.shares.push(share);
        proof {
            let ss = self.shares@;
            assert forall|k: int, l: int|
                0 <= k < ss.len() && 0 <= l < ss.len() && k != l implies (#[trigger] ss[k]).id@ != (
            #[trigger] ss[l]).id@ && !same_work(ss[k], ss[l]) by {
                if k < old_ss.len() && l < old_ss.len() {
                    assert(ss[k] == old_ss[k] && ss[l] == old_ss[l]);
                } else if k < old_ss.len() {
                    assert(ss[k] == old_ss[k]);
                } else {
                    assert(ss[l] == old_ss[l]);
                }
            }
            assert forall|k: int| 0 <= k < ss.len() implies has_miner(self.miners@, (#[trigger] ss[k]).miner_address@) by {
                if k < old_ss.len() {
                    assert(ss[k] == old_ss[k]);
                }
            }
        }
        Ok(())
    }

    /// The shares with `start <= timestamp <= end`, by ascending timestamp;
    /// shares of equal timestamp keep their ledger order.
    pub fn get_shares_in_window(&self, start: i64, end: i64) -> (r: Vec<ShareRecord>)
        ensures
            r@ == window_shares(self.shares_view(), start, end),
            forall|a: int, b: int| 0 <= a < b < r@.len() ==> (#[trigger] r@[a]).timestamp <= (#[trigger] r@[b]).timestamp,
    {
        let mut out: Vec<ShareRecord> = Vec::new();
        let mut i: usize = 0;
        while i < self.shares.len()
            invariant
                i <= self.shares@.len(),
                out@ == sort_by_time(shares_between(self.shares@.take(i as int), start, end)),
            decreases self.shares@.len() - i,
        {
            proof {
                assert(self.shares@.take(i as int + 1).drop_last() == self.shares@.take(i as int));
            }
            let s = &self.shares[i];
            if start <= s.timestamp && s.timestamp <= end {
                let ghost before = out@;
                let ghost sub = shares_between(self.shares@.take(i as int), start, end);
                let x = copy_share(s);
                let mut j: usize = out.len();
                assert(out@.take(j as int) =~= out@);
                while j > 0 && out[j - 1].timestamp > x.timestamp
                    invariant
                        j <= out@.len(),
                        out@ == before,
                        insert_pos(out@, x) == insert_pos(out@.take(j as int), x),
                    decreases j,
                {
                    proof {
                        assert(out@.take(j as int).drop_last() == out@.take(j as int - 1));
                    }
                    j = j - 1;
                }
                proof {
                    assert(out@.take(0) =~= Seq::<ShareRecord>::empty());
                    if j > 0 {
                        assert(out@.take(j as int).last() == out@[j as int - 1]);
                    }
                    lemma_insert_sorted(out@, x);
                    assert(shares_between(self.shares@.take(i as int + 1), start, end) == sub.push(x));
                    assert(sub.push(x).drop_last() == sub);
                }
                out.insert(j, x);
            }
            i = i + 1;
        }
        assert(self.shares@.take(i as int) == self.shares@);
        proof {
            lemma_sort_sorted(shares_between(self.shares@, start, end));
        }
        out
    }

    /// Drops every share with `timestamp <= before` and returns how many went.
    pub fn cleanup_old_shares(&mut self, before: i64) -> (removed: u64)
        requires
            old(self).wf(),
        ensures
            final(self).wf(),
            final(self).shares_view() == shares_after(old(self).shares_view(), before),
            forall|k: int|
                0 <= k < final(self).shares_view().len() ==> (#[trigger] final(self).shares_view()[k]).timestamp
                    > before,
            removed == old(self).shares_view().len() - final(self).shares_view().len(),
            final(self).miners_view() == old(self).miners_view(),
            final(self).active_view() == old(self).active_view(),
            final(self).jobs_view() == old(self).jobs_view(),
            final(self).current_job_view() == old(self).current_job_view(),
            final(self).reputations_view() == old(self).reputations_view(),
            final(self).pool_stats_view() == old(self).pool_stats_view(),
    {
        proof {
            lemma_views(*self);
        }
        let ghost ss = self.shares@;
        let mut kept: Vec<ShareRecord> = Vec::new();
        let mut i: usize = 0;
        while i < self.shares.len()
            invariant
                self.wf(),
                self.shares@ == ss,
                i <= ss.len(),
                kept@ == shares_after(ss.take(i as int), before),
                kept@.len() <= i,
                forall|a: int| 0 <= a < kept@.len() ==> (#[trigger] kept@[a]).timestamp > before,
                forall|a: int| 0 <= a < kept@.len() ==> exists|k: int| 0 <= k < i && ss[k] == #[trigger] kept@[a],
                forall|a: int, b: int|
                    0 <= a < kept@.len() && 0 <= b < kept@.len() && a != b ==> (#[trigger] kept@[a]).id@
                        != (#[trigger] kept@[b]).id@ && !same_work(kept@[a], kept@[b]),
            decreases ss.len() - i,
        {
            proof {
                lemma_views(*self);
                assert(ss.take(i as int + 1).drop_last() == ss.take(i as int));
            }
            if self.shares[i].timestamp > before {
                let s = copy_share(&self.shares[i]);
                let ghost old_kept = kept@;
                kept.push(s);
                proof {
                    assert forall|a: int| 0 <= a < kept@.len() implies exists|k: int|
                        0 <= k < i + 1 && ss[k] == #[trigger] kept@[a] by {
                        if a < old_kept.len() {
                            assert(kept@[a] == old_kept[a]);
                        } else {
                            assert(ss[i as int] == kept@[a]);
                        }
                    }
                    assert forall|a: int, b: int|
                        0 <= a < kept@.len() && 0 <= b < kept@.len() && a != b implies (#[trigger] kept@[a]).id@
                            != (#[trigger] kept@[b]).id@ && !same_work(kept@[a], kept@[b]) by {
                        if a < old_kept.len() && b < old_kept.len() {
                            assert(kept@[a] == old_kept[a] && kept@[b] == old_kept[b]);
                        } else if a < old_kept.len() {
                            assert(kept@[a] == old_kept[a]);
                            let k = choose|k: int| 0 <= k < i && ss[k] == #[trigger] old_kept[a];
                            assert(ss[k].id@ != ss[i as int].id@ && !same_work(ss[k], ss[i as int]));
                        } else {
                            assert(kept@[b] == old_kept[b]);
                            let k = choose|k: int| 0 <= k < i && ss[k] == #[trigger] old_kept[b];
                            assert(ss[k].id@ != ss[i as int].id@ && !same_work(ss[i as int], ss[k]));
                        }
                    }
                }
            }
            i = i + 1;
        }
        assert(ss.take(i as int) == ss);
        let removed = (self.shares.len() - kept.len()) as u64;
        self.shares = kept;
        proof {
            assert forall|a: int| 0 <= a < self.shares@.len() implies has_miner(
                self.miners@,
                (#[trigger] self.shares@[a]).miner_address@,
            ) by {
                let k = choose|k: int| 0 <= k < ss.len() && ss[k] == #[trigger] self.shares@[a];
            }
        }
        removed
    }

    fn job_index(&self, id: &String) -> (r: Option<usize>)
        ensures
            match r {
                Some(i) => i < self.jobs@.len() && self.jobs@[i as int].id@ == id@,
                None => !has_job(self.jobs@, id@),
            },
    {
        let mut i: usize = 0;
        while i < self.jobs.len()
            invariant
                i <= self.jobs@.len(),
                forall|k: int| 0 <= k < i ==> (#[trigger] self.jobs@[k]).id@ != id@,
            decreases self.jobs@.len() - i,
        {
            if self.jobs[i].id == *id {
                return Some(i);
            }
            i = i + 1;
        }
        None
    }

    /// Stores a job template, replacing one with the same id, and makes it current.
    pub fn save_job(&mut self, job: JobTemplate)
        requires
            old(self).wf(),
        ensures
            final(self).wf(),
            final(self).jobs_view() == jobs_after_save(old(self).jobs_view(), job),
            final(self).current_job_view() == Some(job.id@),
            final(self).miners_view() == old(self).miners_view(),
            final(self).active_view() == old(self).active_view(),
            final(self).shares_view() == old(self).shares_view(),
            final(self).reputations_view() == old(self).reputations_view(),
            final(self).pool_stats_view() == old(self).pool_stats_view(),
    {
        proof {
            lemma_views(*self);
        }
        let ghost old_js = self.jobs@;
        let id = job.id.clone();
        match self.job_index(&id) {
            Some(i) => {
                self.jobs.set(i, job);
                proof {
                    assert forall|k: int| 0 <= k < old_js.len() implies self.jobs@[k] == (if old_js[k].id@ == id@ {
                        self.jobs@[i as int]
                    } else {
                        old_js[k]
                    }) by {
                        if k != i {
                            assert(old_js[k].id@ != old_js[i as int].id@);
                        }
                    }
                    assert(self.jobs@ =~= jobs_after_save(old_js, self.jobs@[i as int]));
                }
            },
            None => {
                self.jobs.push(job);
            },
        }
        self.current_job = Some(id);
    }

    /// The job template with id `job_id`, if stored.
    pub fn get_job(&self, job_id: &str) -> (r: Option<&JobTemplate>)
        requires
            self.wf(),
        ensures
            match r {
                Some(j) => job_with(self.jobs_view(), job_id@) == Some(*j),
                None => job_with(self.jobs_view(), job_id@) is None,
            },
    {
        let id = String::from_str(job_id);
        match self.job_index(&id) {
            Some(i) => {
                let ghost js = self.jobs@;
                assert(has_job(js, id@));
                proof {
                    let j = choose|j: int| 0 <= j < js.len() && (#[trigger] js[j]).id@ == id@;
                    assert(j == i as int);
                }
                Some(&self.jobs[i])
            },
            None => None,
        }
    }

    /// The job most recently stored, if any.
    pub fn get_current_job(&self) -> (r: Option<&JobTemplate>)
        requires
            self.wf(),
        ensures
            match self.current_job_view() {
                Some(id) => match r {
                    Some(j) => job_with(self.jobs_view(), id) == Some(*j),
                    None => job_with(self.jobs_view(), id) is None,
                },
                None => r is None,
            },
    {
        match &self.current_job {
            Some(id) => self.get_job(id.as_str()),
            None => None,
        }
    }

    fn reputation_index(&self, address: &String) -> (r: Option<usize>)
        ensures
            match r {
                Some(i) => i < self.reputations@.len() && self.reputations@[i as int].miner_address@ == address@,
                None => !has_reputation(self.reputations@, address@),
            },
    {
        let mut i: usize = 0;
        while i < self.reputations.len()
            invariant
                i <= self.reputations@.len(),
                forall|k: int| 0 <= k < i ==> (#[trigger] self.reputations@[k]).miner_address@ != address@,
            decreases self.reputations@.len() - i,
        {
            if self.reputations[i].miner_address == *address {
                return Some(i);
            }
            i = i + 1;
        }
        None
    }

    /// The reputation of the miner at `address`, if any.
    pub fn get_reputation(&self, address: &str) -> (r: Option<MinerReputation>)
        requires
            self.wf(),
        ensures
            r == reputation_with(self.reputations_view(), address@),
            r matches Some(x) ==> x.wf(),
    {
        let a = String::from_str(address);
        match self.reputation_index(&a) {
            Some(i) => {
                let ghost rs = self.reputations@;
                assert(has_reputation(rs, a@));
                proof {
                    let j = choose|j: int| 0 <= j < rs.len() && (#[trigger] rs[j]).miner_address@ == a@;
                    assert(j == i as int);
                }
                Some(copy_reputation(&self.reputations[i]))
            },
            None => None,
        }
    }

    /// Stores a reputation, replacing the one for its miner.
    pub fn save_reputation(&mut self, reputation: MinerReputation)
        requires
            old(self).wf(),
            reputation.wf(),
        ensures
            final(self).wf(),
            final(self).reputations_view() == reputations_after_save(old(self).reputations_view(), reputation),
            reputation_with(final(self).reputations_view(), reputation.miner_address@) == Some(reputation),
            final(self).miners_view() == old(self).miners_view(),
            final(self).active_view() == old(self).active_view(),
            final(self).shares_view() == old(self).shares_view(),
            final(self).jobs_view() == old(self).jobs_view(),
            final(self).current_job_view() == old(self).current_job_view(),
            final(self).pool_stats_view() == old(self).pool_stats_view(),
    {
        proof {
            lemma_views(*self);
        }
        let ghost old_rs = self.reputations@;
        let address = reputation.miner_address.clone();
        match self.reputation_index(&address) {
            Some(i) => {
                self.reputations.set(i, reputation);
                proof {
                    assert forall|k: int| 0 <= k < old_rs.len() implies self.reputations@[k] == (
                    if old_rs[k].miner_address@ == address@ {
                        self.reputations@[i as int]
                    } else {
                        old_rs[k]
                    }) by {
                        if k != i {
                            assert(old_rs[k].miner_address@ != old_rs[i as int].miner_address@);
                        }
                    }
                    assert(self.reputations@ =~= reputations_after_save(old_rs, self.reputations@[i as int]));
                }
            },
            None => {
                self.reputations.push(reputation);
            },
        }
        proof {
            lemma_views(*self);
            let rs = self.reputations@;
            assert(has_reputation(rs, address@)) by {
                if has_reputation(old_rs, address@) {
                    let j = choose|j: int| 0 <= j < old_rs.len() && (#[trigger] old_rs[j]).miner_address@ == address@;
                    assert(rs[j].miner_address@ == address@);
                } else {
                    assert(rs[old_rs.len() as int].miner_address@ == address@);
                }
            }
            let j = choose|j: int| 0 <= j < rs.len() && (#[trigger] rs[j]).miner_address@ == address@;
            if !has_reputation(old_rs, address@) {
                if j < old_rs.len() {
                    assert(rs[j] == old_rs[j]);
                }
            }
        }
    }

    /// Records the latest pool statistics.
    pub fn update_pool_stats(&mut self, stats: &PoolStats)
        requires
            old(self).wf(),
        ensures
            final(self).wf(),
            final(self).pool_stats_view() == Some(*stats),
            final(self).miners_view() == old(self).miners_view(),
            final(self).active_view() == old(self).active_view(),
            final(self).shares_view() == old(self).shares_view(),
            final(self).jobs_view() == old(self).jobs_view(),
            final(self).current_job_view() == old(self).current_job_view(),
            final(self).reputations_view() == old(self).reputations_view(),
    {
        proof {
            lemma_views(*self);
        }
        self.pool_stats = Some(*stats);
        proof {
            lemma_views(*self);
        }
    }

    /// The pool statistics last recorded, if any.
    pub fn get_pool_stats(&self) -> (r: Option<PoolStats>)
        ensures
            r == self.pool_stats_view(),
    {
        self.pool_stats
    }
}

/// Every stored share belongs to a registered miner.
pub proof fn lemma_shares_have_miners(store: Store)
    requires
        store.wf(),
    ensures
        forall|k: int|
            0 <= k < store.shares_view().len() ==> has_miner(store.miners_view(), (#[trigger] store.shares_view()[k]).miner_address@),
{
}

/// No miner has more valid shares than submitted ones.
pub proof fn lemma_valid_within_submitted(store: Store)
    requires
        store.wf(),
    ensures
        forall|i: int|
            0 <= i < store.miners_view().len() ==> (#[trigger] store.miners_view()[i]).shares_valid
                <= store.miners_view()[i].shares_submitted,
{
}

/// At most one share is stored for any (job, miner, nonce).
pub proof fn lemma_one_share_per_work(store: Store)
    requires
        store.wf(),
    ensures
        forall|k: int, l: int|
            0 <= k < store.shares_view().len() && 0 <= l < store.shares_view().len() && same_work(
                #[trigger] store.shares_view()[k],
                #[trigger] store.shares_view()[l],
            ) ==> k == l,
{
}

proof fn lemma_views(s: Store)
    ensures
        s.miners_view() == s.miners@,
        s.active_view() == s.active@.map_values(|a: String| a@),
        s.shares_view() == s.shares@,
        s.jobs_view() == s.jobs@,
        s.reputations_view() == s.reputations@,
        s.pool_stats_view() == s.pool_stats,
{
}

/// A copy of a miner record.
pub fn copy_miner(m: &MinerRecord) -> (r: MinerRecord)
    ensures
        r == *m,
{
    MinerRecord {
        address: m.address.clone(),
        worker_name: m.worker_name.clone(),
        shares_submitted: m.shares_submitted,
        shares_valid: m.shares_valid,
        last_share_time: m.last_share_time,
        total_difficulty: m.total_difficulty,
        registration_time: m.registration_time,
        is_active: m.is_active,
    }
}

/// A copy of a share record.
pub fn copy_share(s: &ShareRecord) -> (r: ShareRecord)
    ensures
        r == *s,
{
    ShareRecord {
        id: s.id.clone(),
        miner_address: s.miner_address.clone(),
        job_id: s.job_id.clone(),
        nonce: s.nonce,
        difficulty: s.difficulty,
        timestamp: s.timestamp,
        is_valid: s.is_valid,
        is_block: s.is_block,
        reward_units: s.reward_units,
    }
}

/// A copy of a reputation.
pub fn copy_reputation(r: &MinerReputation) -> (c: MinerReputation)
    ensures
        c == *r,
{
    MinerReputation {
        miner_address: r.miner_address.clone(),
        valid_shares: r.valid_shares,
        invalid_shares: r.invalid_shares,
        blocks_found: r.blocks_found,
        last_block_time: r.last_block_time,
        reputation_score: r.reputation_score,
    }
}

} // verus!
