//! PPLNS reward allocation over a window of shares.

use vstd::prelude::*;
use crate::error::PoolError;
use crate::schema::{PayoutQueue, PendingPayout, ShareRecord};

verus! {

/// Sum of the reward units of the valid shares.
pub open spec fn total_units(s: Seq<ShareRecord>) -> int
    decreases s.len(),
{
    if s.len() == 0 {
        0
    } else {
        total_units(s.drop_last()) + if s.last().is_valid { s.last().reward_units as int } else { 0 }
    }
}

/// Sum of the reward units of the valid shares of miner `a`.
pub open spec fn miner_units(s: Seq<ShareRecord>, a: Seq<char>) -> int
    decreases s.len(),
{
    if s.len() == 0 {
        0
    } else {
        let x = s.last();
        miner_units(s.drop_last(), a) + if x.is_valid && x.miner_address@ == a {
            x.reward_units as int
        } else {
            0
        }
    }
}

/// Number of valid shares of miner `a`.
pub open spec fn miner_share_count(s: Seq<ShareRecord>, a: Seq<char>) -> int
    decreases s.len(),
{
    if s.len() == 0 {
        0
    } else {
        let x = s.last();
        miner_share_count(s.drop_last(), a) + if x.is_valid && x.miner_address@ == a { 1int } else { 0 }
    }
}

/// The miners with a valid share, in order of their first share.
pub open spec fn miners_of(s: Seq<ShareRecord>) -> Seq<Seq<char>>
    decreases s.len(),
{
    if s.len() == 0 {
        Seq::empty()
    } else {
        let m = miners_of(s.drop_last());
        let x = s.last();
        if x.is_valid && !m.contains(x.miner_address@) {
            m.push(x.miner_address@)
        } else {
            m
        }
    }
}

/// The pool's cut of a reward, at a fee in basis points (hundredths of a percent).
pub open spec fn pool_fee(reward: int, fee_bps: int) -> int {
    reward * fee_bps / 10000
}

/// One payout row per miner of `ms` whose floored share of `d` is positive:
/// address, amount, number of shares.
pub open spec fn payout_rows(s: Seq<ShareRecord>, ms: Seq<Seq<char>>, d: int) -> Seq<(Seq<char>, int, int)>
    decreases ms.len(),
{
    if ms.len() == 0 {
        Seq::empty()
    } else {
        let rest = payout_rows(s, ms.drop_last(), d);
        let a = ms.last();
        let amount = d * miner_units(s, a) / total_units(s);
        if amount > 0 {
            rest.push((a, amount, miner_share_count(s, a)))
        } else {
            rest
        }
    }
}

/// Sum of the amounts of payout rows.
pub open spec fn rows_total(rows: Seq<(Seq<char>, int, int)>) -> int
    decreases rows.len(),
{
    if rows.len() == 0 {
        0
    } else {
        rows_total(rows.drop_last()) + rows.last().1
    }
}

/// A payout seen as (address, amount, share count).
pub open spec fn payout_row(p: PendingPayout) -> (Seq<char>, int, int) {
    (p.miner_address@, p.amount as int, p.share_count as int)
}

/// Sum of the units of the miners in `ms`.
pub open spec fn units_over(s: Seq<ShareRecord>, ms: Seq<Seq<char>>) -> int
    decreases ms.len(),
{
    if ms.len() == 0 {
        0
    } else {
        units_over(s, ms.drop_last()) + miner_units(s, ms.last())
    }
}

proof fn lemma_units_nonneg(s: Seq<ShareRecord>, a: Seq<char>)
    ensures
        0 <= miner_units(s, a) <= total_units(s),
        0 <= miner_share_count(s, a),
    decreases s.len(),
{
    if s.len() > 0 {
        lemma_units_nonneg(s.drop_last(), a);
    }
}

proof fn lemma_absent_miner(s: Seq<ShareRecord>, a: Seq<char>)
    requires
        !miners_of(s).contains(a),
    ensures
        miner_units(s, a) == 0,
    decreases s.len(),
{
    if s.len() > 0 {
        let m = miners_of(s.drop_last());
        let x = s.last();
        if x.is_valid && !m.contains(x.miner_address@) {
            assert(m.push(x.miner_address@)[m.len() as int] == x.miner_address@);
            assert forall|i: int| 0 <= i < m.len() implies m[i] != a by {
                assert(m.push(x.miner_address@)[i] == m[i]);
            }
        }
        if x.is_valid && m.contains(x.miner_address@) {
            assert(x.miner_address@ != a);
        }
        lemma_absent_miner(s.drop_last(), a);
    }
}

proof fn lemma_miners_distinct(s: Seq<ShareRecord>)
    ensures
        miners_of(s).no_duplicates(),
        forall|i: int| 0 <= i < s.len() && s[i].is_valid ==> miners_of(s).contains(#[trigger] s[i].miner_address@),
    decreases s.len(),
{
    if s.len() > 0 {
        let p = s.drop_last();
        lemma_miners_distinct(p);
        let m = miners_of(p);
        let x = s.last();
        if x.is_valid && !m.contains(x.miner_address@) {
            let n = m.push(x.miner_address@);
            assert(n[m.len() as int] == x.miner_address@);
            assert forall|i: int| 0 <= i < s.len() && s[i].is_valid implies n.contains(#[trigger] s[i].miner_address@) by {
                if i < p.len() {
                    assert(p[i] == s[i]);
                    let k = choose|k: int| 0 <= k < m.len() && m[k] == p[i].miner_address@;
                    assert(n[k] == m[k]);
                }
            }
        } else {
            assert forall|i: int| 0 <= i < s.len() && s[i].is_valid implies m.contains(#[trigger] s[i].miner_address@) by {
                if i < p.len() {
                    assert(p[i] == s[i]);
                }
            }
        }
    }
}

/// Adding one share to the window adds its units once to a list of distinct miners
/// that holds its owner.
proof fn lemma_units_over_step(s: Seq<ShareRecord>, ms: Seq<Seq<char>>)
    requires
        s.len() > 0,
        ms.no_duplicates(),
    ensures
        units_over(s, ms) == units_over(s.drop_last(), ms) + if s.last().is_valid && ms.contains(
            s.last().miner_address@,
        ) {
            s.last().reward_units as int
        } else {
            0
        },
    decreases ms.len(),
{
    if ms.len() > 0 {
        let q = ms.drop_last();
        assert(q.no_duplicates());
        lemma_units_over_step(s, q);
        let x = s.last();
        let a = x.miner_address@;
        if ms.last() == a {
            assert(!q.contains(a)) by {
                if q.contains(a) {
                    let k = choose|k: int| 0 <= k < q.len() && q[k] == a;
                    assert(ms[k] == ms[ms.len() - 1]);
                }
            }
        } else {
            if q.contains(a) {
                let k = choose|k: int| 0 <= k < q.len() && q[k] == a;
                assert(ms[k] == a);
            }
            if ms.contains(a) {
                let k = choose|k: int| 0 <= k < ms.len() && ms[k] == a;
                assert(k < q.len());
                assert(q[k] == a);
            }
        }
    }
}

/// The units of the distinct miners add up to the window's total.
proof fn lemma_units_partition(s: Seq<ShareRecord>)
    ensures
        units_over(s, miners_of(s)) == total_units(s),
    decreases s.len(),
{
    if s.len() > 0 {
        let p = s.drop_last();
        lemma_units_partition(p);
        lemma_miners_distinct(p);
        lemma_miners_distinct(s);
        let m = miners_of(p);
        let x = s.last();
        lemma_units_over_step(s, miners_of(s));
        if x.is_valid && !m.contains(x.miner_address@) {
            let n = m.push(x.miner_address@);
            assert(n.drop_last() == m);
            lemma_units_over_step(s, m);
            lemma_absent_miner(p, x.miner_address@);
            assert(n.contains(x.miner_address@)) by {
                assert(n[m.len() as int] == x.miner_address@);
            }
        }
    }
}

proof fn lemma_rows_bound(s: Seq<ShareRecord>, ms: Seq<Seq<char>>, d: int)
    requires
        d >= 0,
        total_units(s) > 0,
    ensures
        rows_total(payout_rows(s, ms, d)) * total_units(s) <= d * units_over(s, ms),
        rows_total(payout_rows(s, ms, d)) >= 0,
    decreases ms.len(),
{
    if ms.len() > 0 {
        let q = ms.drop_last();
        lemma_rows_bound(s, q, d);
        let a = ms.last();
        let u = miner_units(s, a);
        let t = total_units(s);
        lemma_units_nonneg(s, a);
        let amount = d * u / t;
        assert(amount * t <= d * u) by (nonlinear_arith)
            requires
                amount == d * u / t,
                t > 0,
                d >= 0,
                u >= 0,
        ;
        assert(amount >= 0) by (nonlinear_arith)
            requires
                amount == d * u / t,
                t > 0,
                d >= 0,
                u >= 0,
        ;
        let rest = payout_rows(s, q, d);
        if amount > 0 {
            assert(rest.push((a, amount, miner_share_count(s, a))).drop_last() == rest);
        }
        assert(d * units_over(s, ms) == d * units_over(s, q) + d * u) by (nonlinear_arith)
            requires
                units_over(s, ms) == units_over(s, q) + u,
        ;
        assert(rows_total(rest) * t + amount * t == (rows_total(rest) + amount) * t) by (nonlinear_arith);
    }
}

/// The payouts of one block and the pool's fee never exceed the block reward;
/// the rounding dust stays with the pool.
pub proof fn lemma_payouts_within_reward(shares: Seq<ShareRecord>, reward: u64, fee_bps: u64)
    requires
        fee_bps <= 10000,
        total_units(shares) > 0,
    ensures
        rows_total(payout_rows(shares, miners_of(shares), reward - pool_fee(reward as int, fee_bps as int)))
            + pool_fee(reward as int, fee_bps as int) <= reward,
{
    let f = pool_fee(reward as int, fee_bps as int);
    assert(0 <= f <= reward) by (nonlinear_arith)
        requires
            f == reward * fee_bps / 10000,
            fee_bps <= 10000,
            reward >= 0,
            fee_bps >= 0,
    ;
    let d = reward - f;
    let t = total_units(shares);
    lemma_rows_bound(shares, miners_of(shares), d);
    lemma_units_partition(shares);
    let r = rows_total(payout_rows(shares, miners_of(shares), d));
    assert(r <= d) by (nonlinear_arith)
        requires
            r * t <= d * t,
            t > 0,
    ;
}

pub open spec fn pow2(e: nat) -> nat
    decreases e,
{
    if e == 0 { 1 } else { 2 * pow2((e - 1) as nat) }
}

/// `floor(d * u / t)` for `u <= t`, computed bit by bit over `d` so that no
/// intermediate value outgrows 128 bits.
pub fn mul_div(d: u64, u: u128, t: u128) -> (q: u64)
    requires
        t > 0,
        u <= t,
    ensures
        q as int == (d as int) * (u as int) / (t as int),
{
    let mut p: u64 = 0x8000_0000_0000_0000;
    let ghost mut e: nat = 63;
    assert(pow2(63) == 0x8000_0000_0000_0000) by {
        reveal_with_fuel(pow2, 64);
    }
    let mut rem: u64 = d;
    let mut q: u128 = 0;
    let mut r: u128 = 0;
    let ghost mut v: int = 0;
    let ghost mut w: int = 0x1_0000_0000_0000_0000;
    while p > 0
        invariant
            t > 0,
            u <= t,
            p > 0 ==> p as int == pow2(e),
            p > 0 ==> w == 2 * (p as int),
            p == 0 ==> w == 1,
            d == v * w + rem,
            0 <= rem < w,
            0 <= v <= d,
            v * (u as int) == (q as int) * (t as int) + (r as int),
            r < t,
            q <= v,
        decreases p,
    {
        let b: bool = rem >= p;
        let ghost rem0 = rem;
        if b {
            rem = rem - p;
        }
        let c1: u128;
        let r2: u128;
        if r >= t - r {
            r2 = r - (t - r);
            c1 = 1;
        } else {
            r2 = r + r;
            c1 = 0;
        }
        let c2: u128;
        let r3: u128;
        if b && r2 >= t - u {
            r3 = r2 - (t - u);
            c2 = 1;
        } else if b {
            r3 = r2 + u;
            c2 = 0;
        } else {
            r3 = r2;
            c2 = 0;
        }
        let ghost bi: int = if b { 1 } else { 0 };
        let ghost v1: int = 2 * v + bi;
        proof {
            assert(v1 * (u as int) == (2 * (q as int) + (c1 as int) + (c2 as int)) * (t as int) + (r3 as int))
                by (nonlinear_arith)
                requires
                    v1 == 2 * v + bi,
                    v * (u as int) == (q as int) * (t as int) + (r as int),
                    2 * (r as int) == (c1 as int) * (t as int) + (r2 as int),
                    (r2 as int) + bi * (u as int) == (c2 as int) * (t as int) + (r3 as int),
            ;
            assert(rem0 == rem + bi * (p as int));
            assert(d == v1 * (p as int) + rem) by (nonlinear_arith)
                requires
                    d == v * w + rem0,
                    rem0 == rem + bi * (p as int),
                    w == 2 * (p as int),
                    v1 == 2 * v + bi,
            ;
            assert(v1 <= d) by (nonlinear_arith)
                requires
                    d == v1 * (p as int) + rem,
                    p >= 1,
                    rem >= 0,
                    v1 >= 0,
            ;
        }
        q = 2 * q + c1 + c2;
        r = r3;
        proof {
            assert((q as int) <= v1) by (nonlinear_arith)
                requires
                    v1 * (u as int) == (q as int) * (t as int) + (r as int),
                    u <= t,
                    t > 0,
                    r >= 0,
                    v1 >= 0,
            ;
            v = v1;
            w = p as int;
            if e > 0 {
                assert(pow2(e) == 2 * pow2((e - 1) as nat));
                e = (e - 1) as nat;
            }
        }
        p = p / 2;
    }
    proof {
        vstd::arithmetic::div_mod::lemma_fundamental_div_mod_converse(
            (d as int) * (u as int),
            t as int,
            q as int,
            r as int,
        );
    }
    q as u64
}

/// Splits block rewards among miners at a fixed pool fee.
pub struct PayoutManager {
    /// Pool fee in basis points (hundredths of a percent).
    pub pool_fee_bps: u64,
}

impl PayoutManager {
    pub open spec fn wf(&self) -> bool {
        self.pool_fee_bps <= 10000
    }

    /// A calculator at a pool fee in basis points; 200 is 2%.
    pub fn new(pool_fee_bps: u64) -> (r: Self)
        requires
            pool_fee_bps <= 10000,
        ensures
            r.pool_fee_bps == pool_fee_bps,
            r.wf(),
    {
        PayoutManager { pool_fee_bps }
    }

    /// Apportions `block_reward`, less the pool fee, among the miners of the
    /// valid shares in proportion to their reward units, flooring each amount
    /// and leaving out miners whose amount is zero. No shares, or no units,
    /// give no payouts. Fails with `Payout` only where the window's total
    /// units outgrow their 128-bit sum.
    pub fn calculate_payouts(
        &self,
        block_reward: u64,
        shares: &Vec<ShareRecord>,
        window_start: i64,
        window_end: i64,
    ) -> (r: Result<Vec<PendingPayout>, PoolError>)
        requires
            self.wf(),
        ensures
            ({
                let t = total_units(shares@);
                let d = block_reward - pool_fee(block_reward as int, self.pool_fee_bps as int);
                match r {
                    Ok(ps) => t <= u128::MAX && ps@.map_values(|p: PendingPayout| payout_row(p))
                        == (if t == 0 { Seq::empty() } else { payout_rows(shares@, miners_of(shares@), d) })
                        && forall|i: int| 0 <= i < ps@.len() ==> (#[trigger] ps@[i]).window_start == window_start && ps@[i].window_end == window_end,
                    Err(e) => t > u128::MAX && e is Payout,
                }
            }),
    {
        // total units of the window
        let mut total: u128 = 0;
        let mut i: usize = 0;
        while i < shares.len()
            invariant
                i <= shares@.len(),
                total == total_units(shares@.take(i as int)),
            decreases shares@.len() - i,
        {
            proof {
                assert(shares@.take(i as int + 1).drop_last() == shares@.take(i as int));
                lemma_total_prefix_mono(shares@, i as int + 1);
            }
            if shares[i].is_valid {
                if shares[i].reward_units > u128::MAX - total {
                    proof {
                        lemma_total_prefix_mono(shares@, shares@.len() as int);
                        lemma_total_prefix_le(shares@, i as int + 1);
                        assert(shares@.take(shares@.len() as int) == shares@);
                    }
                    return Err(PoolError::Payout(String::from_str("reward units overflow")));
                }
                total = total + shares[i].reward_units;
            }
            i = i + 1;
        }
        assert(shares@.take(shares@.len() as int) == shares@);
        if total == 0 {
            return Ok(Vec::new());
        }
        assert((block_reward as int) * (self.pool_fee_bps as int) <= (u64::MAX as int) * 10000) by (nonlinear_arith)
            requires
                self.pool_fee_bps <= 10000,
                block_reward <= u64::MAX,
        ;
        let fee128: u128 = (block_reward as u128) * (self.pool_fee_bps as u128) / 10000;
        assert(fee128 <= block_reward) by (nonlinear_arith)
            requires
                fee128 == (block_reward as int) * (self.pool_fee_bps as int) / 10000,
                self.pool_fee_bps <= 10000,
        ;
        let fee: u64 = fee128 as u64;
        let d: u64 = block_reward - fee;
        let miners = distinct_miners(shares);
        let ghost ms = miners_of(shares@);
        let mut payouts: Vec<PendingPayout> = Vec::new();
        let mut j: usize = 0;
        while j < miners.len()
            invariant
                j <= miners@.len(),
                miners@.map_values(|m: String| m@) == ms,
                ms == miners_of(shares@),
                total == total_units(shares@),
                total > 0,
                payouts@.map_values(|p: PendingPayout| payout_row(p)) == payout_rows(shares@, ms.take(j as int), d as int),
                forall|k: int| 0 <= k < payouts@.len() ==> (#[trigger] payouts@[k]).window_start == window_start && payouts@[k].window_end == window_end,
            decreases miners@.len() - j,
        {
            let (units, count) = units_of_miner(shares, &miners[j]);
            proof {
                assert(miners@.map_values(|m: String| m@)[j as int] == miners@[j as int]@);
                lemma_units_nonneg(shares@, miners@[j as int]@);
                assert(ms.take(j as int + 1).drop_last() == ms.take(j as int));
            }
            let amount = mul_div(d, units, total);
            if amount > 0 {
                let p = PendingPayout {
                    miner_address: miners[j].clone(),
                    amount,
                    window_start,
                    window_end,
                    share_count: count,
                };
                payouts.push(p);
                proof {
                    assert(payouts@.map_values(|p: PendingPayout| payout_row(p)) =~= payout_rows(
                        shares@,
                        ms.take(j as int),
                        d as int,
                    ).push(payout_row(p)));
                }
            }
            j = j + 1;
        }
        assert(ms.take(miners@.len() as int) == ms);
        Ok(payouts)
    }
}

impl PayoutManager {
    /// Queues payouts for the outside broadcaster, stamped with `now`.
    pub fn queue_payouts(&self, payouts: Vec<PendingPayout>, now: i64) -> (r: PayoutQueue)
        ensures
            r.pending_payouts == payouts,
            r.last_payout_time == now,
            r.total_paid == 0,
    {
        PayoutQueue { pending_payouts: payouts, last_payout_time: now, total_paid: 0 }
    }
}

proof fn lemma_total_prefix_mono(s: Seq<ShareRecord>, n: int)
    requires
        0 <= n <= s.len(),
    ensures
        total_units(s.take(n)) >= 0,
    decreases n,
{
    if n > 0 {
        assert(s.take(n).drop_last() == s.take(n - 1));
        lemma_total_prefix_mono(s, n - 1);
    }
}

proof fn lemma_total_prefix_le(s: Seq<ShareRecord>, n: int)
    requires
        0 <= n <= s.len(),
    ensures
        total_units(s.take(n)) <= total_units(s),
    decreases s.len() - n,
{
    if n < s.len() {
        lemma_total_prefix_le(s, n + 1);
        assert(s.take(n + 1).drop_last() == s.take(n));
    } else {
        assert(s.take(n) == s);
    }
}

/// The distinct miners of the valid shares, in order of their first share.
fn distinct_miners(shares: &Vec<ShareRecord>) -> (r: Vec<String>)
    ensures
        r@.map_values(|m: String| m@) == miners_of(shares@),
{
    let mut out: Vec<String> = Vec::new();
    let mut i: usize = 0;
    while i < shares.len()
        invariant
            i <= shares@.len(),
            out@.map_values(|m: String| m@) == miners_of(shares@.take(i as int)),
        decreases shares@.len() - i,
    {
        proof {
            assert(shares@.take(i as int + 1).drop_last() == shares@.take(i as int));
            assert(shares@.take(i as int + 1).last() == shares@[i as int]);
        }
        if shares[i].is_valid {
            let mut found = false;
            let mut k: usize = 0;
            while k < out.len()
                invariant
                    i < shares@.len(),
                    k <= out@.len(),
                    found == exists|q: int| 0 <= q < k && out@[q]@ == shares@[i as int].miner_address@,
                decreases out@.len() - k,
            {
                if out[k] == shares[i].miner_address {
                    found = true;
                }
                k = k + 1;
            }
            proof {
                let m = out@.map_values(|m: String| m@);
                if found {
                    let q = choose|q: int| 0 <= q < out@.len() && out@[q]@ == shares@[i as int].miner_address@;
                    assert(m[q] == shares@[i as int].miner_address@);
                } else {
                    assert(!m.contains(shares@[i as int].miner_address@));
                }
            }
            if !found {
                out.push(shares[i].miner_address.clone());
                proof {
                    assert(out@.map_values(|m: String| m@) =~= miners_of(shares@.take(i as int)).push(
                        shares@[i as int].miner_address@,
                    ));
                }
            }
        }
        i = i + 1;
    }
    assert(shares@.take(shares@.len() as int) == shares@);
    out
}

/// Reward units and share count of one miner's valid shares.
fn units_of_miner(shares: &Vec<ShareRecord>, miner: &String) -> (r: (u128, u64))
    requires
        total_units(shares@) <= u128::MAX,
    ensures
        r.0 == miner_units(shares@, miner@),
        r.1 == miner_share_count(shares@, miner@),
{
    let mut units: u128 = 0;
    let mut count: u64 = 0;
    let mut i: usize = 0;
    while i < shares.len()
        invariant
            i <= shares@.len(),
            total_units(shares@) <= u128::MAX,
            units == miner_units(shares@.take(i as int), miner@),
            count == miner_share_count(shares@.take(i as int), miner@),
            count <= i,
        decreases shares@.len() - i,
    {
        proof {
            assert(shares@.take(i as int + 1).drop_last() == shares@.take(i as int));
            lemma_units_nonneg(shares@.take(i as int + 1), miner@);
            lemma_total_prefix_le(shares@, i as int + 1);
        }
        if shares[i].is_valid && shares[i].miner_address == *miner {
            units = units + shares[i].reward_units;
            count = count + 1;
        }
        i = i + 1;
    }
    assert(shares@.take(shares@.len() as int) == shares@);
    (units, count)
}

} // verus!
