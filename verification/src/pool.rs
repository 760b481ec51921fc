//! The connection pool.
//!
//! One sub-pool of connections exists per configured server address.
//! Servers are ordered by measured connect latency, ascending: the probe
//! itself is transport work and happens outside, the pool only consumes
//! the measured numbers.  Checkout scans point-in-time counters of every
//! sub-pool: it prefers the sub-pool with the most idle connections, then
//! the one with the most connections overall, and fails when no sub-pool
//! has any; a failed checkout costs one unit of the retry budget, and once
//! the budget is spent the last error is surfaced as it came.

use vstd::prelude::*;
use crate::err::Error;

verus! {

broadcast use vstd::seq_lib::group_to_multiset_ensures;

/// A configured server: its addresses and its measured connect latency in
/// milliseconds.  A server that could not be probed carries the maximum
/// latency and so sorts last.
#[derive(Debug, Clone, PartialEq, Eq)]
pub struct Server {
    pub addresses: Vec<String>,
    pub latency_ms: u64,
}

/// Ascending by latency: lower latency means preferred.
pub open spec fn latencies_sorted(s: Seq<Server>) -> bool {
    forall|i: int, j: int| 0 <= i < j < s.len() ==> s[i].latency_ms <= s[j].latency_ms
}

/// Sorts servers ascending by measured latency.  The result holds exactly
/// the servers given, as a multiset.
pub fn sort_servers(servers: Vec<Server>) -> (r: Vec<Server>)
    ensures
        latencies_sorted(r@),
        r@.to_multiset() == servers@.to_multiset(),
        r@.len() == servers@.len(),
{
    let mut rest = servers;
    let ghost orig = rest@.to_multiset();
    let mut out: Vec<Server> = Vec::new();
    proof {
        assert(out@.to_multiset().add(rest@.to_multiset()) =~= orig);
    }
    while rest.len() > 0
        invariant
            out@.to_multiset().add(rest@.to_multiset()) == orig,
            latencies_sorted(out@),
            forall|i: int, j: int|
                0 <= i < out@.len() && 0 <= j < rest@.len() ==> out@[i].latency_ms
                    <= rest@[j].latency_ms,
            out@.len() + rest@.len() == orig.len(),
        decreases rest@.len(),
    {
        let mut min: usize = 0;
        let mut k: usize = 1;
        while k < rest.len()
            invariant
                min < k <= rest@.len() || (k <= rest@.len() && min == 0),
                min < rest@.len(),
                forall|j: int| 0 <= j < k ==> rest@[min as int].latency_ms <= rest@[j].latency_ms,
            decreases rest@.len() - k,
        {
            if rest[k].latency_ms < rest[min].latency_ms {
                min = k;
            }
            k = k + 1;
        }
        let ghost rest_pre = rest@;
        let picked = rest.remove(min);
        proof {
            assert(rest@.to_multiset() =~= rest_pre.to_multiset().remove(picked));
        }
        let ghost out_pre = out@;
        out.push(picked);
        proof {
            assert(out@ =~= out_pre.push(picked));
            assert(out@.to_multiset() =~= out_pre.to_multiset().insert(picked));
            assert(out@.to_multiset().add(rest@.to_multiset()) =~= orig);
        }
    }
    out
}

/// Point-in-time counters of one sub-pool: connections sitting idle, and
/// all its connections, idle and busy together.
#[derive(Debug, Clone, Copy, PartialEq, Eq, Structural)]
pub struct SubPoolStatus {
    pub idle: u32,
    pub total: u32,
}

/// Which sub-pool a checkout should try, given every sub-pool's counters:
/// the first one with the most idle connections when any is idle; else the
/// first one with the most connections overall, preferring a server with
/// proven live connections; else none — every server is down.
pub fn select_subpool(pools: &Vec<SubPoolStatus>) -> (r: Option<usize>)
    ensures
        match r {
            Some(i) => {
                &&& i < pools@.len()
                &&& if exists|j: int| 0 <= j < pools@.len() && (#[trigger] pools@[j]).idle > 0 {
                    let top = pools@[i as int].idle;
                    &&& top > 0
                    &&& forall|j: int| 0 <= j < pools@.len() ==> (#[trigger] pools@[j]).idle <= top
                    &&& forall|j: int| 0 <= j < i ==> (#[trigger] pools@[j]).idle < top
                } else {
                    let top = pools@[i as int].total;
                    &&& top > 0
                    &&& forall|j: int| 0 <= j < pools@.len() ==> (#[trigger] pools@[j]).total <= top
                    &&& forall|j: int| 0 <= j < i ==> (#[trigger] pools@[j]).total < top
                }
            },
            None => forall|j: int|
                0 <= j < pools@.len() ==> (#[trigger] pools@[j]).idle == 0 && pools@[j].total == 0,
        },
{
    let mut best_idle: u32 = 0;
    let mut best_idle_at: usize = 0;
    let mut best_total: u32 = 0;
    let mut best_total_at: usize = 0;
    let mut k: usize = 0;
    while k < pools.len()
        invariant
            k <= pools@.len(),
            best_idle == 0 ==> forall|j: int| 0 <= j < k ==> (#[trigger] pools@[j]).idle == 0,
            best_idle > 0 ==> best_idle_at < k && pools@[best_idle_at as int].idle == best_idle,
            forall|j: int| 0 <= j < k ==> (#[trigger] pools@[j]).idle <= best_idle,
            forall|j: int| 0 <= j < best_idle_at ==> (#[trigger] pools@[j]).idle < best_idle,
            best_total == 0 ==> forall|j: int| 0 <= j < k ==> (#[trigger] pools@[j]).total == 0,
            best_total > 0 ==> best_total_at < k && pools@[best_total_at as int].total
                == best_total,
            forall|j: int| 0 <= j < k ==> (#[trigger] pools@[j]).total <= best_total,
            forall|j: int| 0 <= j < best_total_at ==> (#[trigger] pools@[j]).total < best_total,
        decreases pools@.len() - k,
    {
        let st = pools[k];
        if st.idle > best_idle {
            best_idle = st.idle;
            best_idle_at = k;
        }
        if st.total > best_total {
            best_total = st.total;
            best_total_at = k;
        }
        k = k + 1;
    }
    if best_idle > 0 {
        Some(best_idle_at)
    } else if best_total > 0 {
        Some(best_total_at)
    } else {
        None
    }
}

// ------------------------------------------------------------------
// The retry budget
// ------------------------------------------------------------------

/// What one failure does to a retry budget: with more than one attempt
/// left the budget shrinks and the work goes on; on the last attempt the
/// failure is surfaced as it came.
pub open spec fn fail_step(rem: u32, err: Error) -> (u32, Option<Error>) {
    if rem <= 1 {
        (0, Some(err))
    } else {
        ((rem - 1) as u32, None)
    }
}

/// What a run of failures surfaces: nothing while budget remains, the
/// failure in hand once it does not.
pub open spec fn run_failures(rem: u32, errs: Seq<Error>) -> Option<Error>
    decreases errs.len(),
{
    if errs.len() == 0 {
        None
    } else {
        let (rem2, out) = fail_step(rem, errs.first());
        match out {
            Some(e) => Some(e),
            None => run_failures(rem2, errs.drop_first()),
        }
    }
}

/// Retry exhaustion: with a budget of `n` attempts and a transport that
/// fails every time, the run fails after exactly `n` attempts, surfacing
/// the final attempt's error.
pub proof fn lemma_retry_exhaustion(rem: u32, errs: Seq<Error>)
    requires
        errs.len() == rem,
        rem >= 1,
    ensures
        run_failures(rem, errs) == Some(errs.last()),
    decreases rem,
{
    if rem > 1 {
        lemma_retry_exhaustion((rem - 1) as u32, errs.drop_first());
        assert(errs.drop_first().last() == errs.last());
    }
}

/// While attempts remain, no error is surfaced: fewer failures than the
/// budget leave the run still going.
pub proof fn lemma_retry_within_budget(rem: u32, errs: Seq<Error>)
    requires
        errs.len() < rem,
    ensures
        run_failures(rem, errs) is None,
    decreases errs.len(),
{
    if errs.len() > 0 {
        lemma_retry_within_budget((rem - 1) as u32, errs.drop_first());
    }
}

/// The checkout state machine of one `get()` call.
pub enum PoolGetState {
    /// Scanning the sub-pools for the next checkout attempt.
    Selecting,
    /// The budget is spent; this error goes to the caller.
    Failed(Error),
}

/// Drives one checkout: the caller selects a sub-pool with
/// [`select_subpool`], attempts the checkout outside, and reports a
/// failure here; success simply ends the machine's life.
pub struct PoolGet {
    pub attempts_left: u32,
    pub state: PoolGetState,
}

impl PoolGet {
    /// A checkout with a budget of `retries` attempts.
    pub fn new(retries: u32) -> (r: PoolGet)
        ensures
            r.attempts_left == retries,
            r.state is Selecting,
    {
        PoolGet { attempts_left: retries, state: PoolGetState::Selecting }
    }

    /// One checkout attempt failed — a connection could not be had, or
    /// every server was down.  Costs one attempt; spends the budget per
    /// [`fail_step`].
    pub fn on_checkout_failed(&mut self, err: Error)
        requires
            old(self).state is Selecting,
        ensures
            final(self).attempts_left == fail_step(old(self).attempts_left, err).0,
            match fail_step(old(self).attempts_left, err).1 {
                Some(e) => final(self).state == PoolGetState::Failed(e),
                None => final(self).state is Selecting,
            },
    {
        if self.attempts_left <= 1 {
            self.attempts_left = 0;
            self.state = PoolGetState::Failed(err);
        } else {
            self.attempts_left = self.attempts_left - 1;
        }
    }
}

/// A pool: the configured servers in preference order, and the checkout
/// retry budget, fixed at construction.
pub struct ConnectionPool {
    pub servers: Vec<Server>,
    pub retries: u32,
}

impl ConnectionPool {
    /// Builds a pool over the given servers, ordering them by measured
    /// latency ascending.
    pub fn new(servers: Vec<Server>, retries: u32) -> (r: ConnectionPool)
        ensures
            latencies_sorted(r.servers@),
            r.servers@.to_multiset() == servers@.to_multiset(),
            r.retries == retries,
    {
        ConnectionPool { servers: sort_servers(servers), retries }
    }

    /// Starts one checkout against this pool's retry budget.
    pub fn get_attempt(&self) -> (r: PoolGet)
        ensures
            r.attempts_left == self.retries,
            r.state is Selecting,
    {
        PoolGet::new(self.retries)
    }
}

} // verus!
