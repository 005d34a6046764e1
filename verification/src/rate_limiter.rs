//! Multi-window admission control.
//!
//! The limiter enforces several rolling windows at once: a request is
//! admitted exactly when, at the moment of decision, every window still
//! has room, and the decision updates all windows atomically — on a
//! denial no live entry changes, on an admission every window gains
//! exactly the one new entry.

use vstd::prelude::*;
use vstd::pervasive::VecAdditionalExecFns;

verus! {

/// Upper bound on a window length: one year, in seconds.
pub const MAX_WINDOW_SECS: u64 = 31_536_000;

/// One rolling window: at most `limit` admissions per `duration_secs`
/// rolling seconds.
#[derive(Clone, Copy, PartialEq, Eq, Structural, Debug)]
pub struct RateLimitWindow {
    pub limit: usize,
    pub duration_secs: u64,
}

impl RateLimitWindow {
    pub fn new(limit: usize, duration_secs: u64) -> (r: Self)
        requires
            duration_secs <= MAX_WINDOW_SECS,
        ensures
            r.limit == limit,
            r.duration_secs == duration_secs,
    {
        Self { limit, duration_secs }
    }
}

/// Rate-limit configuration for a historical-data account.
#[derive(Clone, Debug)]
pub struct IbRateLimiterConfig {
    /// Account id namespace.
    pub account_id: String,
    /// 60 requests per 10-minute rolling window.
    pub ten_minute_window: RateLimitWindow,
    /// 6 requests per 2-second rolling window.
    pub contract_window: RateLimitWindow,
    /// 1 request per 15 seconds against duplicate requests.
    pub duplicate_request_window: RateLimitWindow,
}

impl Default for IbRateLimiterConfig {
    /// The documented default windows for account `U12345`:
    /// (60, 600 s), (6, 2 s), (1, 15 s).
    fn default() -> (r: Self)
        ensures
            r.account_id@ == "U12345"@,
            r.ten_minute_window == (RateLimitWindow { limit: 60, duration_secs: 600 }),
            r.contract_window == (RateLimitWindow { limit: 6, duration_secs: 2 }),
            r.duplicate_request_window == (RateLimitWindow { limit: 1, duration_secs: 15 }),
    {
        Self {
            account_id: "U12345".to_owned(),
            ten_minute_window: RateLimitWindow { limit: 60, duration_secs: 600 },
            contract_window: RateLimitWindow { limit: 6, duration_secs: 2 },
            duplicate_request_window: RateLimitWindow { limit: 1, duration_secs: 15 },
        }
    }
}

#[derive(Debug)]
pub enum RateLimiterError {
    /// Failed to reach the shared store.
    ConnectionError(String),
    /// The atomic admission script failed.
    ScriptError(String),
    /// An unexpected internal error.
    Unexpected(String),
}

/// One admission: decision time and the attempt's fresh token.
#[derive(Clone, Copy, PartialEq, Eq, Structural, Debug)]
pub struct RateEntry {
    pub ts_ms: i64,
    pub request_id: u64,
}

/// The mathematical content of one window.
pub struct WindowModel {
    pub limit: int,
    pub duration_ms: int,
    pub entries: Seq<RateEntry>,
}

/// The entries still inside the rolling window that ends now: those
/// with a timestamp at or after the cutoff, in order.
pub open spec fn live_entries(s: Seq<RateEntry>, cutoff: int) -> Seq<RateEntry>
    decreases s.len(),
{
    if s.len() == 0 {
        Seq::empty()
    } else {
        let rest = live_entries(s.drop_last(), cutoff);
        if s.last().ts_ms as int >= cutoff {
            rest.push(s.last())
        } else {
            rest
        }
    }
}

pub open spec fn cutoff_of(w: WindowModel, now: int) -> int {
    now - w.duration_ms
}

/// Whether one window still has room at time `now`.
pub open spec fn window_admits(w: WindowModel, now: int) -> bool {
    live_entries(w.entries, cutoff_of(w, now)).len() < w.limit
}

/// Whether every window still has room: the admission decision.
pub open spec fn all_admit(ws: Seq<WindowModel>, now: int) -> bool {
    forall|j: int| 0 <= j < ws.len() ==> window_admits(#[trigger] ws[j], now)
}

/// What one decision does to one window: expired entries go, and on an
/// admission the attempt's entry is appended.
pub open spec fn step_window(w: WindowModel, now: int, request_id: u64, admitted: bool)
    -> WindowModel {
    WindowModel {
        entries: if admitted {
            live_entries(w.entries, cutoff_of(w, now)).push(RateEntry { ts_ms: now as i64, request_id })
        } else {
            live_entries(w.entries, cutoff_of(w, now))
        },
        ..w
    }
}

/// What one decision does to the whole limiter state.
pub open spec fn step_models(ws: Seq<WindowModel>, now: int, request_id: u64) -> Seq<WindowModel> {
    ws.map_values(|w: WindowModel| step_window(w, now, request_id, all_admit(ws, now)))
}

struct WindowState {
    window: RateLimitWindow,
    entries: Vec<RateEntry>,
}

impl View for WindowState {
    type V = WindowModel;

    closed spec fn view(&self) -> WindowModel {
        WindowModel {
            limit: self.window.limit as int,
            duration_ms: self.window.duration_secs as int * 1000,
            entries: self.entries@,
        }
    }
}

fn purge_entries(entries: &Vec<RateEntry>, cutoff: i64) -> (r: Vec<RateEntry>)
    ensures
        r@ == live_entries(entries@, cutoff as int),
{
    let mut r: Vec<RateEntry> = Vec::new();
    let mut i: usize = 0;
    while i < entries.len()
        invariant
            0 <= i <= entries@.len(),
            r@ == live_entries(entries@.take(i as int), cutoff as int),
        decreases entries@.len() - i,
    {
        proof {
            let cur = entries@.take(i as int + 1);
            assert(cur.drop_last() =~= entries@.take(i as int));
            assert(cur.last() == entries@[i as int]);
        }
        if entries[i].ts_ms >= cutoff {
            r.push(entries[i]);
        }
        i = i + 1;
    }
    proof {
        assert(entries@.take(i as int) =~= entries@);
    }
    r
}

/// The multi-window rate limiter for historical-data requests. Holds
/// the windows' admission records; `try_acquire` is the atomic
/// decision.
pub struct IbRateLimiter {
    config: IbRateLimiterConfig,
    windows: Vec<WindowState>,
}

impl IbRateLimiter {
    /// The limiter's mathematical state: one model per window.
    pub closed spec fn model(&self) -> Seq<WindowModel> {
        self.windows@.map_values(|w: WindowState| w@)
    }

    pub open spec fn wf(&self) -> bool {
        forall|j: int|
            0 <= j < self.model().len() ==> {
                &&& 0 <= (#[trigger] self.model()[j]).duration_ms <= 31_536_000_000
                &&& self.model()[j].limit >= 0
            }
    }

    pub fn new(config: IbRateLimiterConfig) -> (r: Self)
        requires
            config.ten_minute_window.duration_secs <= MAX_WINDOW_SECS,
            config.contract_window.duration_secs <= MAX_WINDOW_SECS,
            config.duplicate_request_window.duration_secs <= MAX_WINDOW_SECS,
        ensures
            r.wf(),
            r.model().len() == 3,
            r.model()[0].limit == config.ten_minute_window.limit as int,
            r.model()[0].duration_ms == config.ten_minute_window.duration_secs as int * 1000,
            r.model()[1].limit == config.contract_window.limit as int,
            r.model()[1].duration_ms == config.contract_window.duration_secs as int * 1000,
            r.model()[2].limit == config.duplicate_request_window.limit as int,
            r.model()[2].duration_ms == config.duplicate_request_window.duration_secs as int
                * 1000,
            forall|j: int| 0 <= j < 3 ==> (#[trigger] r.model()[j]).entries == Seq::<
                RateEntry,
            >::empty(),
    {
        let mut windows: Vec<WindowState> = Vec::new();
        windows.push(WindowState { window: config.ten_minute_window, entries: Vec::new() });
        windows.push(WindowState { window: config.contract_window, entries: Vec::new() });
        windows.push(WindowState { window: config.duplicate_request_window, entries: Vec::new() });
        IbRateLimiter { config, windows }
    }

    /// One atomic admission decision at time `now_ms` for a fresh
    /// attempt token. Admits exactly when every window has room; on an
    /// admission every window gains the attempt's entry, on a denial no
    /// window's live entries change.
    pub fn try_acquire(&mut self, now_ms: i64, request_id: u64) -> (admitted: bool)
        requires
            old(self).wf(),
            0 <= now_ms,
        ensures
            final(self).wf(),
            admitted == all_admit(old(self).model(), now_ms as int),
            final(self).model() == step_models(old(self).model(), now_ms as int, request_id),
    {
        let ghost m0 = self.model();
        let n = self.windows.len();

        // Purge every window of expired entries.
        let mut j: usize = 0;
        while j < n
            invariant
                self.wf(),
                n == self.windows@.len(),
                0 <= j <= n,
                0 <= now_ms,
                m0.len() == n,
                forall|k: int| 0 <= k < n ==> (#[trigger] self.model()[k]).limit == m0[k].limit
                    && self.model()[k].duration_ms == m0[k].duration_ms,
                forall|k: int|
                    j <= k < n ==> (#[trigger] self.model()[k]).entries == m0[k].entries,
                forall|k: int|
                    0 <= k < j ==> (#[trigger] self.model()[k]).entries == live_entries(
                        m0[k].entries,
                        cutoff_of(m0[k], now_ms as int),
                    ),
            decreases n - j,
        {
            proof {
                assert(self.model()[j as int] == self.windows@[j as int]@);
            }
            let w = self.windows[j].window;
            let cutoff = now_ms - (w.duration_secs as i64) * 1000;
            let purged = purge_entries(&self.windows[j].entries, cutoff);
            let ghost mpre = self.model();
            self.windows.set(j, WindowState { window: w, entries: purged });
            proof {
                assert forall|k: int| 0 <= k < n && k != j as int implies #[trigger] self.model()[k]
                    == mpre[k] by {
                    assert(self.windows@[k] == old(self).windows@[k] || self.model()[k]
                        == self.windows@[k]@);
                }
                assert(self.model()[j as int] == self.windows@[j as int]@);
                assert(self.model()[j as int].entries == live_entries(
                    m0[j as int].entries,
                    cutoff_of(m0[j as int], now_ms as int),
                ));
            }
            j = j + 1;
        }

        // Check every window for room.
        let mut admitted = true;
        let mut j2: usize = 0;
        while j2 < n
            invariant
                n == self.windows@.len(),
                0 <= j2 <= n,
                m0.len() == n,
                forall|k: int| 0 <= k < n ==> (#[trigger] self.model()[k]).limit == m0[k].limit
                    && self.model()[k].duration_ms == m0[k].duration_ms,
                forall|k: int|
                    0 <= k < n ==> (#[trigger] self.model()[k]).entries == live_entries(
                        m0[k].entries,
                        cutoff_of(m0[k], now_ms as int),
                    ),
                admitted == (forall|k: int|
                    0 <= k < j2 ==> window_admits(#[trigger] m0[k], now_ms as int)),
            decreases n - j2,
        {
            proof {
                assert(self.model()[j2 as int].entries == live_entries(
                    m0[j2 as int].entries,
                    cutoff_of(m0[j2 as int], now_ms as int),
                ));
            }
            if self.windows[j2].entries.len() >= self.windows[j2].window.limit {
                admitted = false;
                proof {
                    assert(!window_admits(m0[j2 as int], now_ms as int));
                }
            }
            j2 = j2 + 1;
        }

        // On admission, record the attempt in every window.
        if admitted {
            let mut j3: usize = 0;
            while j3 < n
                invariant
                    n == self.windows@.len(),
                    0 <= j3 <= n,
                    0 <= now_ms,
                    m0.len() == n,
                    forall|k: int| 0 <= k < n ==> (#[trigger] self.model()[k]).limit == m0[k].limit
                        && self.model()[k].duration_ms == m0[k].duration_ms,
                    forall|k: int|
                        j3 <= k < n ==> (#[trigger] self.model()[k]).entries == live_entries(
                            m0[k].entries,
                            cutoff_of(m0[k], now_ms as int),
                        ),
                    forall|k: int|
                        0 <= k < j3 ==> (#[trigger] self.model()[k]).entries == live_entries(
                            m0[k].entries,
                            cutoff_of(m0[k], now_ms as int),
                        ).push(RateEntry { ts_ms: now_ms, request_id }),
                decreases n - j3,
            {
                proof {
                    assert(self.model()[j3 as int] == self.windows@[j3 as int]@);
                }
                let w = self.windows[j3].window;
                let mut entries = copy_entries(&self.windows[j3].entries);
                entries.push(RateEntry { ts_ms: now_ms, request_id });
                let ghost mpre = self.model();
                self.windows.set(j3, WindowState { window: w, entries });
                proof {
                    assert forall|k: int| 0 <= k < n && k != j3 as int implies #[trigger] self.model()[k]
                        == mpre[k] by {
                        assert(self.model()[k] == self.windows@[k]@);
                    }
                    assert(self.model()[j3 as int] == self.windows@[j3 as int]@);
                }
                j3 = j3 + 1;
            }
        }

        proof {
            assert(self.model() =~= step_models(m0, now_ms as int, request_id));
        }
        admitted
    }
}

/// The limiter state after processing a stream of (time, token)
/// attempts, one `step_models` decision each — exactly the states
/// `try_acquire` walks through.
pub open spec fn run_models(ws0: Seq<WindowModel>, reqs: Seq<(i64, u64)>) -> Seq<WindowModel>
    decreases reqs.len(),
{
    if reqs.len() == 0 {
        ws0
    } else {
        step_models(
            run_models(ws0, reqs.drop_last()),
            reqs.last().0 as int,
            reqs.last().1,
        )
    }
}

/// Whether the i-th attempt of the stream is admitted.
pub open spec fn admitted_at(ws0: Seq<WindowModel>, reqs: Seq<(i64, u64)>, i: int) -> bool {
    all_admit(run_models(ws0, reqs.take(i)), reqs[i].0 as int)
}

/// Attempt times never decrease along the stream.
pub open spec fn times_ordered(reqs: Seq<(i64, u64)>) -> bool {
    forall|a: int, b: int|
        0 <= a <= b < reqs.len() ==> (#[trigger] reqs[a]).0 <= (#[trigger] reqs[b]).0
}

/// How many of the first `k` attempts are admitted with a decision
/// time in the interval `(lo, hi]`.
pub open spec fn admitted_in_window(
    ws0: Seq<WindowModel>,
    reqs: Seq<(i64, u64)>,
    k: int,
    lo: int,
    hi: int,
) -> int
    decreases k,
{
    if k <= 0 {
        0
    } else {
        admitted_in_window(ws0, reqs, k - 1, lo, hi) + if admitted_at(ws0, reqs, k - 1) && lo
            < reqs[k - 1].0 as int <= hi {
            1int
        } else {
            0int
        }
    }
}

/// The entries of the first `k` admitted attempts at or after `cutoff`,
/// in order.
pub open spec fn admitted_entries(
    ws0: Seq<WindowModel>,
    reqs: Seq<(i64, u64)>,
    k: int,
    cutoff: int,
) -> Seq<RateEntry>
    decreases k,
{
    if k <= 0 {
        Seq::empty()
    } else {
        let rest = admitted_entries(ws0, reqs, k - 1, cutoff);
        if admitted_at(ws0, reqs, k - 1) && reqs[k - 1].0 as int >= cutoff {
            rest.push(RateEntry { ts_ms: reqs[k - 1].0, request_id: reqs[k - 1].1 })
        } else {
            rest
        }
    }
}

/// Steps keep each window's limit, duration, and the window count.
proof fn lemma_run_shape(ws0: Seq<WindowModel>, reqs: Seq<(i64, u64)>, k: int)
    requires
        0 <= k <= reqs.len(),
    ensures
        run_models(ws0, reqs.take(k)).len() == ws0.len(),
        forall|j: int|
            0 <= j < ws0.len() ==> (#[trigger] run_models(ws0, reqs.take(k))[j]).limit
                == ws0[j].limit && run_models(ws0, reqs.take(k))[j].duration_ms
                == ws0[j].duration_ms,
    decreases k,
{
    if k > 0 {
        lemma_run_shape(ws0, reqs, k - 1);
        assert(reqs.take(k).drop_last() =~= reqs.take(k - 1));
    }
}

/// Raising the cutoff of an admitted-entry list is the same as purging
/// it to the higher cutoff.
proof fn lemma_live_of_admitted(
    ws0: Seq<WindowModel>,
    reqs: Seq<(i64, u64)>,
    k: int,
    c1: int,
    c2: int,
)
    requires
        c1 <= c2,
    ensures
        live_entries(admitted_entries(ws0, reqs, k, c1), c2) == admitted_entries(
            ws0,
            reqs,
            k,
            c2,
        ),
    decreases k,
{
    if k > 0 {
        lemma_live_of_admitted(ws0, reqs, k - 1, c1, c2);
        let rest1 = admitted_entries(ws0, reqs, k - 1, c1);
        if admitted_at(ws0, reqs, k - 1) && reqs[k - 1].0 as int >= c1 {
            let e = RateEntry { ts_ms: reqs[k - 1].0, request_id: reqs[k - 1].1 };
            assert(rest1.push(e).drop_last() =~= rest1);
        }
    }
}

/// Running a stream leaves a window holding exactly the admitted
/// attempts still inside its rolling window.
proof fn lemma_run_entries(ws0: Seq<WindowModel>, reqs: Seq<(i64, u64)>, j: int, k: int)
    requires
        0 <= j < ws0.len(),
        ws0[j].entries == Seq::<RateEntry>::empty(),
        ws0[j].duration_ms >= 0,
        times_ordered(reqs),
        0 <= k <= reqs.len(),
    ensures
        k == 0 ==> run_models(ws0, reqs.take(k))[j].entries == Seq::<RateEntry>::empty(),
        k > 0 ==> run_models(ws0, reqs.take(k))[j].entries == admitted_entries(
            ws0,
            reqs,
            k,
            reqs[k - 1].0 as int - ws0[j].duration_ms,
        ),
    decreases k,
{
    if k == 0 {
        assert(reqs.take(0) =~= Seq::<(i64, u64)>::empty());
    } else {
        lemma_run_entries(ws0, reqs, j, k - 1);
        lemma_run_shape(ws0, reqs, k - 1);
        let prev = run_models(ws0, reqs.take(k - 1));
        let now = reqs[k - 1].0 as int;
        let cutoff = now - ws0[j].duration_ms;
        assert(reqs.take(k).drop_last() =~= reqs.take(k - 1));
        assert(reqs.take(k).last() == reqs[k - 1]);
        assert(run_models(ws0, reqs.take(k)) == step_models(prev, now, reqs[k - 1].1));
        assert(run_models(ws0, reqs.take(k))[j] == step_window(
            prev[j],
            now,
            reqs[k - 1].1,
            all_admit(prev, now),
        ));
        if k == 1 {
            assert(live_entries(prev[j].entries, cutoff) =~= Seq::<RateEntry>::empty());
            assert(admitted_entries(ws0, reqs, k - 1, cutoff) == Seq::<RateEntry>::empty());
        } else {
            let prev_cutoff = reqs[k - 2].0 as int - ws0[j].duration_ms;
            assert(prev_cutoff <= cutoff);
            lemma_live_of_admitted(ws0, reqs, k - 1, prev_cutoff, cutoff);
        }
        assert(admitted_at(ws0, reqs, k - 1) == all_admit(prev, now));
    }
}

/// A window count over an interval is bounded by the entries kept at a
/// cutoff at or below the interval.
proof fn lemma_count_le_entries(
    ws0: Seq<WindowModel>,
    reqs: Seq<(i64, u64)>,
    k: int,
    lo: int,
    hi: int,
    cutoff: int,
)
    requires
        cutoff <= lo + 1,
    ensures
        admitted_in_window(ws0, reqs, k, lo, hi) <= admitted_entries(ws0, reqs, k, cutoff).len(),
    decreases k,
{
    if k > 0 {
        lemma_count_le_entries(ws0, reqs, k - 1, lo, hi, cutoff);
    }
}

proof fn lemma_count_nonneg(ws0: Seq<WindowModel>, reqs: Seq<(i64, u64)>, k: int, lo: int, hi: int)
    ensures
        admitted_in_window(ws0, reqs, k, lo, hi) >= 0,
    decreases k,
{
    if k > 0 {
        lemma_count_nonneg(ws0, reqs, k - 1, lo, hi);
    }
}

proof fn lemma_window_bound_step(
    ws0: Seq<WindowModel>,
    reqs: Seq<(i64, u64)>,
    j: int,
    t_hi: int,
    k: int,
)
    requires
        0 <= j < ws0.len(),
        ws0[j].entries == Seq::<RateEntry>::empty(),
        ws0[j].duration_ms >= 0,
        ws0[j].limit >= 0,
        times_ordered(reqs),
        0 <= k <= reqs.len(),
    ensures
        admitted_in_window(ws0, reqs, k, t_hi - ws0[j].duration_ms, t_hi) <= ws0[j].limit,
    decreases k,
{
    let dm = ws0[j].duration_ms;
    let lo = t_hi - dm;
    if k == 0 {
    } else {
        lemma_window_bound_step(ws0, reqs, j, t_hi, k - 1);
        if admitted_at(ws0, reqs, k - 1) && lo < reqs[k - 1].0 as int <= t_hi {
            // The admission check at step k-1 bounds all earlier
            // admitted attempts still inside the window.
            let now = reqs[k - 1].0 as int;
            let prev = run_models(ws0, reqs.take(k - 1));
            lemma_run_shape(ws0, reqs, k - 1);
            lemma_run_entries(ws0, reqs, j, k - 1);
            assert(window_admits(prev[j], now));
            if k == 1 {
                lemma_count_nonneg(ws0, reqs, k - 1, lo, t_hi);
                assert(admitted_in_window(ws0, reqs, k - 1, lo, t_hi) == 0);
            } else {
                let prev_cutoff = reqs[k - 2].0 as int - dm;
                lemma_live_of_admitted(ws0, reqs, k - 1, prev_cutoff, now - dm);
                assert(live_entries(prev[j].entries, now - dm) == admitted_entries(
                    ws0,
                    reqs,
                    k - 1,
                    now - dm,
                ));
                assert(admitted_entries(ws0, reqs, k - 1, now - dm).len() < ws0[j].limit);
                lemma_count_le_entries(ws0, reqs, k - 1, lo, t_hi, now - dm);
            }
        }
    }
}

/// Rolling-window law: start a limiter with an empty window of
/// capacity `limit` over `duration_ms`, and feed it any stream of
/// attempts with nondecreasing times, deciding each with
/// `step_models` as `try_acquire` does. Then for every interval
/// `(t_hi - duration_ms, t_hi]`, the number of admitted attempts whose
/// decision time falls in that interval never exceeds the window's
/// capacity.
pub proof fn lemma_admitted_in_any_window_bounded(
    ws0: Seq<WindowModel>,
    reqs: Seq<(i64, u64)>,
    j: int,
    t_hi: int,
)
    requires
        0 <= j < ws0.len(),
        ws0[j].entries == Seq::<RateEntry>::empty(),
        ws0[j].duration_ms >= 0,
        ws0[j].limit >= 0,
        times_ordered(reqs),
    ensures
        admitted_in_window(ws0, reqs, reqs.len() as int, t_hi - ws0[j].duration_ms, t_hi)
            <= ws0[j].limit,
{
    lemma_window_bound_step(ws0, reqs, j, t_hi, reqs.len() as int);
}

fn copy_entries(v: &Vec<RateEntry>) -> (r: Vec<RateEntry>)
    ensures
        r@ == v@,
{
    let mut r: Vec<RateEntry> = Vec::new();
    let mut i: usize = 0;
    while i < v.len()
        invariant
            0 <= i <= v@.len(),
            r@ == v@.take(i as int),
        decreases v@.len() - i,
    {
        proof {
            assert(v@.take(i as int + 1) =~= v@.take(i as int).push(v@[i as int]));
        }
        r.push(v[i]);
        i = i + 1;
    }
    proof {
        assert(v@.take(i as int) =~= v@);
    }
    r
}

} // verus!
