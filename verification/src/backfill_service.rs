//! The backfill coordinator: plans the days to fetch for a (symbol,
//! range) job, drives per-day fetch and save, checkpoints the cursor
//! under fencing, and reports what it did.
//!
//! One run acquires the job lease (or takes over a stale one), resumes
//! from the stored cursor, unions the resume day with the detected
//! gaps, walks the planned days in order, and finally marks the job
//! Completed or Failed. A failing day is recorded and skipped; a
//! failing store operation ends the run.

use vstd::prelude::*;
use vstd::string::StringExecFns;
use crate::date_range::DateRange;
use crate::date_range::Day;
use crate::date_range::day_in_range;
use crate::date_range::day_of_num;
use crate::date_range::day_of_timestamp_ms;
use crate::date_range::end_of_day_ms;
use crate::date_range::spec_range;
use crate::date_range::start_of_day_ms;
use crate::date_range::ymd_str_of;
use crate::historical_data::GapDetectionError;
use crate::historical_data::GapDetector;
use crate::historical_data::HistoricalDataError;
use crate::historical_data::HistoricalDataGateway;
use crate::historical_data::tick_batch_wf;
use crate::tick::TickView;
use crate::job_state::fenced_ok;
use crate::job_state::JobState;
use crate::job_state::JobStateError;
use crate::job_state::JobStateRepository;
use crate::job_state::JobStateView;
use crate::job_state::JobStatus;
use crate::job_state::CriticalRangeView;
use crate::ports::min_int;
use crate::ports::RepositoryError;
use crate::ports::TickRepository;

verus! {

/// A `Running` lease older than this many milliseconds counts as stale
/// and may be taken over.
pub const HEARTBEAT_TIMEOUT_MS: i64 = 300_000;

#[derive(Debug)]
pub enum BackfillError {
    GatewayError(HistoricalDataError),
    GapDetectionError(GapDetectionError),
    RepositoryError(RepositoryError),
    JobStateError(JobStateError),
    JobAlreadyRunning(String),
}

/// What one run reports: the days it processed, the ticks it fetched,
/// and the days that failed, with a diagnostic each.
#[derive(Debug)]
pub struct BackfillReport {
    pub symbol: String,
    pub range: DateRange,
    pub days_processed: usize,
    pub total_ticks: usize,
    pub failed_days: Vec<(Day, String)>,
}

/// The store key of the job for (symbol, range start).
pub open spec fn job_key_of(symbol: Seq<char>, start_day: int) -> Seq<char> {
    "ingest:job:"@ + symbol + ":"@ + ymd_str_of(start_day)
}

/// Whether a stored record holds a live lease at time `now`.
pub open spec fn fresh_running(st: JobStateView, now: int) -> bool {
    st.status == JobStatus::Running && now - st.heartbeat_at <= HEARTBEAT_TIMEOUT_MS
}

/// The cursor a run starts from: the stored one, or one millisecond
/// before the range's first day for a fresh job.
pub open spec fn initial_cursor(
    m: Map<Seq<char>, JobStateView>,
    key: Seq<char>,
    range: DateRange,
) -> int {
    if m.contains_key(key) {
        m[key].cursor
    } else {
        start_of_day_ms(range.start_spec()@) - 1
    }
}

/// The day a run resumes from: the range's first day while the cursor
/// lies before it, else the day the cursor falls within (or the range's
/// first day if that day lies outside the supported calendar).
pub open spec fn resume_start_num(range: DateRange, cursor: int) -> int {
    if cursor < start_of_day_ms(range.start_spec()@) {
        range.start_spec()@
    } else if day_in_range(cursor / 86_400_000) {
        cursor / 86_400_000
    } else {
        range.start_spec()@
    }
}

/// Whether some gap covers day number `d`.
pub open spec fn gap_day(gaps: Seq<DateRange>, d: int) -> bool {
    exists|i: int| 0 <= i < gaps.len() && (#[trigger] gaps[i]).spec_contains(d)
}

/// The planned days, ascending: the resume day, united with every gap
/// day, clipped to `[eff, end]`.
pub open spec fn planned_days(eff: int, end: int, gaps: Seq<DateRange>) -> Seq<int>
    decreases end - eff + 1,
{
    if end < eff {
        Seq::empty()
    } else {
        let rest = planned_days(eff, end - 1, gaps);
        if end == eff || gap_day(gaps, end) {
            rest.push(end)
        } else {
            rest
        }
    }
}

/// The planned days whose end-of-day lies beyond the starting cursor:
/// the days a run actually works on.
pub open spec fn attempted_of(days: Seq<int>, c0: int) -> Seq<int>
    decreases days.len(),
{
    if days.len() == 0 {
        Seq::empty()
    } else {
        let rest = attempted_of(days.drop_last(), c0);
        if end_of_day_ms(days.last()) > c0 {
            rest.push(days.last())
        } else {
            rest
        }
    }
}

/// Where the cursor stands after processing one day: the day's last
/// tick timestamp if it advances the cursor, the day's end for an empty
/// day.
pub open spec fn day_cursor<G: HistoricalDataGateway>(
    g: &G,
    symbol: Seq<char>,
    d: int,
    prev: int,
) -> int {
    let ts = g.ticks_at(symbol, day_of_num(d));
    if ts.len() == 0 {
        end_of_day_ms(d)
    } else if ts.last().timestamp_ms > prev {
        ts.last().timestamp_ms
    } else {
        prev
    }
}

/// Where the cursor stands after processing the given days in order.
pub open spec fn cursor_after<G: HistoricalDataGateway>(
    g: &G,
    symbol: Seq<char>,
    c0: int,
    days: Seq<int>,
) -> int
    decreases days.len(),
{
    if days.len() == 0 {
        c0
    } else {
        day_cursor(g, symbol, days.last(), cursor_after(g, symbol, c0, days.drop_last()))
    }
}

/// How many ticks the gateway serves over the given days in total.
pub open spec fn ticks_total<G: HistoricalDataGateway>(
    g: &G,
    symbol: Seq<char>,
    days: Seq<int>,
) -> int
    decreases days.len(),
{
    if days.len() == 0 {
        0
    } else {
        ticks_total(g, symbol, days.drop_last()) + g.ticks_at(
            symbol,
            day_of_num(days.last()),
        ).len()
    }
}

/// The total tick count of a sequence of persisted batches.
pub open spec fn batches_ticks(bs: Seq<Seq<TickView>>) -> int
    decreases bs.len(),
{
    if bs.len() == 0 {
        0
    } else {
        batches_ticks(bs.drop_last()) + bs.last().len()
    }
}

/// The non-empty batches the gateway serves over the given days, in
/// order: exactly what a clean run hands to the tick sink.
pub open spec fn nonempty_batches<G: HistoricalDataGateway>(
    g: &G,
    symbol: Seq<char>,
    days: Seq<int>,
) -> Seq<Seq<TickView>>
    decreases days.len(),
{
    if days.len() == 0 {
        Seq::empty()
    } else {
        let rest = nonempty_batches(g, symbol, days.drop_last());
        let batch = g.ticks_at(symbol, day_of_num(days.last()));
        if batch.len() > 0 {
            rest.push(batch)
        } else {
            rest
        }
    }
}

/// Relies on `uuid::Uuid::new_v4` and `Uuid`'s `Display`: a freshly
/// generated random token, rendered in the 36-character hyphenated
/// form.
#[verifier::external_body]
fn mint_instance_id() -> (r: String)
    ensures
        r@.len() == 36,
{
    uuid::Uuid::new_v4().to_string()
}

fn job_key_for(symbol: &str, start: Day) -> (r: String)
    requires
        start.wf(),
    ensures
        r@ == job_key_of(symbol@, start@),
{
    let mut s = String::new();
    s.append("ingest:job:");
    s.append(symbol);
    s.append(":");
    let iso = start.to_iso_string();
    s.append(iso.as_str());
    proof {
        assert(s@ =~= job_key_of(symbol@, start@));
    }
    s
}

/// The day a run resumes from, computed from the stored cursor.
fn resume_start(range_start: Day, cursor: i64) -> (r: Day)
    requires
        range_start.wf(),
    ensures
        r@ == (if (cursor as int) < start_of_day_ms(range_start@) {
            range_start@
        } else if day_in_range(cursor as int / 86_400_000) {
            cursor as int / 86_400_000
        } else {
            range_start@
        }),
        r.wf(),
{
    let start_ts = range_start.start_of_day_ts();
    if cursor < start_ts {
        return range_start;
    }
    match day_of_timestamp_ms(cursor) {
        Some(d) => d,
        None => range_start,
    }
}

fn gap_hit(gaps: &Vec<DateRange>, day: Day) -> (r: bool)
    ensures
        r == gap_day(gaps@, day@),
{
    let mut i: usize = 0;
    while i < gaps.len()
        invariant
            0 <= i <= gaps@.len(),
            forall|k: int| 0 <= k < i ==> !(#[trigger] gaps@[k]).spec_contains(day@),
        decreases gaps@.len() - i,
    {
        if gaps[i].contains(day) {
            return true;
        }
        i = i + 1;
    }
    false
}

/// Build the ordered, duplicate-free list of days to work on: the
/// resume day united with every gap day inside `[effective_start,
/// range_end]`.
fn plan_days_to_process(effective_start: Day, range_end: Day, gaps: &Vec<DateRange>) -> (days: Vec<
    Day,
>)
    requires
        effective_start.wf(),
        range_end.wf(),
        effective_start@ <= range_end@,
    ensures
        days@.map_values(|d: Day| d@) == planned_days(effective_start@, range_end@, gaps@),
        forall|i: int| 0 <= i < days@.len() ==> (#[trigger] days@[i]).wf(),
        forall|i: int, j: int| 0 <= i < j < days@.len() ==> days@[i]@ < days@[j]@,
        forall|i: int|
            0 <= i < days@.len() ==> effective_start@ <= (#[trigger] days@[i])@ <= range_end@,
{
    let mut days: Vec<Day> = Vec::new();
    let eff_num = effective_start.epoch_days();
    let end_num = range_end.epoch_days();
    let mut n: i64 = eff_num;
    while n <= end_num
        invariant
            effective_start.wf(),
            range_end.wf(),
            eff_num as int == effective_start@,
            end_num as int == range_end@,
            eff_num <= n,
            n as int <= end_num as int + 1,
            days@.map_values(|d: Day| d@) == planned_days(
                effective_start@,
                n as int - 1,
                gaps@,
            ),
            forall|i: int| 0 <= i < days@.len() ==> (#[trigger] days@[i]).wf(),
            forall|i: int, j: int| 0 <= i < j < days@.len() ==> days@[i]@ < days@[j]@,
            forall|i: int|
                0 <= i < days@.len() ==> effective_start@ <= (#[trigger] days@[i])@ < n as int,
        decreases end_num as int + 1 - n as int,
    {
        let d = Day::from_num(n);
        let keep = n == eff_num || gap_hit(gaps, d);
        let ghost pre = days@;
        if keep {
            days.push(d);
        }
        proof {
            if keep {
                assert(days@.map_values(|x: Day| x@) =~= pre.map_values(|x: Day| x@).push(
                    n as int,
                ));
            }
            assert(days@.map_values(|x: Day| x@) == planned_days(effective_start@, n as int, gaps@));
        }
        n = n + 1;
    }
    days
}

/// The job lease context a run works under.
struct JobContext {
    job_key: String,
    state: JobState,
}

/// What one day's fetch and save produced.
struct DayResult {
    tick_count: usize,
    last_timestamp: Option<i64>,
}

/// The verified backfill coordinator over its four collaborator ports.
pub struct BackfillServiceImpl<G, D, R, J> where
    G: HistoricalDataGateway,
    D: GapDetector,
    R: TickRepository,
    J: JobStateRepository,
 {
    pub gateway: G,
    pub gap_detector: D,
    pub repository: R,
    pub job_state_repo: J,
}

impl<G, D, R, J> BackfillServiceImpl<G, D, R, J> where
    G: HistoricalDataGateway,
    D: GapDetector,
    R: TickRepository,
    J: JobStateRepository,
 {
    pub open spec fn wf(&self) -> bool {
        &&& self.gateway.inv()
        &&& self.gap_detector.inv()
        &&& self.repository.inv()
        &&& self.job_state_repo.inv()
    }

    /// Whether every collaborator is healthy, so that the run owes a
    /// report.
    pub open spec fn all_total(&self) -> bool {
        &&& self.gateway.fetch_total()
        &&& self.gap_detector.detect_total()
        &&& self.repository.sink_total()
        &&& self.job_state_repo.backend_ok()
    }

    pub fn new(gateway: G, gap_detector: D, repository: R, job_state_repo: J) -> (r: Self)
        ensures
            r.gateway == gateway,
            r.gap_detector == gap_detector,
            r.repository == repository,
            r.job_state_repo == job_state_repo,
    {
        BackfillServiceImpl { gateway, gap_detector, repository, job_state_repo }
    }

    /// Everything `backfill_range` promises, over the run's inputs, the
    /// coordinator before and after, and the result.
    pub open spec fn backfill_post(
        pre: Self,
        post: Self,
        symbol: Seq<char>,
        range: DateRange,
        now: int,
        r: Result<BackfillReport, BackfillError>,
    ) -> bool {
        let key = job_key_of(symbol, range.start_spec()@);
        let m0 = pre.job_state_repo.sview();
        let m1 = post.job_state_repo.sview();
        let c0 = initial_cursor(m0, key, range);
        let eff = resume_start_num(range, c0);
        let gaps = pre.gap_detector.gaps_at(symbol, spec_range(eff, range.end_spec()@));
        let att = attempted_of(planned_days(eff, range.end_spec()@, gaps), c0);

        &&& post.wf()
        &&& post.gateway == pre.gateway
        &&& post.gap_detector == pre.gap_detector
        &&& post.job_state_repo.backend_ok() == pre.job_state_repo.backend_ok()
        &&& post.repository.sink_total() == pre.repository.sink_total()
        // An active lease is reported as such, and only then.
        &&& (r matches Err(BackfillError::JobAlreadyRunning(k)) ==> k@ == key
            && m0.contains_key(key) && fresh_running(m0[key], now) && m1 == m0)
        &&& (m0.contains_key(key) && fresh_running(m0[key], now) ==> !(r is Ok))
        &&& (pre.job_state_repo.backend_ok() && m0.contains_key(key) && fresh_running(
            m0[key],
            now,
        ) ==> (r matches Err(BackfillError::JobAlreadyRunning(_))))
        // With a healthy store, detector and sink and no live lease, a
        // report is owed even if the gateway fails: day failures are
        // recorded and the run continues. With a healthy gateway too,
        // no day fails.
        &&& (pre.job_state_repo.backend_ok() && pre.gap_detector.detect_total()
            && pre.repository.sink_total() && !(m0.contains_key(key) && fresh_running(
            m0[key],
            now,
        )) ==> r is Ok)
        &&& (r matches Ok(report) ==> (pre.all_total() ==> report.failed_days@.len() == 0))
        // What a successful run reports and leaves behind.
        &&& (r matches Ok(report) ==> {
            &&& report.symbol@ == symbol
            &&& report.range == range
            &&& m1.contains_key(key)
            &&& m1.remove(key) == m0.remove(key)
            &&& m1[key].status == (if report.failed_days@.len() > 0 {
                JobStatus::Failed
            } else {
                JobStatus::Completed
            })
            &&& m1[key].heartbeat_at == now
            &&& m1[key].end_time == (if m0.contains_key(key) {
                m0[key].end_time
            } else {
                end_of_day_ms(range.end_spec()@)
            })
            &&& m1[key].cursor >= c0
            &&& m1[key].job_instance_id.len() == 36
            &&& report.days_processed + report.failed_days@.len() == att.len()
            &&& (forall|i: int|
                0 <= i < report.failed_days@.len() ==> att.contains(
                    (#[trigger] report.failed_days@[i]).0@,
                ))
            // failed days are distinct, in chronological order
            &&& (forall|a: int, b: int|
                0 <= a < b < report.failed_days@.len() ==> (#[trigger] report.failed_days@[a]).0@
                    < (#[trigger] report.failed_days@[b]).0@)
            // the sink only ever grows, one shutdown completes the run
            &&& pre.repository.sunk().is_prefix_of(post.repository.sunk())
            &&& post.repository.shutdown_count() == (if eff <= range.end_spec()@ {
                min_int(pre.repository.shutdown_count() + 1, u64::MAX as int)
            } else {
                pre.repository.shutdown_count()
            })
            // the report counts exactly the ticks persisted by this run
            &&& report.total_ticks as int == min_int(
                batches_ticks(post.repository.sunk().skip(pre.repository.sunk().len() as int)),
                usize::MAX as int,
            )
            &&& (report.failed_days@.len() == 0 ==> {
                &&& m1[key].cursor == cursor_after(&pre.gateway, symbol, c0, att)
                &&& report.total_ticks as int == min_int(
                    ticks_total(&pre.gateway, symbol, att),
                    usize::MAX as int,
                )
                // exactly the non-empty fetched batches of the
                // attempted days were persisted, in order
                &&& post.repository.sunk() == pre.repository.sunk() + nonempty_batches(
                    &pre.gateway,
                    symbol,
                    att,
                )
            })
        })
    }

    /// Acquire the job lease: reject a live lease, take over a stale or
    /// terminal record preserving its cursor, create a fresh record
    /// otherwise.
    fn initialize_job(&mut self, symbol: &str, range: &DateRange, now_ms: i64) -> (r: Result<
        JobContext,
        BackfillError,
    >)
        requires
            old(self).wf(),
            range.wf(),
            0 <= now_ms,
        ensures
            final(self).wf(),
            final(self).gateway == old(self).gateway,
            final(self).gap_detector == old(self).gap_detector,
            final(self).repository == old(self).repository,
            final(self).job_state_repo.backend_ok() == old(self).job_state_repo.backend_ok(),
            ({
                let key = job_key_of(symbol@, range.start_spec()@);
                let m0 = old(self).job_state_repo.sview();
                let m1 = final(self).job_state_repo.sview();
                let was_fresh = m0.contains_key(key) && fresh_running(m0[key], now_ms as int);
                match r {
                    Ok(ctx) => {
                        &&& !was_fresh
                        &&& ctx.job_key@ == key
                        &&& ctx.state@.status == JobStatus::Running
                        &&& ctx.state@.heartbeat_at == now_ms as int
                        &&& ctx.state@.cursor == initial_cursor(m0, key, *range)
                        &&& ctx.state@.end_time == (if m0.contains_key(key) {
                            m0[key].end_time
                        } else {
                            end_of_day_ms(range.end_spec()@)
                        })
                        &&& ctx.state@.job_instance_id.len() == 36
                        &&& ctx.state@.last_error_type == (if m0.contains_key(key) {
                            m0[key].last_error_type
                        } else {
                            None::<Seq<char>>
                        })
                        &&& ctx.state@.critical_ranges == (if m0.contains_key(key) {
                            m0[key].critical_ranges
                        } else {
                            Seq::<CriticalRangeView>::empty()
                        })
                        &&& m1 == m0.insert(key, ctx.state@)
                    },
                    Err(BackfillError::JobAlreadyRunning(k)) => {
                        &&& k@ == key
                        &&& was_fresh
                        &&& m1 == m0
                    },
                    Err(BackfillError::JobStateError(_)) => {
                        &&& m1 == m0
                        &&& !old(self).job_state_repo.backend_ok()
                    },
                    _ => false,
                }
            }),
    {
        let job_key = job_key_for(symbol, range.start());
        let prior = match self.job_state_repo.get(job_key.as_str()) {
            Ok(p) => p,
            Err(e) => {
                return Err(BackfillError::JobStateError(e));
            },
        };
        match prior {
            Some(prior_state) => {
                if prior_state.status == JobStatus::Running {
                    let is_fresh = match now_ms.checked_sub(prior_state.heartbeat_at) {
                        Some(age) => age <= HEARTBEAT_TIMEOUT_MS,
                        None => false,
                    };
                    if is_fresh {
                        return Err(BackfillError::JobAlreadyRunning(job_key));
                    }
                }
                // Stale or terminal: take over, preserving the cursor.
                let mut state = prior_state;
                state.job_instance_id = mint_instance_id();
                state.status = JobStatus::Running;
                state.heartbeat_at = now_ms;
                match self.job_state_repo.upsert(job_key.as_str(), &state) {
                    Ok(()) => Ok(JobContext { job_key, state }),
                    Err(e) => Err(BackfillError::JobStateError(e)),
                }
            },
            None => {
                let start_ts = range.start().start_of_day_ts();
                let state = JobState::new(
                    mint_instance_id(),
                    JobStatus::Running,
                    start_ts - 1,
                    range.end().end_of_day_ts(),
                    now_ms,
                );
                match self.job_state_repo.upsert(job_key.as_str(), &state) {
                    Ok(()) => Ok(JobContext { job_key, state }),
                    Err(e) => Err(BackfillError::JobStateError(e)),
                }
            },
        }
    }

    /// Set the final status and heartbeat, under fencing.
    fn finalize_job(&mut self, ctx: &JobContext, status: JobStatus, now_ms: i64) -> (r: Result<
        (),
        BackfillError,
    >)
        requires
            old(self).wf(),
        ensures
            final(self).wf(),
            final(self).gateway == old(self).gateway,
            final(self).gap_detector == old(self).gap_detector,
            final(self).repository == old(self).repository,
            final(self).job_state_repo.backend_ok() == old(self).job_state_repo.backend_ok(),
            ({
                let key = ctx.job_key@;
                let id = ctx.state@.job_instance_id;
                let m0 = old(self).job_state_repo.sview();
                let m1 = final(self).job_state_repo.sview();
                &&& (r is Ok ==> fenced_ok(m0, key, id) && m1 == m0.insert(
                    key,
                    (JobStateView {
                        status,
                        heartbeat_at: now_ms as int,
                        ..m0[key]
                    }),
                ))
                &&& (r is Ok ==> m1.remove(key) == m0.remove(key))
                &&& (old(self).job_state_repo.backend_ok() && fenced_ok(m0, key, id) ==> r is Ok)
                &&& (!(r is Ok) ==> (r matches Err(BackfillError::JobStateError(_))))
            }),
    {
        let ghost m0 = self.job_state_repo.sview();
        match self.job_state_repo.update_status(
            ctx.job_key.as_str(),
            &ctx.state.job_instance_id,
            status,
        ) {
            Ok(()) => {},
            Err(e) => {
                return Err(BackfillError::JobStateError(e));
            },
        }
        match self.job_state_repo.heartbeat(
            ctx.job_key.as_str(),
            &ctx.state.job_instance_id,
            now_ms,
        ) {
            Ok(()) => {},
            Err(e) => {
                return Err(BackfillError::JobStateError(e));
            },
        }
        proof {
            let key = ctx.job_key@;
            assert(self.job_state_repo.sview() =~= m0.insert(
                key,
                (JobStateView { status, heartbeat_at: now_ms as int, ..m0[key] }),
            ));
            assert(self.job_state_repo.sview().remove(key) =~= m0.remove(key));
        }
        Ok(())
    }

    /// Record a day's failure diagnostic, under fencing.
    fn record_error(&mut self, ctx: &JobContext, message: &str) -> (r: Result<(), BackfillError>)
        requires
            old(self).wf(),
        ensures
            final(self).wf(),
            final(self).gateway == old(self).gateway,
            final(self).gap_detector == old(self).gap_detector,
            final(self).repository == old(self).repository,
            final(self).job_state_repo.backend_ok() == old(self).job_state_repo.backend_ok(),
            ({
                let key = ctx.job_key@;
                let id = ctx.state@.job_instance_id;
                let m0 = old(self).job_state_repo.sview();
                let m1 = final(self).job_state_repo.sview();
                &&& (r is Ok ==> fenced_ok(m0, key, id) && m1 == m0.insert(
                    key,
                    (JobStateView { last_error_type: Some(message@), ..m0[key] }),
                ))
                &&& (r is Ok ==> m1.remove(key) == m0.remove(key))
                &&& (old(self).job_state_repo.backend_ok() && fenced_ok(m0, key, id) ==> r is Ok)
                &&& (!(r is Ok) ==> (r matches Err(BackfillError::JobStateError(_))))
            }),
    {
        let ghost m0 = self.job_state_repo.sview();
        match self.job_state_repo.save_error(
            ctx.job_key.as_str(),
            &ctx.state.job_instance_id,
            message,
        ) {
            Ok(()) => {
                proof {
                    let key = ctx.job_key@;
                    assert(self.job_state_repo.sview().remove(key) =~= m0.remove(key));
                }
                Ok(())
            },
            Err(e) => Err(BackfillError::JobStateError(e)),
        }
    }

    /// Fetch one day's ticks and save them if the day is non-empty.
    fn backfill_single_day(&mut self, symbol: &str, date: Day) -> (r: Result<
        DayResult,
        BackfillError,
    >)
        requires
            old(self).wf(),
            date.wf(),
        ensures
            final(self).wf(),
            final(self).gateway == old(self).gateway,
            final(self).gap_detector == old(self).gap_detector,
            final(self).job_state_repo == old(self).job_state_repo,
            final(self).repository.sink_total() == old(self).repository.sink_total(),
            final(self).repository.shutdown_count() == old(self).repository.shutdown_count(),
            ({
                let ts = old(self).gateway.ticks_at(symbol@, date);
                match r {
                    Ok(res) => {
                        &&& tick_batch_wf(ts, date)
                        &&& res.tick_count == ts.len()
                        &&& (res.last_timestamp matches Some(v) <==> ts.len() > 0)
                        &&& (res.last_timestamp matches Some(v) ==> v as int == ts.last().timestamp_ms)
                        &&& final(self).repository.sunk() == (if ts.len() > 0 {
                            old(self).repository.sunk().push(ts)
                        } else {
                            old(self).repository.sunk()
                        })
                    },
                    Err(e) => {
                        &&& (e is GatewayError || e is RepositoryError)
                        &&& !(old(self).gateway.fetch_total() && old(self).repository.sink_total())
                        &&& final(self).repository.sunk() == old(self).repository.sunk()
                    },
                }
            }),
    {
        let ticks = match self.gateway.fetch_historical_ticks(symbol, date) {
            Ok(t) => t,
            Err(e) => {
                return Err(BackfillError::GatewayError(e));
            },
        };
        let tick_count = ticks.len();
        let last_timestamp = if tick_count > 0 {
            proof {
                assert(ticks.deep_view()[tick_count - 1] == ticks@[tick_count - 1].deep_view());
            }
            Some(ticks[tick_count - 1].timestamp())
        } else {
            None
        };
        if tick_count > 0 {
            match self.repository.save_batch(ticks) {
                Ok(()) => {},
                Err(e) => {
                    return Err(BackfillError::RepositoryError(e));
                },
            }
        }
        Ok(DayResult { tick_count, last_timestamp })
    }

    /// Run a backfill for (symbol, range) at wall-clock time `now_ms`:
    /// acquire the lease, plan the days, fetch and persist each, and
    /// finalize the job record.
    pub fn backfill_range(&mut self, symbol: &str, range: DateRange, now_ms: i64) -> (r: Result<
        BackfillReport,
        BackfillError,
    >)
        requires
            old(self).wf(),
            range.wf(),
            0 <= now_ms,
        ensures
            Self::backfill_post(*old(self), *final(self), symbol@, range, now_ms as int, r),
    {
        let ghost m0 = self.job_state_repo.sview();
        let ghost key = job_key_of(symbol@, range.start_spec()@);
        let ghost sunk0 = self.repository.sunk();
        let ghost shut0 = self.repository.shutdown_count();

        let mut job_ctx = match self.initialize_job(symbol, &range, now_ms) {
            Ok(ctx) => ctx,
            Err(e) => {
                return Err(e);
            },
        };
        let ghost iid = job_ctx.state@.job_instance_id;
        let ghost c0 = initial_cursor(m0, key, range);
        let ghost et0 = if m0.contains_key(key) {
            m0[key].end_time
        } else {
            end_of_day_ms(range.end_spec()@)
        };

        let effective_start = resume_start(range.start(), job_ctx.state.cursor);
        let ghost eff = effective_start@;
        let ghost gaps_spec = self.gap_detector.gaps_at(
            symbol@,
            spec_range(eff, range.end_spec()@),
        );

        if range.end().lt(&effective_start) {
            // The cursor already lies past the range: nothing to do.
            proof {
                assert(planned_days(eff, range.end_spec()@, gaps_spec) == Seq::<int>::empty());
                assert(self.job_state_repo.sview().remove(key) =~= m0.remove(key));
                assert(fenced_ok(self.job_state_repo.sview(), key, iid));
            }
            match self.finalize_job(&job_ctx, JobStatus::Completed, now_ms) {
                Ok(()) => {},
                Err(e) => {
                    return Err(e);
                },
            }
            proof {
                assert(self.job_state_repo.sview().remove(key) =~= m0.remove(key));
                assert(attempted_of(Seq::<int>::empty(), c0) == Seq::<int>::empty());
                assert(self.repository.sunk() == sunk0 + nonempty_batches(
                    &old(self).gateway,
                    symbol@,
                    Seq::<int>::empty(),
                )) by {
                    assert(sunk0 + Seq::<Seq<TickView>>::empty() =~= sunk0);
                }
                assert(sunk0.is_prefix_of(self.repository.sunk()));
                assert(self.repository.sunk().skip(sunk0.len() as int)
                    =~= Seq::<Seq<TickView>>::empty());
            }
            return Ok(
                BackfillReport {
                    symbol: symbol.to_owned(),
                    range,
                    days_processed: 0,
                    total_ticks: 0,
                    failed_days: Vec::new(),
                },
            );
        }

        let effective_range = match DateRange::new(effective_start, range.end()) {
            Ok(r) => r,
            Err(_) => {
                proof {
                    assert(false);
                }
                DateRange::single_day(effective_start)
            },
        };
        proof {
            crate::date_range::lemma_spec_range(eff, range.end_spec()@);
            crate::date_range::lemma_range_view_injective(
                effective_range,
                spec_range(eff, range.end_spec()@),
            );
        }

        let gaps = match self.gap_detector.detect_gaps(symbol, effective_range) {
            Ok(g) => g,
            Err(e) => {
                return Err(BackfillError::GapDetectionError(e));
            },
        };

        let days = plan_days_to_process(effective_start, range.end(), &gaps);
        let ghost dm = days@.map_values(|d: Day| d@);
        let ghost att = attempted_of(dm, c0);

        let mut total_ticks: usize = 0;
        let mut days_processed: usize = 0;
        let mut failed_days: Vec<(Day, String)> = Vec::new();
        let mut job_failed = false;

        proof {
            assert(self.job_state_repo.sview().remove(key) =~= m0.remove(key));
            assert(dm.take(0) =~= Seq::<int>::empty());
            assert(sunk0.is_prefix_of(self.repository.sunk())) by {
                assert(self.repository.sunk().take(sunk0.len() as int) =~= sunk0);
            }
            assert(self.repository.sunk().skip(sunk0.len() as int) =~= Seq::<
                Seq<TickView>,
            >::empty());
            assert(self.repository.sunk() =~= sunk0 + nonempty_batches(
                &old(self).gateway,
                symbol@,
                Seq::<int>::empty(),
            ));
        }

        let mut idx: usize = 0;
        while idx < days.len()
            invariant
                self.wf(),
                self.gateway == old(self).gateway,
                self.gap_detector == old(self).gap_detector,
                self.repository.sink_total() == old(self).repository.sink_total(),
                self.job_state_repo.backend_ok() == old(self).job_state_repo.backend_ok(),
                0 <= idx <= days@.len(),
                // names fixed before the loop
                m0 == old(self).job_state_repo.sview(),
                key == job_key_of(symbol@, range.start_spec()@),
                c0 == initial_cursor(m0, key, range),
                eff == resume_start_num(range, c0),
                gaps_spec == old(self).gap_detector.gaps_at(
                    symbol@,
                    spec_range(eff, range.end_spec()@),
                ),
                dm == planned_days(eff, range.end_spec()@, gaps_spec),
                att == attempted_of(dm, c0),
                et0 == (if m0.contains_key(key) {
                    m0[key].end_time
                } else {
                    end_of_day_ms(range.end_spec()@)
                }),
                !(m0.contains_key(key) && fresh_running(m0[key], now_ms as int)),
                sunk0 == old(self).repository.sunk(),
                shut0 == old(self).repository.shutdown_count(),
                iid.len() == 36,
                dm == days@.map_values(|d: Day| d@),
                forall|i: int| 0 <= i < days@.len() ==> (#[trigger] days@[i]).wf(),
                forall|i: int, j: int| 0 <= i < j < days@.len() ==> days@[i]@ < days@[j]@,
                // the store holds our lease, and only our key changed
                fenced_ok(self.job_state_repo.sview(), key, iid),
                self.job_state_repo.sview().remove(key) == m0.remove(key),
                self.job_state_repo.sview()[key].job_instance_id == iid,
                self.job_state_repo.sview()[key].status == JobStatus::Running,
                self.job_state_repo.sview()[key].end_time == et0,
                self.job_state_repo.sview()[key].cursor == job_ctx.state@.cursor,
                job_ctx.job_key@ == key,
                job_ctx.state@.job_instance_id == iid,
                // cursor bookkeeping
                c0 <= job_ctx.state@.cursor,
                forall|j: int|
                    idx <= j < days@.len() ==> (end_of_day_ms(#[trigger] dm[j]) > c0
                        ==> end_of_day_ms(dm[j]) > job_ctx.state@.cursor),
                !job_failed ==> job_ctx.state@.cursor == cursor_after(
                    &old(self).gateway,
                    symbol@,
                    c0,
                    attempted_of(dm.take(idx as int), c0),
                ),
                // report bookkeeping
                days_processed + failed_days@.len() == attempted_of(dm.take(idx as int), c0).len(),
                job_failed == (failed_days@.len() > 0),
                forall|i: int|
                    0 <= i < failed_days@.len() ==> attempted_of(dm.take(idx as int), c0).contains(
                        (#[trigger] failed_days@[i]).0@,
                    ),
                forall|a: int, b: int|
                    0 <= a < b < failed_days@.len() ==> (#[trigger] failed_days@[a]).0@
                        < (#[trigger] failed_days@[b]).0@,
                !job_failed ==> total_ticks as int == min_int(
                    ticks_total(
                        &old(self).gateway,
                        symbol@,
                        attempted_of(dm.take(idx as int), c0),
                    ),
                    usize::MAX as int,
                ),
                // sink bookkeeping
                self.repository.shutdown_count() == shut0,
                sunk0.is_prefix_of(self.repository.sunk()),
                total_ticks as int == min_int(
                    batches_ticks(self.repository.sunk().skip(sunk0.len() as int)),
                    usize::MAX as int,
                ),
                !job_failed ==> self.repository.sunk() == sunk0 + nonempty_batches(
                    &old(self).gateway,
                    symbol@,
                    attempted_of(dm.take(idx as int), c0),
                ),
                // totals for the success-owed clause
                old(self).all_total() ==> !job_failed,
            decreases days@.len() - idx,
        {
            let date = days[idx];
            let ghost att_pre = attempted_of(dm.take(idx as int), c0);
            proof {
                assert(dm.take(idx as int + 1).drop_last() =~= dm.take(idx as int));
                assert(dm.take(idx as int + 1).last() == dm[idx as int]);
                assert(dm[idx as int] == date@);
            }
            let day_end = date.end_of_day_ts();
            if day_end <= job_ctx.state.cursor {
                // Already covered by the cursor: skip.
                proof {
                    assert(end_of_day_ms(date@) <= c0);
                    assert(attempted_of(dm.take(idx as int + 1), c0) =~= att_pre);
                }
                idx = idx + 1;
                continue;
            }
            proof {
                assert(end_of_day_ms(date@) > c0);
                assert(attempted_of(dm.take(idx as int + 1), c0) =~= att_pre.push(date@));
            }

            match self.job_state_repo.heartbeat(
                job_ctx.job_key.as_str(),
                &job_ctx.state.job_instance_id,
                now_ms,
            ) {
                Ok(()) => {
                    proof {
                        assert(self.job_state_repo.sview().remove(key) =~= m0.remove(key));
                    }
                },
                Err(e) => {
                    return Err(BackfillError::JobStateError(e));
                },
            }

            let ghost sunk_pre = self.repository.sunk();
            match self.backfill_single_day(symbol, date) {
                Ok(result) => {
                    proof {
                        crate::date_range::lemma_day_of_num(date@);
                        crate::date_range::lemma_day_view_injective(day_of_num(date@), date);
                        lemma_attempted_len(dm.take(idx as int), c0);
                        assert(att_pre.push(date@).drop_last() =~= att_pre);
                    }
                    let ghost prev_cursor = job_ctx.state@.cursor;
                    total_ticks = total_ticks.saturating_add(result.tick_count);
                    days_processed = days_processed + 1;
                    let cursor_ts = match result.last_timestamp {
                        Some(ts_ms) => {
                            if ts_ms > job_ctx.state.cursor {
                                ts_ms
                            } else {
                                job_ctx.state.cursor
                            }
                        },
                        None => day_end,
                    };
                    match self.job_state_repo.update_cursor(
                        job_ctx.job_key.as_str(),
                        &job_ctx.state.job_instance_id,
                        cursor_ts,
                    ) {
                        Ok(()) => {
                            proof {
                                assert(self.job_state_repo.sview().remove(key) =~= m0.remove(
                                    key,
                                ));
                            }
                        },
                        Err(e) => {
                            return Err(BackfillError::JobStateError(e));
                        },
                    }
                    job_ctx.state.cursor = cursor_ts;
                    proof {
                        let g = &old(self).gateway;
                        let ts = g.ticks_at(symbol@, date);
                        assert(ts == g.ticks_at(symbol@, day_of_num(date@)));
                        if !job_failed {
                            assert(cursor_after(g, symbol@, c0, att_pre.push(date@))
                                == day_cursor(g, symbol@, date@, prev_cursor));
                            assert(cursor_ts as int == day_cursor(g, symbol@, date@, prev_cursor));
                            assert(ticks_total(g, symbol@, att_pre.push(date@)) == ticks_total(
                                g,
                                symbol@,
                                att_pre,
                            ) + ts.len());
                        }
                        // the sink's new suffix is the old one, plus the
                        // day's batch when it was non-empty
                        let suf_pre = sunk_pre.skip(sunk0.len() as int);
                        let suf_now = self.repository.sunk().skip(sunk0.len() as int);
                        if ts.len() > 0 {
                            assert(self.repository.sunk() == sunk_pre.push(ts));
                            assert(self.repository.sunk().take(sunk0.len() as int)
                                =~= sunk_pre.take(sunk0.len() as int));
                            assert(suf_now =~= suf_pre.push(ts));
                            assert(suf_now.drop_last() =~= suf_pre);
                            assert(batches_ticks(suf_now) == batches_ticks(suf_pre) + ts.len());
                            if !job_failed {
                                assert(nonempty_batches(g, symbol@, att_pre.push(date@))
                                    == nonempty_batches(g, symbol@, att_pre).push(ts));
                                assert(self.repository.sunk() =~= sunk0 + nonempty_batches(
                                    g,
                                    symbol@,
                                    att_pre.push(date@),
                                ));
                            }
                        } else {
                            assert(self.repository.sunk() == sunk_pre);
                            assert(batches_ticks(suf_now) == batches_ticks(suf_pre));
                            if !job_failed {
                                assert(nonempty_batches(g, symbol@, att_pre.push(date@))
                                    == nonempty_batches(g, symbol@, att_pre));
                            }
                        }
                    }
                },
                Err(e) => {
                    job_failed = true;
                    let msg = backfill_error_message(&e);
                    match self.record_error(&job_ctx, msg.as_str()) {
                        Ok(()) => {
                            proof {
                                assert(self.job_state_repo.sview().remove(key) =~= m0.remove(
                                    key,
                                ));
                            }
                        },
                        Err(e2) => {
                            return Err(e2);
                        },
                    }
                    failed_days.push((date, msg));
                    proof {
                        lemma_attempted_len(dm.take(idx as int), c0);
                        let pref = attempted_of(dm.take(idx as int), c0);
                        let big = attempted_of(dm.take(idx as int + 1), c0);
                        assert(big[big.len() - 1] == date@);
                        assert(big.contains(date@));
                        assert forall|i: int|
                            0 <= i < failed_days@.len() - 1 implies big.contains(
                            (#[trigger] failed_days@[i]).0@,
                        ) && failed_days@[i].0@ < date@ by {
                            let d = failed_days@[i].0@;
                            assert(pref.contains(d));
                            let q = choose|q: int| 0 <= q < pref.len() && pref[q] == d;
                            assert(big[q] == d);
                            assert(big.contains(d));
                            lemma_attempted_subset(dm.take(idx as int), c0);
                            assert(dm.take(idx as int).contains(d));
                            let k = choose|k: int|
                                0 <= k < dm.take(idx as int).len() && dm.take(idx as int)[k] == d;
                            assert(dm[k] == d);
                            assert(days@[k]@ < days@[idx as int]@);
                        }
                    }
                },
            }

            // Later planned days end strictly after this one.
            proof {
                assert forall|j: int|
                    idx as int + 1 <= j < days@.len() implies (end_of_day_ms(#[trigger] dm[j]) > c0
                    ==> end_of_day_ms(dm[j]) > job_ctx.state@.cursor) by {
                    assert(dm[j] >= date@ + 1);
                }
            }
            idx = idx + 1;
        }

        proof {
            assert(dm.take(days@.len() as int) =~= dm);
        }

        match self.repository.shutdown() {
            Ok(()) => {},
            Err(e) => {
                return Err(BackfillError::RepositoryError(e));
            },
        }

        let final_status = if job_failed {
            JobStatus::Failed
        } else {
            JobStatus::Completed
        };
        match self.finalize_job(&job_ctx, final_status, now_ms) {
            Ok(()) => {},
            Err(e) => {
                return Err(e);
            },
        }

        proof {
            assert(self.job_state_repo.sview().remove(key) =~= m0.remove(key));
        }
        Ok(
            BackfillReport {
                symbol: symbol.to_owned(),
                range,
                days_processed,
                total_ticks,
                failed_days,
            },
        )
    }
}

/// A run attempts at most as many days as it planned.
pub proof fn lemma_attempted_len(days: Seq<int>, c0: int)
    ensures
        attempted_of(days, c0).len() <= days.len(),
    decreases days.len(),
{
    if days.len() > 0 {
        lemma_attempted_len(days.drop_last(), c0);
    }
}

/// Every attempted day is one of the planned days.
pub proof fn lemma_attempted_subset(days: Seq<int>, c0: int)
    ensures
        forall|d: int| attempted_of(days, c0).contains(d) ==> days.contains(d),
    decreases days.len(),
{
    if days.len() > 0 {
        lemma_attempted_subset(days.drop_last(), c0);
        assert forall|d: int|
            attempted_of(days, c0).contains(d) implies days.contains(d) by {
            let s = attempted_of(days, c0);
            let i = choose|i: int| 0 <= i < s.len() && s[i] == d;
            if i < attempted_of(days.drop_last(), c0).len() {
                assert(attempted_of(days.drop_last(), c0)[i] == d);
                assert(attempted_of(days.drop_last(), c0).contains(d));
                assert(days.drop_last().contains(d));
                let k = choose|k: int|
                    0 <= k < days.drop_last().len() && days.drop_last()[k] == d;
                assert(days[k] == d);
            } else {
                assert(d == days.last());
            }
        }
    }
}

/// A short diagnostic for a failed day.
fn backfill_error_message(e: &BackfillError) -> (r: String)
    ensures
        r@.len() > 0,
{
    let msg: &str = match e {
        BackfillError::GatewayError(_) => "gateway error",
        BackfillError::GapDetectionError(_) => "gap detection error",
        BackfillError::RepositoryError(_) => "repository error",
        BackfillError::JobStateError(_) => "job state error",
        BackfillError::JobAlreadyRunning(_) => "job already running",
    };
    proof {
        reveal_strlit("gateway error");
        reveal_strlit("gap detection error");
        reveal_strlit("repository error");
        reveal_strlit("job state error");
        reveal_strlit("job already running");
    }
    msg.to_owned()
}

} // verus!
