//! The historical-data ports: per-day tick fetch and gap detection.
//!
//! Both are traits whose contracts the coordinator relies on; the
//! in-memory implementations here are verified against them and serve
//! as the reference collaborators.

use vstd::prelude::*;
use crate::date_range::DateRange;
use crate::date_range::Day;
use crate::date_range::end_of_day_ms;
use crate::date_range::start_of_day_ms;
use crate::tick::Tick;
use crate::tick::TickView;

verus! {

#[derive(Debug)]
pub enum HistoricalDataError {
    RateLimitExceeded,
    DataNotAvailable(Day),
    GatewayError(String),
    IoError(String),
}

#[derive(Debug)]
pub enum GapDetectionError {
    IoError(String),
    InvalidDateRange,
}

/// What a fetched batch for one day guarantees: every tick valid, every
/// timestamp inside the day, and the batch ordered by timestamp.
pub open spec fn tick_batch_wf(ticks: Seq<TickView>, date: Day) -> bool {
    &&& forall|i: int| 0 <= i < ticks.len() ==> (#[trigger] ticks[i]).wf()
    &&& forall|i: int|
        0 <= i < ticks.len() ==> start_of_day_ms(date@) <= (#[trigger] ticks[i]).timestamp_ms
            <= end_of_day_ms(date@)
    &&& forall|i: int, j: int|
        0 <= i <= j < ticks.len() ==> (#[trigger] ticks[i]).timestamp_ms
            <= (#[trigger] ticks[j]).timestamp_ms
}

/// A per-day source of historical ticks.
pub trait HistoricalDataGateway: Sized {
    /// The batch this gateway serves for (symbol, date).
    spec fn ticks_at(&self, symbol: Seq<char>, date: Day) -> Seq<TickView>;

    spec fn inv(&self) -> bool;

    /// Whether every fetch on this gateway succeeds.
    spec fn fetch_total(&self) -> bool;

    /// Fetch the day's ticks. On success the batch is exactly
    /// `ticks_at` and is a well-formed ordered batch of the day.
    fn fetch_historical_ticks(&self, symbol: &str, date: Day) -> (r: Result<
        Vec<Tick>,
        HistoricalDataError,
    >)
        requires
            self.inv(),
            date.wf(),
        ensures
            r matches Ok(ticks) ==> ticks.deep_view() == self.ticks_at(symbol@, date),
            r matches Ok(ticks) ==> tick_batch_wf(self.ticks_at(symbol@, date), date),
            self.fetch_total() ==> r is Ok,
    ;

    /// The provider's history horizon, in days.
    fn max_history_days(&self) -> u32;
}

/// A source of missing-day intervals over an expected range.
pub trait GapDetector: Sized {
    /// The gaps this detector reports for (symbol, range).
    spec fn gaps_at(&self, symbol: Seq<char>, range: DateRange) -> Seq<DateRange>;

    spec fn inv(&self) -> bool;

    /// Whether every detection on this detector succeeds.
    spec fn detect_total(&self) -> bool;

    fn detect_gaps(&self, symbol: &str, range: DateRange) -> (r: Result<
        Vec<DateRange>,
        GapDetectionError,
    >)
        requires
            self.inv(),
            range.wf(),
        ensures
            r matches Ok(gaps) ==> gaps@ == self.gaps_at(symbol@, range),
            r matches Ok(gaps) ==> forall|i: int|
                0 <= i < gaps@.len() ==> (#[trigger] gaps@[i]).wf(),
            self.detect_total() ==> r is Ok,
    ;
}

pub open spec fn stub_days_unique(entries: Seq<(Day, Vec<Tick>)>) -> bool {
    forall|i: int, j: int|
        0 <= i < j < entries.len() ==> (#[trigger] entries[i]).0@ != (#[trigger] entries[j]).0@
}

pub closed spec fn stub_ticks_of(entries: Seq<(Day, Vec<Tick>)>, date: Day) -> Seq<TickView>
    decreases entries.len(),
{
    if entries.len() == 0 {
        Seq::empty()
    } else if entries.last().0@ == date@ {
        entries.last().1.deep_view()
    } else {
        stub_ticks_of(entries.drop_last(), date)
    }
}

proof fn lemma_stub_ticks_absent(entries: Seq<(Day, Vec<Tick>)>, date: Day)
    requires
        forall|i: int| 0 <= i < entries.len() ==> (#[trigger] entries[i]).0@ != date@,
    ensures
        stub_ticks_of(entries, date) == Seq::<TickView>::empty(),
    decreases entries.len(),
{
    if entries.len() > 0 {
        lemma_stub_ticks_absent(entries.drop_last(), date);
    }
}

proof fn lemma_stub_ticks_lookup(entries: Seq<(Day, Vec<Tick>)>, date: Day, i: int)
    requires
        stub_days_unique(entries),
        0 <= i < entries.len(),
        entries[i].0@ == date@,
    ensures
        stub_ticks_of(entries, date) == entries[i].1.deep_view(),
    decreases entries.len(),
{
    if i == entries.len() - 1 {
    } else {
        assert(stub_days_unique(entries.drop_last()));
        assert(entries.last().0@ != date@);
        lemma_stub_ticks_lookup(entries.drop_last(), date, i);
    }
}

fn duplicate_ticks(v: &Vec<Tick>) -> (r: Vec<Tick>)
    ensures
        r.deep_view() == v.deep_view(),
{
    let mut r: Vec<Tick> = Vec::new();
    let mut i: usize = 0;
    while i < v.len()
        invariant
            0 <= i <= v@.len(),
            r@.len() == i,
            forall|k: int| 0 <= k < i ==> (#[trigger] r@[k]).deep_view() == v@[k].deep_view(),
        decreases v@.len() - i,
    {
        r.push(v[i].duplicate());
        i = i + 1;
    }
    proof {
        assert(r.deep_view() =~= v.deep_view());
    }
    r
}

/// An in-memory gateway serving configured per-day batches; a day with
/// no configured batch yields the empty batch.
pub struct StubHistoricalGateway {
    entries: Vec<(Day, Vec<Tick>)>,
    failing: Vec<Day>,
    max_history_days: u32,
}

impl StubHistoricalGateway {
    pub fn new() -> (r: StubHistoricalGateway)
        ensures
            r.inv(),
            r.fetch_total(),
            forall|s: Seq<char>, d: Day| #[trigger] r.ticks_at(s, d) == Seq::<TickView>::empty(),
    {
        StubHistoricalGateway { entries: Vec::new(), failing: Vec::new(), max_history_days: 365 }
    }

    /// Make every fetch of the given day fail with `DataNotAvailable`.
    pub fn insert_failing_day(&mut self, date: Day)
        requires
            old(self).inv(),
        ensures
            final(self).inv(),
            !final(self).fetch_total(),
            forall|s: Seq<char>, d: Day| #[trigger] final(self).ticks_at(s, d) == old(
                self,
            ).ticks_at(s, d),
            forall|d: Day| final(self).has_day(d) == old(self).has_day(d),
    {
        self.failing.push(date);
        proof {
            assert(self.entries@ == old(self).entries@);
            assert forall|s: Seq<char>, d: Day| true implies #[trigger] self.ticks_at(s, d)
                == old(self).ticks_at(s, d) by {}
        }
    }

    /// Whether a batch is configured for the day.
    pub closed spec fn has_day(&self, date: Day) -> bool {
        exists|i: int| 0 <= i < self.entries@.len() && (#[trigger] self.entries@[i]).0@ == date@
    }

    /// Configure the batch served for one day, not configured before.
    pub fn insert_day(&mut self, date: Day, ticks: Vec<Tick>)
        requires
            old(self).inv(),
            date.wf(),
            tick_batch_wf(ticks.deep_view(), date),
            !old(self).has_day(date),
        ensures
            final(self).inv(),
            final(self).fetch_total() == old(self).fetch_total(),
            final(self).has_day(date),
            forall|d: Day| d@ != date@ ==> (final(self).has_day(d) == old(self).has_day(d)),
            forall|s: Seq<char>| #[trigger] final(self).ticks_at(s, date) == ticks.deep_view(),
            forall|s: Seq<char>, d: Day|
                d@ != date@ ==> #[trigger] final(self).ticks_at(s, d) == old(self).ticks_at(s, d),
    {
        self.entries.push((date, ticks));
        proof {
            assert(self.entries@.drop_last() =~= old(self).entries@);
            assert(self.entries@[self.entries@.len() - 1].0@ == date@);
            assert forall|s: Seq<char>, d: Day| d@ != date@ implies #[trigger] self.ticks_at(s, d)
                == old(self).ticks_at(s, d) by {
                assert(self.entries@.drop_last() =~= old(self).entries@);
            }
            assert forall|d: Day| d@ != date@ implies (self.has_day(d) == old(self).has_day(
                d,
            )) by {
                if old(self).has_day(d) {
                    let i = choose|i: int|
                        0 <= i < old(self).entries@.len() && (#[trigger] old(
                            self,
                        ).entries@[i]).0@ == d@;
                    assert(self.entries@[i].0@ == d@);
                }
                if self.has_day(d) {
                    let i = choose|i: int|
                        0 <= i < self.entries@.len() && (#[trigger] self.entries@[i]).0@ == d@;
                    assert(i < self.entries@.len() - 1);
                    assert(old(self).entries@[i].0@ == d@);
                }
            }
        }
    }
}

impl HistoricalDataGateway for StubHistoricalGateway {
    closed spec fn ticks_at(&self, symbol: Seq<char>, date: Day) -> Seq<TickView> {
        stub_ticks_of(self.entries@, date)
    }

    closed spec fn inv(&self) -> bool {
        &&& stub_days_unique(self.entries@)
        &&& forall|i: int|
            0 <= i < self.entries@.len() ==> tick_batch_wf(
                (#[trigger] self.entries@[i]).1.deep_view(),
                self.entries@[i].0,
            ) && self.entries@[i].0.wf()
    }

    closed spec fn fetch_total(&self) -> bool {
        self.failing@.len() == 0
    }

    fn fetch_historical_ticks(&self, symbol: &str, date: Day) -> (r: Result<
        Vec<Tick>,
        HistoricalDataError,
    >) {
        let mut f: usize = 0;
        while f < self.failing.len()
            invariant
                0 <= f <= self.failing@.len(),
            decreases self.failing@.len() - f,
        {
            if self.failing[f].epoch_days() == date.epoch_days() {
                return Err(HistoricalDataError::DataNotAvailable(date));
            }
            f = f + 1;
        }
        let mut i: usize = 0;
        while i < self.entries.len()
            invariant
                self.inv(),
                0 <= i <= self.entries@.len(),
                forall|k: int| 0 <= k < i ==> (#[trigger] self.entries@[k]).0@ != date@,
            decreases self.entries@.len() - i,
        {
            if self.entries[i].0.epoch_days() == date.epoch_days() {
                proof {
                    lemma_stub_ticks_lookup(self.entries@, date, i as int);
                    assert(tick_batch_wf(self.entries@[i as int].1.deep_view(), self.entries@[
                        i as int].0));
                    assert(self.entries@[i as int].0@ == date@);
                    crate::date_range::lemma_day_view_injective(self.entries@[i as int].0, date);
                }
                return Ok(duplicate_ticks(&self.entries[i].1));
            }
            i = i + 1;
        }
        proof {
            lemma_stub_ticks_absent(self.entries@, date);
        }
        Ok(Vec::new())
    }

    fn max_history_days(&self) -> u32 {
        self.max_history_days
    }
}

/// An in-memory detector reporting a fixed list of gaps, whatever the
/// symbol and range.
pub struct StubGapDetector {
    gaps: Vec<DateRange>,
}

impl StubGapDetector {
    pub fn new(gaps: Vec<DateRange>) -> (r: StubGapDetector)
        requires
            forall|i: int| 0 <= i < gaps@.len() ==> (#[trigger] gaps@[i]).wf(),
        ensures
            r.inv(),
            r.detect_total(),
            forall|s: Seq<char>, rg: DateRange| #[trigger] r.gaps_at(s, rg) == gaps@,
    {
        StubGapDetector { gaps }
    }
}

impl GapDetector for StubGapDetector {
    closed spec fn gaps_at(&self, symbol: Seq<char>, range: DateRange) -> Seq<DateRange> {
        self.gaps@
    }

    closed spec fn inv(&self) -> bool {
        forall|i: int| 0 <= i < self.gaps@.len() ==> (#[trigger] self.gaps@[i]).wf()
    }

    open spec fn detect_total(&self) -> bool {
        true
    }

    fn detect_gaps(&self, symbol: &str, range: DateRange) -> (r: Result<
        Vec<DateRange>,
        GapDetectionError,
    >) {
        let mut r: Vec<DateRange> = Vec::new();
        let mut i: usize = 0;
        while i < self.gaps.len()
            invariant
                0 <= i <= self.gaps@.len(),
                r@ == self.gaps@.take(i as int),
            decreases self.gaps@.len() - i,
        {
            proof {
                assert(self.gaps@.take(i as int + 1) =~= self.gaps@.take(i as int).push(self.gaps@[
                    i as int]));
            }
            r.push(self.gaps[i]);
            i = i + 1;
        }
        proof {
            assert(self.gaps@.take(i as int) =~= self.gaps@);
        }
        Ok(r)
    }
}


/// The price offset a synthetic tick carries: the tick's second of the
/// epoch, modulo 100, in whole currency units.
pub open spec fn mock_price_offset(ts_ms: int) -> int {
    (ts_ms / 1000) % 100
}

/// The synthetic tick the mock gateway serves for one minute of a day.
pub open spec fn mock_tick_at(base_mantissa: int, symbol: Seq<char>, d: int, minute: int)
    -> TickView {
    let ts = start_of_day_ms(d) + minute * 60_000;
    let last = base_mantissa + mock_price_offset(ts) * 10_000;
    TickView {
        timestamp_ms: ts,
        symbol,
        bid_price: crate::tick::spec_price(last - 1_250, 4),
        bid_size: 10,
        ask_price: crate::tick::spec_price(last + 1_250, 4),
        ask_size: 15,
        last_price: crate::tick::spec_price(last, 4),
        last_size: 5,
    }
}

/// The mock gateway's full day: one synthetic tick per minute.
pub open spec fn mock_day_ticks(base_mantissa: int, symbol: Seq<char>, d: int) -> Seq<TickView> {
    Seq::new(1440, |minute: int| mock_tick_at(base_mantissa, symbol, d, minute))
}

/// A synthetic historical-data provider: it serves one tick per minute
/// of the requested day, priced from a base with a small
/// timestamp-derived offset and a fixed half-spread of 0.125, and
/// refuses days beyond its history horizon.
pub struct MockHistoricalDataGateway {
    base_mantissa: i64,
    max_history_days: u32,
    today: Day,
}

impl MockHistoricalDataGateway {
    pub closed spec fn today_spec(&self) -> Day {
        self.today
    }

    pub closed spec fn horizon_spec(&self) -> u32 {
        self.max_history_days
    }

    /// `base_price` must carry scale 4 and lie strictly above the
    /// half-spread, so that every generated price is positive.
    pub fn new(base_price: crate::tick::Price, max_history_days: u32, today: Day) -> (r: Self)
        requires
            base_price.scale_spec() == 4,
            1_250 < base_price.mantissa_spec() <= 1_000_000_000_000,
            today.wf(),
        ensures
            r.inv(),
            r.today_spec() == today,
            r.horizon_spec() == max_history_days,
            forall|s: Seq<char>, d: Day| #[trigger] r.ticks_at(s, d) == mock_day_ticks(
                base_price.mantissa_spec(),
                s,
                d@,
            ),
    {
        MockHistoricalDataGateway { base_mantissa: base_price.mantissa(), max_history_days, today }
    }

    /// Whether the gateway serves the day: inside the provider's
    /// history horizon.
    pub open spec fn serves(&self, date: Day) -> bool {
        self.today_spec()@ - date@ <= self.horizon_spec() as int
    }
}

impl HistoricalDataGateway for MockHistoricalDataGateway {
    closed spec fn ticks_at(&self, symbol: Seq<char>, date: Day) -> Seq<TickView> {
        mock_day_ticks(self.base_mantissa as int, symbol, date@)
    }

    closed spec fn inv(&self) -> bool {
        1_250 < self.base_mantissa <= 1_000_000_000_000 && self.today.wf()
    }

    closed spec fn fetch_total(&self) -> bool {
        false
    }

    fn fetch_historical_ticks(&self, symbol: &str, date: Day) -> (r: Result<
        Vec<Tick>,
        HistoricalDataError,
    >)
        ensures
            (r is Ok) <==> (symbol@.len() > 0 && self.serves(date)),
            symbol@.len() > 0 && !self.serves(date) ==> (r matches Err(
                HistoricalDataError::DataNotAvailable(d),
            ) && d == date),
            symbol@.len() == 0 ==> (r matches Err(HistoricalDataError::GatewayError(_))),
    {
        if symbol.is_empty() {
            return Err(HistoricalDataError::GatewayError("empty symbol".to_owned()));
        }
        let days_ago = self.today.epoch_days() - date.epoch_days();
        if days_ago > self.max_history_days as i64 {
            return Err(HistoricalDataError::DataNotAvailable(date));
        }

        let start_ts = date.start_of_day_ts();
        let mut ticks: Vec<Tick> = Vec::new();
        let mut minute: i64 = 0;
        while minute < 24 * 60
            invariant
                self.inv(),
                symbol@.len() > 0,
                date.wf(),
                start_ts as int == start_of_day_ms(date@),
                0 <= minute <= 1440,
                ticks@.len() == minute,
                forall|k: int|
                    0 <= k < minute ==> (#[trigger] ticks@[k]).deep_view() == mock_tick_at(
                        self.base_mantissa as int,
                        symbol@,
                        date@,
                        k,
                    ),
            decreases 1440 - minute,
        {
            let ts = start_ts + minute * 60_000;
            let secs = match ts.checked_div_euclid(1000) {
                Some(v) => v,
                None => {
                    proof {
                        assert(false);
                    }
                    0
                },
            };
            let offset = match secs.checked_rem_euclid(100) {
                Some(v) => v,
                None => {
                    proof {
                        assert(false);
                    }
                    0
                },
            };
            let last = self.base_mantissa + offset * 10_000;
            let tick = match Tick::new(
                ts,
                symbol.to_owned(),
                crate::tick::Price::new(last - 1_250, 4),
                10,
                crate::tick::Price::new(last + 1_250, 4),
                15,
                crate::tick::Price::new(last, 4),
                5,
            ) {
                Ok(t) => t,
                Err(_) => {
                    proof {
                        assert(false);
                    }
                    return Err(HistoricalDataError::GatewayError("unreachable".to_owned()));
                },
            };
            ticks.push(tick);
            minute = minute + 1;
        }
        proof {
            let ts_all = mock_day_ticks(self.base_mantissa as int, symbol@, date@);
            assert(ticks.deep_view() =~= ts_all);
            assert forall|i: int| 0 <= i < ts_all.len() implies (#[trigger] ts_all[i]).wf()
                && start_of_day_ms(date@) <= ts_all[i].timestamp_ms <= end_of_day_ms(date@) by {
                crate::tick::lemma_spec_price(
                    self.base_mantissa as int + mock_price_offset(start_of_day_ms(date@) + i
                        * 60_000) * 10_000 - 1_250,
                    4,
                );
                crate::tick::lemma_spec_price(
                    self.base_mantissa as int + mock_price_offset(start_of_day_ms(date@) + i
                        * 60_000) * 10_000 + 1_250,
                    4,
                );
                crate::tick::lemma_spec_price(
                    self.base_mantissa as int + mock_price_offset(start_of_day_ms(date@) + i
                        * 60_000) * 10_000,
                    4,
                );
            }
            assert forall|i: int, j: int| 0 <= i <= j < ts_all.len() implies (
            #[trigger] ts_all[i]).timestamp_ms <= (#[trigger] ts_all[j]).timestamp_ms by {}
        }
        Ok(ticks)
    }

    fn max_history_days(&self) -> u32 {
        self.max_history_days
    }
}

} // verus!
