//! Gaps: maximal runs of consecutive days missing from an archive
//! within an expected range.

use vstd::prelude::*;
use crate::date_range::DateRange;
use crate::date_range::Day;
use crate::date_range::DateRangeError;

verus! {

/// A maximal run of missing days for one symbol.
#[derive(Clone, Debug)]
pub struct DataGap {
    range: DateRange,
    symbol: String,
}

impl DataGap {
    pub closed spec fn symbol_spec(&self) -> Seq<char> {
        self.symbol@
    }

    pub closed spec fn range_spec(&self) -> DateRange {
        self.range
    }

    pub fn new(symbol: String, range: DateRange) -> (r: DataGap)
        ensures
            r.symbol_spec() == symbol@,
            r.range_spec() == range,
    {
        DataGap { symbol, range }
    }

    pub fn symbol(&self) -> (r: &str)
        ensures
            r@ == self.symbol_spec(),
    {
        self.symbol.as_str()
    }

    pub fn range(&self) -> (r: &DateRange)
        ensures
            *r == self.range_spec(),
    {
        &self.range
    }

    pub fn days(&self) -> (r: u32)
        requires
            self.range_spec().wf(),
        ensures
            r as int == self.range_spec().end_spec()@ - self.range_spec().start_spec()@ + 1,
    {
        self.range.days()
    }
}

/// Whether some listed day has day number `d`.
pub open spec fn present(existing: Seq<Day>, d: int) -> bool {
    exists|i: int| 0 <= i < existing.len() && (#[trigger] existing[i])@ == d
}

/// Whether some gap in the sequence covers day number `d`.
pub open spec fn gap_covers(gaps: Seq<DataGap>, d: int) -> bool {
    exists|j: int| 0 <= j < gaps.len() && (#[trigger] gaps[j]).range_spec().spec_contains(d)
}

/// Everything that holds of each returned gap: it carries the symbol,
/// lies inside the expected range, covers only absent days, and is
/// maximal (bounded by a present day or by the range's edge).
pub open spec fn gap_sound(
    g: DataGap,
    symbol: Seq<char>,
    expected: DateRange,
    existing: Seq<Day>,
) -> bool {
    &&& g.symbol_spec() == symbol
    &&& g.range_spec().wf()
    &&& expected.start_spec()@ <= g.range_spec().start_spec()@
    &&& g.range_spec().end_spec()@ <= expected.end_spec()@
    &&& forall|d: int|
        g.range_spec().start_spec()@ <= d <= g.range_spec().end_spec()@ ==> !(#[trigger] present(
            existing,
            d,
        ))
    &&& (g.range_spec().start_spec()@ == expected.start_spec()@ || present(
        existing,
        g.range_spec().start_spec()@ - 1,
    ))
    &&& (g.range_spec().end_spec()@ == expected.end_spec()@ || present(
        existing,
        g.range_spec().end_spec()@ + 1,
    ))
}

fn contains_day(existing: &Vec<Day>, n: i64) -> (r: bool)
    ensures
        r == present(existing@, n as int),
{
    let mut i: usize = 0;
    while i < existing.len()
        invariant
            0 <= i <= existing@.len(),
            forall|k: int| 0 <= k < i ==> (#[trigger] existing@[k])@ != n as int,
        decreases existing@.len() - i,
    {
        if existing[i].epoch_days() == n {
            return true;
        }
        i = i + 1;
    }
    false
}

/// Walk the expected range day by day and return one `DataGap` per
/// maximal run of days absent from `existing_dates`, in chronological
/// order. Together the gaps cover exactly the absent days of the
/// expected range, and each gap is maximal.
pub fn detect_gaps(symbol: &str, expected_range: DateRange, existing_dates: &Vec<Day>) -> (gaps:
    Vec<DataGap>)
    requires
        expected_range.wf(),
    ensures
        forall|j: int|
            0 <= j < gaps@.len() ==> gap_sound(
                #[trigger] gaps@[j],
                symbol@,
                expected_range,
                existing_dates@,
            ),
        forall|j: int|
            0 <= j < gaps@.len() - 1 ==> (#[trigger] gaps@[j]).range_spec().end_spec()@ + 1
                < gaps@[j + 1].range_spec().start_spec()@,
        forall|d: int|
            expected_range.start_spec()@ <= d <= expected_range.end_spec()@ && !(#[trigger] present(
                existing_dates@,
                d,
            )) ==> gap_covers(gaps@, d),
{
    let start_num: i64 = expected_range.start().epoch_days();
    let end_num: i64 = expected_range.end().epoch_days();

    let mut gaps: Vec<DataGap> = Vec::new();
    let mut gap_start: Option<i64> = None;
    let mut n: i64 = start_num;

    while n <= end_num
        invariant
            expected_range.wf(),
            start_num as int == expected_range.start_spec()@,
            end_num as int == expected_range.end_spec()@,
            start_num as int <= n as int <= end_num as int + 1,
            forall|j: int|
                0 <= j < gaps@.len() ==> gap_sound(
                    #[trigger] gaps@[j],
                    symbol@,
                    expected_range,
                    existing_dates@,
                ),
            forall|j: int|
                0 <= j < gaps@.len() - 1 ==> (#[trigger] gaps@[j]).range_spec().end_spec()@ + 1
                    < gaps@[j + 1].range_spec().start_spec()@,
            forall|j: int|
                0 <= j < gaps@.len() ==> (#[trigger] gaps@[j]).range_spec().end_spec()@ + 1 < n as int,
            gap_start matches Some(g) ==> {
                &&& start_num as int <= g as int
                &&& (g as int) < n as int
                &&& forall|d: int| g as int <= d < n as int ==> !(#[trigger] present(existing_dates@, d))
                &&& (g as int == start_num as int || present(existing_dates@, g as int - 1))
                &&& forall|j: int|
                    0 <= j < gaps@.len() ==> (#[trigger] gaps@[j]).range_spec().end_spec()@ + 1
                        < g as int
            },
            gap_start is None ==> (n as int == start_num as int || present(
                existing_dates@,
                n as int - 1,
            )),
            forall|d: int|
                start_num as int <= d < n as int && !(#[trigger] present(existing_dates@, d))
                    ==> gap_covers(gaps@, d) || (gap_start matches Some(g) && g as int <= d),
        decreases end_num as int + 1 - n as int,
    {
        let here = contains_day(existing_dates, n);
        match (here, gap_start) {
            (false, None) => {
                gap_start = Some(n);
            },
            (true, Some(g)) => {
                let ghost old_gaps = gaps@;
                let gap_range = match DateRange::new(Day::from_num(g), Day::from_num(n - 1)) {
                    Ok(r) => r,
                    Err(_) => {
                        proof {
                            assert(false);
                        }
                        DateRange::single_day(Day::from_num(g))
                    },
                };
                gaps.push(DataGap::new(symbol.to_owned(), gap_range));
                gap_start = None;
                proof {
                    assert(gaps@ =~= old_gaps.push(gaps@[gaps@.len() - 1]));
                    assert forall|d: int|
                        start_num as int <= d < n as int + 1 && !(#[trigger] present(
                            existing_dates@,
                            d,
                        )) implies gap_covers(gaps@, d) by {
                        if d < g as int {
                            assert(gap_covers(old_gaps, d));
                            let j = choose|j: int|
                                0 <= j < old_gaps.len() && (#[trigger] old_gaps[j]
                                ).range_spec().spec_contains(d);
                            assert(gaps@[j].range_spec().spec_contains(d));
                        } else if d < n as int {
                            assert(gaps@[gaps@.len() - 1].range_spec().spec_contains(d));
                        } else {
                            assert(present(existing_dates@, d));
                        }
                    }
                }
            },
            _ => {},
        }
        n = n + 1;
    }

    if let Some(g) = gap_start {
        let ghost old_gaps = gaps@;
        let gap_range = match DateRange::new(Day::from_num(g), expected_range.end()) {
            Ok(r) => r,
            Err(_) => {
                proof {
                    assert(false);
                }
                DateRange::single_day(Day::from_num(g))
            },
        };
        gaps.push(DataGap::new(symbol.to_owned(), gap_range));
        proof {
            assert(gaps@ =~= old_gaps.push(gaps@[gaps@.len() - 1]));
            assert forall|d: int|
                expected_range.start_spec()@ <= d <= expected_range.end_spec()@ && !(
                #[trigger] present(existing_dates@, d)) implies gap_covers(gaps@, d) by {
                if d < g as int {
                    assert(gap_covers(old_gaps, d));
                    let j = choose|j: int|
                        0 <= j < old_gaps.len() && (#[trigger] old_gaps[j]
                        ).range_spec().spec_contains(d);
                    assert(gaps@[j].range_spec().spec_contains(d));
                } else {
                    assert(gaps@[gaps@.len() - 1].range_spec().spec_contains(d));
                }
            }
        }
    }

    gaps
}

} // verus!
