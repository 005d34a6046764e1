//! Gap detection against the tick archive's file index.
//!
//! The archive names its files `<symbol>_YYYYMMDD_HH.parquet`; a date
//! counts as present exactly when at least one such file for it holds
//! at least one row. The detector here works on an in-memory index of
//! (file name, row count) pairs; reading that index off a disk is the
//! caller's concern.

use vstd::prelude::*;
use vstd::string::StrSliceExecFns;
use crate::data_gap;
use crate::data_gap::DataGap;
use crate::data_gap::present;
use crate::date_range::DateRange;
use crate::date_range::Day;
use crate::date_range::valid_ymd;
use crate::date_range::epoch_day_of;
use crate::historical_data::GapDetectionError;
use crate::text::all_digits;
use crate::text::digits_val;
use crate::text::str_eq;
use crate::text::parse_digits;

verus! {

/// One file of the archive index: its name and its row count.
pub struct ArchiveFile {
    pub name: String,
    pub rows: u64,
}

pub struct ArchiveFileView {
    pub name: Seq<char>,
    pub rows: u64,
}

impl DeepView for ArchiveFile {
    type V = ArchiveFileView;

    open spec fn deep_view(&self) -> ArchiveFileView {
        ArchiveFileView { name: self.name@, rows: self.rows }
    }
}

/// The day number named by an archive file name of the form
/// `<symbol>_YYYYMMDD_HH.parquet` (the hour part free of underscores),
/// or `None` for any other name.
pub open spec fn archive_day_of(name: Seq<char>, symbol: Seq<char>) -> Option<int> {
    let sl = symbol.len() as int;
    let n = name.len() as int;
    if n < sl + 19 {
        None
    } else if name.subrange(0, sl) != symbol {
        None
    } else if exists|k: int| 0 <= k < sl && symbol[k] == '_' {
        None
    } else if name[sl] != '_' {
        None
    } else if !all_digits(name.subrange(sl + 1, sl + 9)) {
        None
    } else if name[sl + 9] != '_' {
        None
    } else if exists|k: int| sl + 10 <= k < n - 8 && name[k] == '_' {
        None
    } else if name.subrange(n - 8, n) != ".parquet"@ {
        None
    } else {
        let y = digits_val(name.subrange(sl + 1, sl + 5));
        let m = digits_val(name.subrange(sl + 5, sl + 7));
        let d = digits_val(name.subrange(sl + 7, sl + 9));
        if valid_ymd(y, m, d) {
            Some(epoch_day_of(y, m, d))
        } else {
            None
        }
    }
}

/// Whether the index holds data for day number `d` of the symbol: some
/// file named for that day with at least one row.
pub open spec fn archive_present(files: Seq<ArchiveFileView>, symbol: Seq<char>, d: int) -> bool {
    exists|i: int|
        0 <= i < files.len() && (#[trigger] files[i]).rows >= 1 && archive_day_of(
            files[i].name,
            symbol,
        ) == Some(d)
}

fn scan_no_underscore(s: &str, from: usize, to: usize) -> (r: bool)
    requires
        from <= to <= s@.len(),
    ensures
        r == !(exists|k: int| from <= k < to && s@[k] == '_'),
{
    let mut k: usize = from;
    while k < to
        invariant
            from <= k <= to <= s@.len(),
            forall|j: int| from <= j < k ==> s@[j] != '_',
        decreases to - k,
    {
        if s.get_char(k) == '_' {
            return false;
        }
        k = k + 1;
    }
    true
}

/// Parse an archive file name against the naming convention; the day
/// it names, or `None` on any deviation.
pub fn parse_archive_filename(name: &str, symbol: &str) -> (r: Option<Day>)
    ensures
        match r {
            Some(d) => archive_day_of(name@, symbol@) == Some(d@) && d.wf(),
            None => archive_day_of(name@, symbol@) is None,
        },
{
    let sl = symbol.unicode_len();
    let n = name.unicode_len();
    if n < 19 || sl > n - 19 {
        return None;
    }
    if !str_eq(name.substring_char(0, sl), symbol) {
        return None;
    }
    if !scan_no_underscore(symbol, 0, sl) {
        return None;
    }
    if name.get_char(sl) != '_' {
        return None;
    }
    let y = match parse_digits(name, sl + 1, sl + 5) {
        Some(v) => v,
        None => {
            proof {
                let date8 = name@.subrange(sl as int + 1, sl as int + 9);
                assert forall|k: int| 0 <= k < 4 implies date8[k] == name@.subrange(
                    sl as int + 1,
                    sl as int + 5,
                )[k] by {}
                assert(!all_digits(date8)) by {
                    if all_digits(date8) {
                        assert forall|k: int|
                            0 <= k < 4 implies crate::text::is_digit(
                            #[trigger] name@.subrange(sl as int + 1, sl as int + 5)[k],
                        ) by {
                            assert(name@.subrange(sl as int + 1, sl as int + 5)[k] == date8[k]);
                        }
                    }
                }
            }
            return None;
        },
    };
    let m = match parse_digits(name, sl + 5, sl + 7) {
        Some(v) => v,
        None => {
            proof {
                let date8 = name@.subrange(sl as int + 1, sl as int + 9);
                assert(!all_digits(date8)) by {
                    if all_digits(date8) {
                        assert forall|k: int|
                            0 <= k < 2 implies crate::text::is_digit(
                            #[trigger] name@.subrange(sl as int + 5, sl as int + 7)[k],
                        ) by {
                            assert(name@.subrange(sl as int + 5, sl as int + 7)[k] == date8[k + 4]);
                        }
                    }
                }
            }
            return None;
        },
    };
    let d = match parse_digits(name, sl + 7, sl + 9) {
        Some(v) => v,
        None => {
            proof {
                let date8 = name@.subrange(sl as int + 1, sl as int + 9);
                assert(!all_digits(date8)) by {
                    if all_digits(date8) {
                        assert forall|k: int|
                            0 <= k < 2 implies crate::text::is_digit(
                            #[trigger] name@.subrange(sl as int + 7, sl as int + 9)[k],
                        ) by {
                            assert(name@.subrange(sl as int + 7, sl as int + 9)[k] == date8[k + 6]);
                        }
                    }
                }
            }
            return None;
        },
    };
    proof {
        let date8 = name@.subrange(sl as int + 1, sl as int + 9);
        assert forall|k: int| 0 <= k < 8 implies crate::text::is_digit(#[trigger] date8[k]) by {
            if k < 4 {
                assert(date8[k] == name@.subrange(sl as int + 1, sl as int + 5)[k]);
            } else if k < 6 {
                assert(date8[k] == name@.subrange(sl as int + 5, sl as int + 7)[k - 4]);
            } else {
                assert(date8[k] == name@.subrange(sl as int + 7, sl as int + 9)[k - 6]);
            }
        }
        assert(date8.subrange(0, 4) =~= name@.subrange(sl as int + 1, sl as int + 5));
        assert(date8.subrange(4, 6) =~= name@.subrange(sl as int + 5, sl as int + 7));
        assert(date8.subrange(6, 8) =~= name@.subrange(sl as int + 7, sl as int + 9));
    }
    if name.get_char(sl + 9) != '_' {
        return None;
    }
    if !scan_no_underscore(name, sl + 10, n - 8) {
        return None;
    }
    if !str_eq(name.substring_char(n - 8, n), ".parquet") {
        return None;
    }
    proof {
        crate::text::lemma_digits_val_bound(name@.subrange(sl as int + 1, sl as int + 5));
        crate::text::lemma_digits_val_bound(name@.subrange(sl as int + 5, sl as int + 7));
        crate::text::lemma_digits_val_bound(name@.subrange(sl as int + 7, sl as int + 9));
        reveal_with_fuel(crate::text::pow10, 6);
    }
    Day::from_ymd(y as i32, m, d)
}

/// The days the archive holds data for: one entry per qualifying file.
/// Membership in the result is exactly archive presence.
pub fn archive_existing_dates(symbol: &str, files: &Vec<ArchiveFile>) -> (r: Vec<Day>)
    ensures
        forall|d: int| present(r@, d) == archive_present(files.deep_view(), symbol@, d),
        forall|i: int| 0 <= i < r@.len() ==> (#[trigger] r@[i]).wf(),
{
    let mut r: Vec<Day> = Vec::new();
    let mut i: usize = 0;
    while i < files.len()
        invariant
            0 <= i <= files@.len(),
            forall|d: int|
                present(r@, d) == archive_present(
                    files.deep_view().take(i as int),
                    symbol@,
                    d,
                ),
            forall|k: int| 0 <= k < r@.len() ==> (#[trigger] r@[k]).wf(),
        decreases files@.len() - i,
    {
        let ghost pre = r@;
        let parsed = parse_archive_filename(files[i].name.as_str(), symbol);
        match parsed {
            Some(day) => {
                if files[i].rows >= 1 {
                    r.push(day);
                }
            },
            None => {},
        }
        proof {
            let fv = files.deep_view();
            assert(fv.take(i as int + 1) =~= fv.take(i as int).push(fv[i as int]));
            assert(fv[i as int].name == files@[i as int].name@);
            assert forall|d: int| present(r@, d) == archive_present(
                fv.take(i as int + 1),
                symbol@,
                d,
            ) by {
                if present(r@, d) {
                    let k = choose|k: int| 0 <= k < r@.len() && (#[trigger] r@[k])@ == d;
                    if k < pre.len() {
                        assert(present(pre, d));
                        let j = choose|j: int|
                            0 <= j < fv.take(i as int).len() && (#[trigger] fv.take(i as int)[j]).rows
                                >= 1 && archive_day_of(fv.take(i as int)[j].name, symbol@) == Some(
                                d,
                            );
                        assert(fv.take(i as int + 1)[j] == fv.take(i as int)[j]);
                        assert(archive_present(fv.take(i as int + 1), symbol@, d));
                    } else {
                        assert(fv.take(i as int + 1)[i as int] == fv[i as int]);
                        assert(archive_present(fv.take(i as int + 1), symbol@, d));
                    }
                }
                if archive_present(fv.take(i as int + 1), symbol@, d) {
                    let j = choose|j: int|
                        0 <= j < fv.take(i as int + 1).len() && (#[trigger] fv.take(
                            i as int + 1,
                        )[j]).rows >= 1 && archive_day_of(fv.take(i as int + 1)[j].name, symbol@)
                            == Some(d);
                    if j < i as int {
                        assert(fv.take(i as int)[j] == fv.take(i as int + 1)[j]);
                        assert(archive_present(fv.take(i as int), symbol@, d));
                        assert(present(pre, d));
                        let k = choose|k: int| 0 <= k < pre.len() && (#[trigger] pre[k])@ == d;
                        assert(r@[k]@ == d);
                    } else {
                        assert(r@[r@.len() - 1]@ == d);
                    }
                }
            }
        }
        i = i + 1;
    }
    proof {
        assert(files.deep_view().take(i as int) =~= files.deep_view());
    }
    r
}

/// Everything that holds of each detected archive gap: it lies inside
/// the expected range, covers only days absent from the archive, and
/// is maximal (bounded by a present day or by the range's edge).
pub open spec fn archive_gap_sound(
    g: DateRange,
    symbol: Seq<char>,
    range: DateRange,
    files: Seq<ArchiveFileView>,
) -> bool {
    &&& g.wf()
    &&& range.start_spec()@ <= g.start_spec()@
    &&& g.end_spec()@ <= range.end_spec()@
    &&& forall|d: int|
        g.start_spec()@ <= d <= g.end_spec()@ ==> !archive_present(files, symbol, d)
    &&& (g.start_spec()@ == range.start_spec()@ || archive_present(
        files,
        symbol,
        g.start_spec()@ - 1,
    ))
    &&& (g.end_spec()@ == range.end_spec()@ || archive_present(files, symbol, g.end_spec()@ + 1))
}

/// Whether the gaps cover every day of the range absent from the
/// archive.
pub open spec fn archive_gaps_complete(
    gaps: Seq<DateRange>,
    symbol: Seq<char>,
    range: DateRange,
    files: Seq<ArchiveFileView>,
) -> bool {
    forall|d: int|
        range.start_spec()@ <= d <= range.end_spec()@ && !archive_present(files, symbol, d)
            ==> exists|j: int| 0 <= j < gaps.len() && (#[trigger] gaps[j]).spec_contains(d)
}

/// Gap detection over the archive index: the returned ranges are the
/// maximal runs of days inside `range` for which the archive holds no
/// data, in chronological order.
pub struct ArchiveGapDetector {
    files: Vec<ArchiveFile>,
}

impl ArchiveGapDetector {
    pub fn new(files: Vec<ArchiveFile>) -> (r: ArchiveGapDetector)
        ensures
            r.files_spec() == files.deep_view(),
    {
        ArchiveGapDetector { files }
    }

    pub closed spec fn files_spec(&self) -> Seq<ArchiveFileView> {
        self.files.deep_view()
    }

    /// Detect the missing-day intervals of `range` for `symbol`:
    /// exactly the maximal absent runs over the archive's present set,
    /// in chronological order.
    pub fn detect_gaps(&self, symbol: &str, range: DateRange) -> (r: Result<
        Vec<DateRange>,
        GapDetectionError,
    >)
        requires
            range.wf(),
        ensures
            r matches Ok(gaps) ==> forall|j: int|
                0 <= j < gaps@.len() ==> archive_gap_sound(
                    #[trigger] gaps@[j],
                    symbol@,
                    range,
                    self.files_spec(),
                ),
            r matches Ok(gaps) ==> forall|j: int|
                0 <= j < gaps@.len() - 1 ==> (#[trigger] gaps@[j]).end_spec()@ + 1
                    < gaps@[j + 1].start_spec()@,
            r matches Ok(gaps) ==> archive_gaps_complete(
                gaps@,
                symbol@,
                range,
                self.files_spec(),
            ),
            r is Ok,
    {
        let existing = archive_existing_dates(symbol, &self.files);
        let detected: Vec<DataGap> = data_gap::detect_gaps(symbol, range, &existing);
        let mut out: Vec<DateRange> = Vec::new();
        let mut i: usize = 0;
        while i < detected.len()
            invariant
                0 <= i <= detected@.len(),
                out@.len() == i,
                forall|k: int| 0 <= k < i ==> (#[trigger] out@[k]) == detected@[k].range_spec(),
            decreases detected@.len() - i,
        {
            out.push(*detected[i].range());
            i = i + 1;
        }
        proof {
            assert forall|j: int| 0 <= j < out@.len() implies archive_gap_sound(
                #[trigger] out@[j],
                symbol@,
                range,
                self.files_spec(),
            ) by {
                assert(data_gap::gap_sound(detected@[j], symbol@, range, existing@));
                assert forall|d: int|
                    out@[j].start_spec()@ <= d <= out@[j].end_spec()@ implies !archive_present(
                    self.files_spec(),
                    symbol@,
                    d,
                ) by {
                    assert(!present(existing@, d));
                }
            }
            assert forall|d: int|
                range.start_spec()@ <= d <= range.end_spec()@ && !archive_present(
                    self.files_spec(),
                    symbol@,
                    d,
                ) implies exists|j: int|
                0 <= j < out@.len() && (#[trigger] out@[j]).spec_contains(d) by {
                assert(!present(existing@, d));
                assert(data_gap::gap_covers(detected@, d));
                let j = choose|j: int|
                    0 <= j < detected@.len() && (#[trigger] detected@[j]
                    ).range_spec().spec_contains(d);
                assert(out@[j].spec_contains(d));
            }
            assert(archive_gaps_complete(out@, symbol@, range, self.files_spec()));
        }
        Ok(out)
    }
}

} // verus!
