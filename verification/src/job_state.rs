//! The durable per-job record and its store.
//!
//! A job record is keyed by a job key string and carries a fencing
//! token (`job_instance_id`): every fenced mutation first compares the
//! stored token with the caller's and fails with `StaleInstance` on a
//! mismatch, with `NotFound` when the record is absent. The store trait
//! states this protocol; `InMemoryJobStateRepository` implements it
//! with the compare-and-set done under exclusive access.

use vstd::prelude::*;
use vstd::pervasive::VecAdditionalExecFns;
use crate::date_range::day_in_range;
use crate::text::str_eq;

verus! {

pub type JobInstanceId = String;

#[derive(Clone, Copy, PartialEq, Eq, Structural, Debug)]
pub enum JobStatus {
    Pending,
    Running,
    Completed,
    Failed,
}

pub open spec fn status_str(s: JobStatus) -> Seq<char> {
    match s {
        JobStatus::Pending => "PENDING"@,
        JobStatus::Running => "RUNNING"@,
        JobStatus::Completed => "COMPLETED"@,
        JobStatus::Failed => "FAILED"@,
    }
}

pub open spec fn status_from_str_spec(s: Seq<char>) -> Option<JobStatus> {
    if s == "PENDING"@ {
        Some(JobStatus::Pending)
    } else if s == "RUNNING"@ {
        Some(JobStatus::Running)
    } else if s == "COMPLETED"@ {
        Some(JobStatus::Completed)
    } else if s == "FAILED"@ {
        Some(JobStatus::Failed)
    } else {
        None
    }
}

impl JobStatus {
    pub fn as_str(&self) -> (r: &'static str)
        ensures
            r@ == status_str(*self),
    {
        match self {
            JobStatus::Pending => "PENDING",
            JobStatus::Running => "RUNNING",
            JobStatus::Completed => "COMPLETED",
            JobStatus::Failed => "FAILED",
        }
    }

    pub fn from_str(value: &str) -> (r: Option<JobStatus>)
        ensures
            r == status_from_str_spec(value@),
    {
        if str_eq(value, "PENDING") {
            Some(JobStatus::Pending)
        } else if str_eq(value, "RUNNING") {
            Some(JobStatus::Running)
        } else if str_eq(value, "COMPLETED") {
            Some(JobStatus::Completed)
        } else if str_eq(value, "FAILED") {
            Some(JobStatus::Failed)
        } else {
            None
        }
    }
}

/// Parsing a rendered status yields the status back.
pub proof fn lemma_status_str_roundtrip(s: JobStatus)
    ensures
        status_from_str_spec(status_str(s)) == Some(s),
{
    reveal_strlit("PENDING");
    reveal_strlit("RUNNING");
    reveal_strlit("COMPLETED");
    reveal_strlit("FAILED");
    assert("RUNNING"@[0] == 'R' && "PENDING"@[0] == 'P');
    assert("COMPLETED"@.len() == 9 && "PENDING"@.len() == 7 && "RUNNING"@.len() == 7
        && "FAILED"@.len() == 6);
}

/// Reserved annotation attached to a job record.
#[derive(Clone, Debug)]
pub struct CriticalRange {
    pub start: String,
    pub end: String,
}

pub struct CriticalRangeView {
    pub start: Seq<char>,
    pub end: Seq<char>,
}

impl DeepView for CriticalRange {
    type V = CriticalRangeView;

    open spec fn deep_view(&self) -> CriticalRangeView {
        CriticalRangeView { start: self.start@, end: self.end@ }
    }
}

impl CriticalRange {
    pub fn duplicate(&self) -> (r: CriticalRange)
        ensures
            r.deep_view() == self.deep_view(),
    {
        CriticalRange { start: self.start.clone(), end: self.end.clone() }
    }
}

/// The mathematical content of a job record.
pub struct JobStateView {
    pub status: JobStatus,
    pub job_instance_id: Seq<char>,
    pub cursor: int,
    pub end_time: int,
    pub heartbeat_at: int,
    pub critical_ranges: Seq<CriticalRangeView>,
    pub last_error_type: Option<Seq<char>>,
}

/// The durable record of one backfill job.
#[derive(Debug)]
pub struct JobState {
    pub status: JobStatus,
    pub job_instance_id: JobInstanceId,
    pub cursor: i64,
    pub end_time: i64,
    pub heartbeat_at: i64,
    pub critical_ranges: Vec<CriticalRange>,
    pub last_error_type: Option<String>,
}

impl View for JobState {
    type V = JobStateView;

    open spec fn view(&self) -> JobStateView {
        JobStateView {
            status: self.status,
            job_instance_id: self.job_instance_id@,
            cursor: self.cursor as int,
            end_time: self.end_time as int,
            heartbeat_at: self.heartbeat_at as int,
            critical_ranges: self.critical_ranges.deep_view(),
            last_error_type: self.last_error_type.deep_view(),
        }
    }
}

fn duplicate_critical_ranges(v: &Vec<CriticalRange>) -> (r: Vec<CriticalRange>)
    ensures
        r.deep_view() == v.deep_view(),
{
    let mut r: Vec<CriticalRange> = Vec::new();
    let mut i: usize = 0;
    while i < v.len()
        invariant
            0 <= i <= v@.len(),
            r@.len() == i,
            forall|k: int| 0 <= k < i ==> (#[trigger] r@[k]).deep_view() == v@[k].deep_view(),
        decreases v@.len() - i,
    {
        r.push(v[i].duplicate());
        i = i + 1;
    }
    proof {
        assert(r.deep_view() =~= v.deep_view());
    }
    r
}

impl JobState {
    pub fn new(
        job_instance_id: JobInstanceId,
        status: JobStatus,
        cursor: i64,
        end_time: i64,
        heartbeat_at: i64,
    ) -> (r: JobState)
        ensures
            r@ == (JobStateView {
                status,
                job_instance_id: job_instance_id@,
                cursor: cursor as int,
                end_time: end_time as int,
                heartbeat_at: heartbeat_at as int,
                critical_ranges: Seq::empty(),
                last_error_type: None,
            }),
    {
        let r = JobState {
            status,
            job_instance_id,
            cursor,
            end_time,
            heartbeat_at,
            critical_ranges: Vec::new(),
            last_error_type: None,
        };
        proof {
            assert(r@.critical_ranges =~= Seq::<CriticalRangeView>::empty());
        }
        r
    }

    /// A field-for-field copy of this record.
    pub fn duplicate(&self) -> (r: JobState)
        ensures
            r@ == self@,
    {
        JobState {
            status: self.status,
            job_instance_id: self.job_instance_id.clone(),
            cursor: self.cursor,
            end_time: self.end_time,
            heartbeat_at: self.heartbeat_at,
            critical_ranges: duplicate_critical_ranges(&self.critical_ranges),
            last_error_type: match &self.last_error_type {
                Some(s) => Some(s.clone()),
                None => None,
            },
        }
    }
}

#[derive(Debug)]
pub enum JobStateError {
    NotFound(String),
    StaleInstance(String),
    Backend(String),
}

/// Whether a fenced mutation presenting `id` may touch `key` in store
/// contents `m`.
pub open spec fn fenced_ok(m: Map<Seq<char>, JobStateView>, key: Seq<char>, id: Seq<char>) -> bool {
    m.contains_key(key) && m[key].job_instance_id == id
}

/// Everything a fenced mutation guarantees: it succeeds only under a
/// matching fencing token and then applies exactly the given update; it
/// never touches the store otherwise; a mismatching token never
/// succeeds; and with a healthy backend the outcome is fully determined.
pub open spec fn fenced_post(
    m0: Map<Seq<char>, JobStateView>,
    m1: Map<Seq<char>, JobStateView>,
    key: Seq<char>,
    id: Seq<char>,
    updated: JobStateView,
    r: Result<(), JobStateError>,
    backend_ok: bool,
) -> bool {
    &&& (r is Ok ==> fenced_ok(m0, key, id) && m1 == m0.insert(key, updated))
    &&& (!(r is Ok) ==> m1 == m0)
    &&& (m0.contains_key(key) && m0[key].job_instance_id != id ==> !(r is Ok))
    &&& (r matches Err(JobStateError::StaleInstance(k)) ==> m0.contains_key(key)
        && m0[key].job_instance_id != id && k@ == key)
    &&& (r matches Err(JobStateError::NotFound(k)) ==> !m0.contains_key(key) && k@ == key)
    &&& (backend_ok ==> {
        &&& !(r matches Err(JobStateError::Backend(_)))
        &&& (fenced_ok(m0, key, id) ==> r is Ok)
        &&& (!m0.contains_key(key) ==> (r matches Err(JobStateError::NotFound(_))))
        &&& (m0.contains_key(key) && m0[key].job_instance_id != id ==> (r matches Err(
            JobStateError::StaleInstance(_),
        )))
    })
}

/// Fencing law: once an `upsert` has stored a record carrying instance
/// id I', no fenced operation presenting an id other than I' can pass
/// the fencing check on that key.
pub proof fn lemma_fencing_after_upsert(
    m: Map<Seq<char>, JobStateView>,
    key: Seq<char>,
    st: JobStateView,
    other_id: Seq<char>,
)
    requires
        st.job_instance_id != other_id,
    ensures
        !fenced_ok(m.insert(key, st), key, other_id),
{
}

/// The store of job records. All fenced mutations are atomic: they
/// either apply the whole update under a matching token or leave the
/// store untouched.
pub trait JobStateRepository: Sized {
    spec fn sview(&self) -> Map<Seq<char>, JobStateView>;

    spec fn inv(&self) -> bool;

    /// Whether the backing store is healthy: a healthy store never
    /// fails with `Backend` and owes the protocol outcome.
    spec fn backend_ok(&self) -> bool;

    /// Read the full record, or `None` if absent.
    fn get(&self, job_key: &str) -> (r: Result<Option<JobState>, JobStateError>)
        requires
            self.inv(),
        ensures
            r matches Ok(opt) ==> ((opt matches Some(s)) <==> self.sview().contains_key(
                job_key@,
            )),
            r matches Ok(Some(s)) ==> s@ == self.sview()[job_key@],
            self.backend_ok() ==> r is Ok,
    ;

    /// Unconditional write of the entire record (lease acquisition and
    /// takeover).
    fn upsert(&mut self, job_key: &str, state: &JobState) -> (r: Result<(), JobStateError>)
        requires
            old(self).inv(),
        ensures
            final(self).inv(),
            final(self).backend_ok() == old(self).backend_ok(),
            r is Ok ==> final(self).sview() == old(self).sview().insert(job_key@, state@),
            !(r is Ok) ==> final(self).sview() == old(self).sview(),
            old(self).backend_ok() ==> r is Ok,
    ;

    /// Fenced set of the cursor.
    fn update_cursor(&mut self, job_key: &str, job_instance_id: &JobInstanceId, cursor: i64) -> (r:
        Result<(), JobStateError>)
        requires
            old(self).inv(),
        ensures
            final(self).inv(),
            final(self).backend_ok() == old(self).backend_ok(),
            fenced_post(
                old(self).sview(),
                final(self).sview(),
                job_key@,
                job_instance_id@,
                (JobStateView { cursor: cursor as int, ..old(self).sview()[job_key@] }),
                r,
                old(self).backend_ok(),
            ),
    ;

    /// Fenced set of the status.
    fn update_status(&mut self, job_key: &str, job_instance_id: &JobInstanceId, status: JobStatus)
        -> (r: Result<(), JobStateError>)
        requires
            old(self).inv(),
        ensures
            final(self).inv(),
            final(self).backend_ok() == old(self).backend_ok(),
            fenced_post(
                old(self).sview(),
                final(self).sview(),
                job_key@,
                job_instance_id@,
                (JobStateView { status, ..old(self).sview()[job_key@] }),
                r,
                old(self).backend_ok(),
            ),
    ;

    /// Fenced set of the heartbeat timestamp (ms since epoch).
    fn heartbeat(&mut self, job_key: &str, job_instance_id: &JobInstanceId, heartbeat_at: i64) -> (
        r: Result<(), JobStateError>)
        requires
            old(self).inv(),
        ensures
            final(self).inv(),
            final(self).backend_ok() == old(self).backend_ok(),
            fenced_post(
                old(self).sview(),
                final(self).sview(),
                job_key@,
                job_instance_id@,
                (JobStateView {
                    heartbeat_at: heartbeat_at as int,
                    ..old(self).sview()[job_key@]
                }),
                r,
                old(self).backend_ok(),
            ),
    ;

    /// Fenced set of the last error diagnostic.
    fn save_error(&mut self, job_key: &str, job_instance_id: &JobInstanceId, message: &str) -> (r:
        Result<(), JobStateError>)
        requires
            old(self).inv(),
        ensures
            final(self).inv(),
            final(self).backend_ok() == old(self).backend_ok(),
            fenced_post(
                old(self).sview(),
                final(self).sview(),
                job_key@,
                job_instance_id@,
                (JobStateView {
                    last_error_type: Some(message@),
                    ..old(self).sview()[job_key@]
                }),
                r,
                old(self).backend_ok(),
            ),
    ;
}

pub open spec fn keys_unique(s: Seq<(String, JobState)>) -> bool {
    forall|i: int, j: int|
        0 <= i < j < s.len() ==> (#[trigger] s[i]).0@ != (#[trigger] s[j]).0@
}

pub closed spec fn map_of(s: Seq<(String, JobState)>) -> Map<Seq<char>, JobStateView>
    decreases s.len(),
{
    if s.len() == 0 {
        Map::empty()
    } else {
        map_of(s.drop_last()).insert(s.last().0@, s.last().1@)
    }
}

proof fn lemma_map_of_absent(s: Seq<(String, JobState)>, key: Seq<char>)
    requires
        forall|i: int| 0 <= i < s.len() ==> (#[trigger] s[i]).0@ != key,
    ensures
        !map_of(s).contains_key(key),
    decreases s.len(),
{
    if s.len() > 0 {
        lemma_map_of_absent(s.drop_last(), key);
    }
}

proof fn lemma_map_of_lookup(s: Seq<(String, JobState)>, i: int)
    requires
        keys_unique(s),
        0 <= i < s.len(),
    ensures
        map_of(s).contains_key(s[i].0@),
        map_of(s)[s[i].0@] == s[i].1@,
    decreases s.len(),
{
    if i == s.len() - 1 {
    } else {
        assert(keys_unique(s.drop_last()));
        lemma_map_of_lookup(s.drop_last(), i);
        assert(s.last().0@ != s[i].0@);
    }
}

proof fn lemma_map_of_push(s: Seq<(String, JobState)>, p: (String, JobState))
    ensures
        map_of(s.push(p)) == map_of(s).insert(p.0@, p.1@),
{
    assert(s.push(p).drop_last() =~= s);
    assert(s.push(p).last() == p);
}

proof fn lemma_map_of_update(s: Seq<(String, JobState)>, i: int, p: (String, JobState))
    requires
        keys_unique(s),
        0 <= i < s.len(),
        p.0@ == s[i].0@,
    ensures
        map_of(s.update(i, p)) == map_of(s).insert(p.0@, p.1@),
    decreases s.len(),
{
    let su = s.update(i, p);
    if i == s.len() - 1 {
        assert(su.drop_last() =~= s.drop_last());
        assert(su.last() == p);
        assert(map_of(su) == map_of(s.drop_last()).insert(p.0@, p.1@));
        assert(map_of(s).insert(p.0@, p.1@) =~= map_of(s.drop_last()).insert(p.0@, p.1@));
    } else {
        assert(keys_unique(s.drop_last()));
        assert(su.drop_last() =~= s.drop_last().update(i, p));
        lemma_map_of_update(s.drop_last(), i, p);
        assert(su.last() == s.last());
        assert(s.last().0@ != p.0@);
        assert(map_of(su) == map_of(s.drop_last()).insert(p.0@, p.1@).insert(
            s.last().0@,
            s.last().1@,
        ));
        assert(map_of(s.drop_last()).insert(p.0@, p.1@).insert(s.last().0@, s.last().1@)
            =~= map_of(s.drop_last()).insert(s.last().0@, s.last().1@).insert(p.0@, p.1@));
    }
}

/// A job-state store held in process memory: the reference
/// implementation of the fencing protocol, with the read-compare-write
/// done under exclusive access (`&mut self`).
pub struct InMemoryJobStateRepository {
    entries: Vec<(String, JobState)>,
}

impl InMemoryJobStateRepository {
    pub fn new() -> (r: InMemoryJobStateRepository)
        ensures
            r.sview() == Map::<Seq<char>, JobStateView>::empty(),
            r.inv(),
            r.backend_ok(),
    {
        InMemoryJobStateRepository { entries: Vec::new() }
    }

    fn find_index(&self, job_key: &str) -> (r: Option<usize>)
        ensures
            r matches Some(i) ==> i < self.entries@.len() && self.entries@[i as int].0@
                == job_key@,
            r is None ==> forall|i: int|
                0 <= i < self.entries@.len() ==> (#[trigger] self.entries@[i]).0@ != job_key@,
    {
        let mut i: usize = 0;
        while i < self.entries.len()
            invariant
                0 <= i <= self.entries@.len(),
                forall|k: int| 0 <= k < i ==> (#[trigger] self.entries@[k]).0@ != job_key@,
            decreases self.entries@.len() - i,
        {
            if str_eq(self.entries[i].0.as_str(), job_key) {
                return Some(i);
            }
            i = i + 1;
        }
        None
    }
}

impl JobStateRepository for InMemoryJobStateRepository {
    closed spec fn sview(&self) -> Map<Seq<char>, JobStateView> {
        map_of(self.entries@)
    }

    closed spec fn inv(&self) -> bool {
        keys_unique(self.entries@)
    }

    open spec fn backend_ok(&self) -> bool {
        true
    }

    fn get(&self, job_key: &str) -> (r: Result<Option<JobState>, JobStateError>) {
        match self.find_index(job_key) {
            Some(i) => {
                proof {
                    lemma_map_of_lookup(self.entries@, i as int);
                }
                Ok(Some(self.entries[i].1.duplicate()))
            },
            None => {
                proof {
                    lemma_map_of_absent(self.entries@, job_key@);
                }
                Ok(None)
            },
        }
    }

    fn upsert(&mut self, job_key: &str, state: &JobState) -> (r: Result<(), JobStateError>) {
        let ghost s0 = self.entries@;
        match self.find_index(job_key) {
            Some(i) => {
                let p = (job_key.to_owned(), state.duplicate());
                proof {
                    lemma_map_of_update(s0, i as int, p);
                }
                self.entries.set(i, p);
                proof {
                    assert forall|a: int, b: int|
                        0 <= a < b < self.entries@.len() implies (#[trigger] self.entries@[a]).0@
                        != (#[trigger] self.entries@[b]).0@ by {
                        assert(s0[a].0@ != s0[b].0@);
                    }
                }
                Ok(())
            },
            None => {
                let p = (job_key.to_owned(), state.duplicate());
                proof {
                    lemma_map_of_push(s0, p);
                }
                self.entries.push(p);
                proof {
                    assert forall|a: int, b: int|
                        0 <= a < b < self.entries@.len() implies (#[trigger] self.entries@[a]).0@
                        != (#[trigger] self.entries@[b]).0@ by {
                        if b < s0.len() {
                            assert(s0[a].0@ != s0[b].0@);
                        } else {
                            assert(s0[a].0@ != job_key@);
                        }
                    }
                }
                Ok(())
            },
        }
    }

    fn update_cursor(&mut self, job_key: &str, job_instance_id: &JobInstanceId, cursor: i64) -> (r:
        Result<(), JobStateError>) {
        let ghost s0 = self.entries@;
        match self.find_index(job_key) {
            None => {
                proof {
                    lemma_map_of_absent(s0, job_key@);
                }
                Err(JobStateError::NotFound(job_key.to_owned()))
            },
            Some(i) => {
                proof {
                    lemma_map_of_lookup(s0, i as int);
                }
                if !str_eq(self.entries[i].1.job_instance_id.as_str(), job_instance_id.as_str()) {
                    return Err(JobStateError::StaleInstance(job_key.to_owned()));
                }
                let mut st = self.entries[i].1.duplicate();
                st.cursor = cursor;
                let p = (job_key.to_owned(), st);
                proof {
                    lemma_map_of_update(s0, i as int, p);
                }
                self.entries.set(i, p);
                proof {
                    assert forall|a: int, b: int|
                        0 <= a < b < self.entries@.len() implies (#[trigger] self.entries@[a]).0@
                        != (#[trigger] self.entries@[b]).0@ by {
                        assert(s0[a].0@ != s0[b].0@);
                    }
                }
                Ok(())
            },
        }
    }

    fn update_status(&mut self, job_key: &str, job_instance_id: &JobInstanceId, status: JobStatus)
        -> (r: Result<(), JobStateError>) {
        let ghost s0 = self.entries@;
        match self.find_index(job_key) {
            None => {
                proof {
                    lemma_map_of_absent(s0, job_key@);
                }
                Err(JobStateError::NotFound(job_key.to_owned()))
            },
            Some(i) => {
                proof {
                    lemma_map_of_lookup(s0, i as int);
                }
                if !str_eq(self.entries[i].1.job_instance_id.as_str(), job_instance_id.as_str()) {
                    return Err(JobStateError::StaleInstance(job_key.to_owned()));
                }
                let mut st = self.entries[i].1.duplicate();
                st.status = status;
                let p = (job_key.to_owned(), st);
                proof {
                    lemma_map_of_update(s0, i as int, p);
                }
                self.entries.set(i, p);
                proof {
                    assert forall|a: int, b: int|
                        0 <= a < b < self.entries@.len() implies (#[trigger] self.entries@[a]).0@
                        != (#[trigger] self.entries@[b]).0@ by {
                        assert(s0[a].0@ != s0[b].0@);
                    }
                }
                Ok(())
            },
        }
    }

    fn heartbeat(&mut self, job_key: &str, job_instance_id: &JobInstanceId, heartbeat_at: i64) -> (
        r: Result<(), JobStateError>) {
        let ghost s0 = self.entries@;
        match self.find_index(job_key) {
            None => {
                proof {
                    lemma_map_of_absent(s0, job_key@);
                }
                Err(JobStateError::NotFound(job_key.to_owned()))
            },
            Some(i) => {
                proof {
                    lemma_map_of_lookup(s0, i as int);
                }
                if !str_eq(self.entries[i].1.job_instance_id.as_str(), job_instance_id.as_str()) {
                    return Err(JobStateError::StaleInstance(job_key.to_owned()));
                }
                let mut st = self.entries[i].1.duplicate();
                st.heartbeat_at = heartbeat_at;
                let p = (job_key.to_owned(), st);
                proof {
                    lemma_map_of_update(s0, i as int, p);
                }
                self.entries.set(i, p);
                proof {
                    assert forall|a: int, b: int|
                        0 <= a < b < self.entries@.len() implies (#[trigger] self.entries@[a]).0@
                        != (#[trigger] self.entries@[b]).0@ by {
                        assert(s0[a].0@ != s0[b].0@);
                    }
                }
                Ok(())
            },
        }
    }

    fn save_error(&mut self, job_key: &str, job_instance_id: &JobInstanceId, message: &str) -> (r:
        Result<(), JobStateError>) {
        let ghost s0 = self.entries@;
        match self.find_index(job_key) {
            None => {
                proof {
                    lemma_map_of_absent(s0, job_key@);
                }
                Err(JobStateError::NotFound(job_key.to_owned()))
            },
            Some(i) => {
                proof {
                    lemma_map_of_lookup(s0, i as int);
                }
                if !str_eq(self.entries[i].1.job_instance_id.as_str(), job_instance_id.as_str()) {
                    return Err(JobStateError::StaleInstance(job_key.to_owned()));
                }
                let mut st = self.entries[i].1.duplicate();
                st.last_error_type = Some(message.to_owned());
                let p = (job_key.to_owned(), st);
                proof {
                    lemma_map_of_update(s0, i as int, p);
                }
                self.entries.set(i, p);
                proof {
                    assert forall|a: int, b: int|
                        0 <= a < b < self.entries@.len() implies (#[trigger] self.entries@[a]).0@
                        != (#[trigger] self.entries@[b]).0@ by {
                        assert(s0[a].0@ != s0[b].0@);
                    }
                }
                Ok(())
            },
        }
    }
}

/// The backward-compatibility rule for a record recovered from the
/// store's legacy whole-record blob: the field-level instance id, when
/// present, stays authoritative and overrides the blob's.
pub fn apply_authoritative_instance_id(state: JobState, job_instance_id: Option<String>) -> (r:
    JobState)
    ensures
        r@ == (JobStateView {
            job_instance_id: match job_instance_id {
                Some(id) => id@,
                None => state@.job_instance_id,
            },
            ..state@
        }),
{
    let mut state = state;
    if let Some(server_id) = job_instance_id {
        state.job_instance_id = server_id;
    }
    state
}

/// Drop an empty diagnostic: a stored empty string means "no error".
pub fn parse_last_error(value: Option<String>) -> (r: Option<String>)
    ensures
        (r matches Some(s)) <==> (value matches Some(v) && v@.len() > 0),
        r matches Some(s) ==> (value matches Some(v) && s@ == v@),
{
    match value {
        Some(raw) => {
            if raw.as_str().is_empty() {
                None
            } else {
                Some(raw)
            }
        },
        None => None,
    }
}

/// Assemble a job record from the store's field-level values. Returns
/// `Ok(None)` when the field-level record is incomplete, fails with
/// `Backend` exactly on an unrecognized status or a heartbeat timestamp
/// whose day lies outside the supported calendar.
pub fn job_state_from_fields(
    status: Option<String>,
    job_instance_id: Option<String>,
    cursor: Option<i64>,
    end_time: Option<i64>,
    heartbeat_at: Option<i64>,
    last_error_type: Option<String>,
) -> (r: Result<Option<JobState>, JobStateError>)
    ensures
        (status is Some && job_instance_id is Some && cursor is Some && end_time is Some
            && heartbeat_at is Some) ==> match r {
            Ok(opt) => {
                &&& status_from_str_spec(status->Some_0@) is Some
                &&& day_in_range(heartbeat_at->Some_0 as int / 86_400_000)
                &&& opt matches Some(st)
                &&& st@ == (JobStateView {
                    status: status_from_str_spec(status->Some_0@)->Some_0,
                    job_instance_id: job_instance_id->Some_0@,
                    cursor: cursor->Some_0 as int,
                    end_time: end_time->Some_0 as int,
                    heartbeat_at: heartbeat_at->Some_0 as int,
                    critical_ranges: Seq::empty(),
                    last_error_type: if last_error_type matches Some(e) && e@.len() > 0 {
                        Some(last_error_type->Some_0@)
                    } else {
                        None
                    },
                })
            },
            Err(e) => {
                &&& e is Backend
                &&& (status_from_str_spec(status->Some_0@) is None || !day_in_range(
                    heartbeat_at->Some_0 as int / 86_400_000,
                ))
            },
        },
        !(status is Some && job_instance_id is Some && cursor is Some && end_time is Some
            && heartbeat_at is Some) ==> r matches Ok(None),
{
    if let (Some(status_raw), Some(instance_id), Some(cursor_v), Some(end_time_v), Some(hb)) = (
        status,
        job_instance_id,
        cursor,
        end_time,
        heartbeat_at,
    ) {
        let parsed_status = match JobStatus::from_str(status_raw.as_str()) {
            Some(s) => s,
            None => {
                return Err(JobStateError::Backend("unrecognized job status".to_owned()));
            },
        };
        if crate::date_range::day_of_timestamp_ms(hb).is_none() {
            return Err(JobStateError::Backend("invalid heartbeat timestamp".to_owned()));
        }
        let mut st = JobState::new(instance_id, parsed_status, cursor_v, end_time_v, hb);
        st.last_error_type = parse_last_error(last_error_type);
        Ok(Some(st))
    } else {
        Ok(None)
    }
}

} // verus!
