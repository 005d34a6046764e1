//! The tick-store port: a durable sink for ordered tick batches.
//!
//! The sink's contract carries its own model: the sequence of batches
//! durably persisted so far and a count of completed shutdowns, so
//! that callers can state exactly what they handed over.

use vstd::prelude::*;
use crate::tick::Tick;
use crate::tick::TickView;

verus! {

pub open spec fn min_int(a: int, b: int) -> int {
    if a < b {
        a
    } else {
        b
    }
}

#[derive(Debug)]
pub enum RepositoryError {
    IoError(String),
    SerializationError(String),
    FileRotationError(String),
}

/// A durable sink of tick batches. The coordinator calls `save_batch`
/// and `shutdown` serially; a healthy sink never fails. A batch counts
/// as persisted only when `save_batch` returns `Ok`.
pub trait TickRepository: Sized {
    /// The batches durably persisted so far, in order.
    spec fn sunk(&self) -> Seq<Seq<TickView>>;

    /// How many shutdowns completed (saturating far beyond any real
    /// count).
    spec fn shutdown_count(&self) -> int;

    spec fn inv(&self) -> bool;

    /// Whether every operation on this sink succeeds.
    spec fn sink_total(&self) -> bool;

    fn save_batch(&mut self, ticks: Vec<Tick>) -> (r: Result<(), RepositoryError>)
        requires
            old(self).inv(),
        ensures
            final(self).inv(),
            final(self).sink_total() == old(self).sink_total(),
            final(self).shutdown_count() == old(self).shutdown_count(),
            r is Ok ==> final(self).sunk() == old(self).sunk().push(ticks.deep_view()),
            !(r is Ok) ==> final(self).sunk() == old(self).sunk(),
            old(self).sink_total() ==> r is Ok,
    ;

    fn flush(&mut self) -> (r: Result<(), RepositoryError>)
        requires
            old(self).inv(),
        ensures
            final(self).inv(),
            final(self).sink_total() == old(self).sink_total(),
            final(self).sunk() == old(self).sunk(),
            final(self).shutdown_count() == old(self).shutdown_count(),
            old(self).sink_total() ==> r is Ok,
    ;

    fn shutdown(&mut self) -> (r: Result<(), RepositoryError>)
        requires
            old(self).inv(),
        ensures
            final(self).inv(),
            final(self).sink_total() == old(self).sink_total(),
            final(self).sunk() == old(self).sunk(),
            r is Ok ==> final(self).shutdown_count() == min_int(
                old(self).shutdown_count() + 1,
                u64::MAX as int,
            ),
            !(r is Ok) ==> final(self).shutdown_count() == old(self).shutdown_count(),
            old(self).sink_total() ==> r is Ok,
    ;
}

/// An in-memory sink that records every saved batch and counts
/// shutdowns, for exercising the coordinator.
pub struct RecordingTickRepository {
    pub saved: Vec<Vec<Tick>>,
    pub shutdowns: u64,
    pub flushes: u64,
}

impl RecordingTickRepository {
    pub fn new() -> (r: RecordingTickRepository)
        ensures
            r.inv(),
            r.sink_total(),
            r.sunk() == Seq::<Seq<TickView>>::empty(),
            r.shutdown_count() == 0,
    {
        let r = RecordingTickRepository { saved: Vec::new(), shutdowns: 0, flushes: 0 };
        proof {
            assert(r.sunk() =~= Seq::<Seq<TickView>>::empty());
        }
        r
    }
}

impl TickRepository for RecordingTickRepository {
    open spec fn sunk(&self) -> Seq<Seq<TickView>> {
        self.saved.deep_view()
    }

    open spec fn shutdown_count(&self) -> int {
        self.shutdowns as int
    }

    open spec fn inv(&self) -> bool {
        true
    }

    open spec fn sink_total(&self) -> bool {
        true
    }

    fn save_batch(&mut self, ticks: Vec<Tick>) -> (r: Result<(), RepositoryError>) {
        let ghost pre = self.saved.deep_view();
        let ghost tv = ticks.deep_view();
        self.saved.push(ticks);
        proof {
            assert(self.saved.deep_view() =~= pre.push(tv));
        }
        Ok(())
    }

    fn flush(&mut self) -> (r: Result<(), RepositoryError>) {
        self.flushes = self.flushes.saturating_add(1);
        Ok(())
    }

    fn shutdown(&mut self) -> (r: Result<(), RepositoryError>) {
        self.shutdowns = self.shutdowns.saturating_add(1);
        Ok(())
    }
}

} // verus!
