//! The event boundary between the core and logging, UIs or multi-worker
//! coordination.
//!
//! Components fire events into a queue; the embedder drains the queue
//! between iterations and does the actual I/O.

use vstd::prelude::*;

use crate::Error;

verus! {

/// The payload of a user-statistics update.
#[derive(Clone, Copy, Debug, PartialEq, Eq, Structural)]
pub enum UserStatsValue {
    /// A ratio, e.g. covered cells over map length.
    Ratio(u64, u64),
    /// A plain number.
    Number(u64),
}

/// How a statistics sink aggregates values from several workers.
#[derive(Clone, Copy, Debug, PartialEq, Eq, Structural)]
pub enum AggregatorOps {
    /// Average the reported values.
    Avg,
    /// Sum the reported values.
    Sum,
}

/// Events the core emits.
#[derive(Clone, Debug)]
pub enum Event {
    /// A new testcase entered the corpus.
    NewTestcase {
        /// Its corpus index.
        index: usize,
        /// Its fitness at insertion.
        fitness: u32,
    },
    /// A named user statistic changed.
    UpdateUserStats {
        /// The statistic's name.
        name: String,
        /// The new value.
        value: UserStatsValue,
        /// How sinks should aggregate it.
        op: AggregatorOps,
    },
    /// Periodic loop statistics.
    UpdateStats {
        /// Executions so far.
        executions: usize,
        /// Executions per second since start.
        exec_per_sec: u64,
        /// Current corpus size.
        corpus_size: usize,
    },
    /// An initial seed was loaded.
    LoadInitial {
        /// The ordinal of the seed.
        index: usize,
    },
    /// A diagnostic message.
    Log {
        /// Severity, smaller is more severe.
        level: u32,
        /// The message.
        text: String,
    },
}

/// `after` is `before` with zero or more events appended: nothing pending
/// was dropped or reordered.
pub open spec fn pending_extended(before: Seq<Event>, after: Seq<Event>) -> bool {
    &&& before.len() <= after.len()
    &&& after.subrange(0, before.len() as int) == before
}

/// A queue extends itself.
pub proof fn lemma_pending_extended_refl(s: Seq<Event>)
    ensures
        pending_extended(s, s),
{
    assert(s.subrange(0, s.len() as int) =~= s);
}

/// The queue announces the seed with ordinal `i`: somewhere in it sits the
/// corresponding seed-loaded event.
pub open spec fn pending_has_load_event(q: Seq<Event>, i: int) -> bool {
    exists|p: int|
        0 <= p < q.len() && #[trigger] q[p] == (Event::LoadInitial { index: i as usize })
}

/// Extension keeps every already-pending event in place.
pub proof fn lemma_pending_extended_element(before: Seq<Event>, after: Seq<Event>, p: int)
    requires
        pending_extended(before, after),
        0 <= p < before.len(),
    ensures
        after[p] == before[p],
{
    assert(after.subrange(0, before.len() as int)[p] == before[p]);
}

/// Queue extension composes.
pub proof fn lemma_pending_extended_trans(s1: Seq<Event>, s2: Seq<Event>, s3: Seq<Event>)
    requires
        pending_extended(s1, s2),
        pending_extended(s2, s3),
    ensures
        pending_extended(s1, s3),
{
    assert(s3.subrange(0, s1.len() as int) =~= s3.subrange(0, s2.len() as int).subrange(
        0,
        s1.len() as int,
    ));
}

/// A queueing event manager: `fire` enqueues, `process` hands the queue to
/// the embedder, which performs the I/O the core never does.
#[derive(Clone, Debug)]
pub struct SimpleEventManager {
    queue: Vec<Event>,
}

impl SimpleEventManager {
    /// The pending events, oldest first.
    pub closed spec fn pending(&self) -> Seq<Event> {
        self.queue@
    }

    /// Creates a manager with no pending events.
    pub fn new() -> (r: Self)
        ensures
            r.pending() == Seq::<Event>::empty(),
    {
        SimpleEventManager { queue: Vec::new() }
    }

    /// How many events are pending.
    pub fn pending_count(&self) -> (r: usize)
        ensures
            r == self.pending().len(),
    {
        self.queue.len()
    }

    /// Enqueues an event.
    pub fn fire(&mut self, event: Event) -> (r: Result<(), Error>)
        ensures
            final(self).pending() == old(self).pending().push(event),
            r is Ok,
    {
        self.queue.push(event);
        Ok(())
    }

    /// Drains the queue and returns the drained events, oldest first, for
    /// the embedder to handle.
    pub fn process(&mut self) -> (r: Vec<Event>)
        ensures
            final(self).pending() == Seq::<Event>::empty(),
            r@ == old(self).pending(),
    {
        let mut drained: Vec<Event> = Vec::new();
        core::mem::swap(&mut drained, &mut self.queue);
        drained
    }
}

} // verus!
