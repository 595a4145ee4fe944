//! The corpus: testcases with their metadata, and the scheduler that picks
//! the next one to fuzz.

use vstd::prelude::*;

use crate::inputs::BytesInput;
use crate::max_map_feedback::{MapIndexesMetadata, MapNoveltiesMetadata};
use crate::utils::{xorshift_step, StdRand};
use crate::Error;

verus! {

/// One metadata record a feedback can attach to a testcase.  The bag is
/// keyed by kind: attaching a record replaces any earlier record of the
/// same kind.
#[derive(Clone, Debug, PartialEq, Eq)]
pub enum TestcaseMetadata {
    /// The non-initial map indices of the triggering observation.
    Indexes(MapIndexesMetadata),
    /// The indices that were novel when the testcase was stored.
    Novelties(MapNoveltiesMetadata),
}

/// One corpus entry: an input, its fitness, and its metadata bag.
#[derive(Debug, PartialEq, Eq)]
pub struct Testcase {
    input: Option<BytesInput>,
    fitness: u32,
    indexes_meta: Option<MapIndexesMetadata>,
    novelties_meta: Option<MapNoveltiesMetadata>,
}

impl Testcase {
    /// The input, if loaded.
    pub closed spec fn spec_input(&self) -> Option<BytesInput> {
        self.input
    }

    /// The fitness score; zero means uninteresting.
    pub closed spec fn spec_fitness(&self) -> u32 {
        self.fitness
    }

    /// The attached map-indexes record, if any.
    pub closed spec fn spec_indexes_meta(&self) -> Option<MapIndexesMetadata> {
        self.indexes_meta
    }

    /// The attached novelties record, if any.
    pub closed spec fn spec_novelties_meta(&self) -> Option<MapNoveltiesMetadata> {
        self.novelties_meta
    }

    /// Creates a testcase around `input` with fitness zero and no metadata.
    pub fn new(input: BytesInput) -> (r: Self)
        ensures
            r.spec_input() == Some(input),
            r.spec_fitness() == 0u32,
            r.spec_indexes_meta() is None,
            r.spec_novelties_meta() is None,
    {
        Testcase { input: Some(input), fitness: 0, indexes_meta: None, novelties_meta: None }
    }

    /// The input, if loaded.
    pub fn input(&self) -> (r: &Option<BytesInput>)
        ensures
            *r == self.spec_input(),
    {
        &self.input
    }

    /// The fitness score.
    pub fn fitness(&self) -> (r: u32)
        ensures
            r == self.spec_fitness(),
    {
        self.fitness
    }

    /// Sets the fitness score.
    pub fn set_fitness(&mut self, fitness: u32)
        ensures
            final(self).spec_fitness() == fitness,
            final(self).spec_input() == old(self).spec_input(),
            final(self).spec_indexes_meta() == old(self).spec_indexes_meta(),
            final(self).spec_novelties_meta() == old(self).spec_novelties_meta(),
    {
        self.fitness = fitness;
    }

    /// Attaches a metadata record, replacing any record of the same kind.
    pub fn add_metadata(&mut self, meta: TestcaseMetadata)
        ensures
            final(self).spec_input() == old(self).spec_input(),
            final(self).spec_fitness() == old(self).spec_fitness(),
            match meta {
                TestcaseMetadata::Indexes(m) => final(self).spec_indexes_meta() == Some(m)
                    && final(self).spec_novelties_meta() == old(self).spec_novelties_meta(),
                TestcaseMetadata::Novelties(m) => final(self).spec_novelties_meta() == Some(m)
                    && final(self).spec_indexes_meta() == old(self).spec_indexes_meta(),
            },
    {
        match meta {
            TestcaseMetadata::Indexes(m) => {
                self.indexes_meta = Some(m);
            },
            TestcaseMetadata::Novelties(m) => {
                self.novelties_meta = Some(m);
            },
        }
    }

    /// The attached map-indexes record.
    pub fn indexes_metadata(&self) -> (r: &Option<MapIndexesMetadata>)
        ensures
            *r == self.spec_indexes_meta(),
    {
        &self.indexes_meta
    }

    /// The attached novelties record.
    pub fn novelties_metadata(&self) -> (r: &Option<MapNoveltiesMetadata>)
        ensures
            *r == self.spec_novelties_meta(),
    {
        &self.novelties_meta
    }

    /// Rebuilds a testcase from its parts, as the corpus codec does when
    /// loading a saved corpus.
    pub fn from_parts(
        input: Option<BytesInput>,
        fitness: u32,
        indexes_meta: Option<MapIndexesMetadata>,
        novelties_meta: Option<MapNoveltiesMetadata>,
    ) -> (r: Self)
        ensures
            r.spec_input() == input,
            r.spec_fitness() == fitness,
            r.spec_indexes_meta() == indexes_meta,
            r.spec_novelties_meta() == novelties_meta,
    {
        Testcase { input, fitness, indexes_meta, novelties_meta }
    }
}

/// `after` is `before` with zero or more testcases appended: indices into
/// the old corpus stay valid and unchanged.
pub open spec fn entries_extended(before: Seq<Testcase>, after: Seq<Testcase>) -> bool {
    &&& before.len() <= after.len()
    &&& after.subrange(0, before.len() as int) == before
}

/// A corpus extends itself.
pub proof fn lemma_entries_extended_refl(s: Seq<Testcase>)
    ensures
        entries_extended(s, s),
{
    assert(s.subrange(0, s.len() as int) =~= s);
}

/// Corpus extension composes.
pub proof fn lemma_entries_extended_trans(s1: Seq<Testcase>, s2: Seq<Testcase>, s3: Seq<Testcase>)
    requires
        entries_extended(s1, s2),
        entries_extended(s2, s3),
    ensures
        entries_extended(s1, s3),
{
    assert(s3.subrange(0, s1.len() as int) =~= s3.subrange(0, s2.len() as int).subrange(
        0,
        s1.len() as int,
    ));
}

/// The pluggable policy that picks the next corpus index.
#[derive(Clone, Copy, Debug, PartialEq, Eq, Structural)]
pub enum Scheduler {
    /// Round-robin over the corpus.
    Queue {
        /// The next position to serve.
        pos: usize,
    },
    /// Uniformly random choice.
    Random,
}

/// An in-memory corpus: every testcase resident, insertion order stable.
#[derive(Debug)]
pub struct InMemoryCorpus {
    entries: Vec<Testcase>,
    scheduler: Scheduler,
}

impl InMemoryCorpus {
    /// The stored testcases, oldest first.
    pub closed spec fn spec_entries(&self) -> Seq<Testcase> {
        self.entries@
    }

    /// The scheduling policy and its state.
    pub closed spec fn spec_scheduler(&self) -> Scheduler {
        self.scheduler
    }

    /// Creates an empty corpus with a round-robin scheduler.
    pub fn new() -> (r: Self)
        ensures
            r.spec_entries() == Seq::<Testcase>::empty(),
            r.spec_scheduler() == (Scheduler::Queue { pos: 0 }),
    {
        InMemoryCorpus { entries: Vec::new(), scheduler: Scheduler::Queue { pos: 0 } }
    }

    /// Creates an empty corpus with the given scheduler.
    pub fn with_scheduler(scheduler: Scheduler) -> (r: Self)
        ensures
            r.spec_entries() == Seq::<Testcase>::empty(),
            r.spec_scheduler() == scheduler,
    {
        InMemoryCorpus { entries: Vec::new(), scheduler }
    }

    /// The scheduler and its state.
    pub fn scheduler(&self) -> (r: Scheduler)
        ensures
            r == self.spec_scheduler(),
    {
        self.scheduler
    }

    /// How many testcases the corpus holds.
    pub fn count(&self) -> (r: usize)
        ensures
            r == self.spec_entries().len(),
    {
        self.entries.len()
    }

    /// Appends a testcase; its index is stable for the corpus's lifetime.
    pub fn add(&mut self, testcase: Testcase) -> (r: usize)
        ensures
            final(self).spec_entries() == old(self).spec_entries().push(testcase),
            final(self).spec_scheduler() == old(self).spec_scheduler(),
            r == old(self).spec_entries().len(),
    {
        let idx = self.entries.len();
        self.entries.push(testcase);
        idx
    }

    /// The testcase at `idx`.
    pub fn get(&self, idx: usize) -> (r: &Testcase)
        requires
            idx < self.spec_entries().len(),
        ensures
            *r == self.spec_entries()[idx as int],
    {
        &self.entries[idx]
    }

    /// The testcase at `idx`, mutable.
    pub fn get_mut(&mut self, idx: usize) -> (r: &mut Testcase)
        requires
            idx < old(self).spec_entries().len(),
        ensures
            *r == old(self).spec_entries()[idx as int],
            final(self).spec_entries() == old(self).spec_entries().update(
                idx as int,
                *final(r),
            ),
            final(self).spec_scheduler() == old(self).spec_scheduler(),
    {
        &mut self.entries[idx]
    }

    /// Ensures the testcase at `idx` has its input in memory.  An in-memory
    /// corpus has no backing store, so a missing input cannot be paged in.
    pub fn load_testcase(&mut self, idx: usize) -> (r: Result<(), Error>)
        requires
            idx < old(self).spec_entries().len(),
        ensures
            *final(self) == *old(self),
            r is Ok <==> old(self).spec_entries()[idx as int].spec_input() is Some,
            r is Err ==> r == Err::<(), Error>(Error::Empty),
    {
        if self.entries[idx].input().is_some() {
            Ok(())
        } else {
            Err(Error::Empty)
        }
    }

    /// Asks the scheduler for the next index.  Owes an index exactly when
    /// the corpus is non-empty.
    pub fn next(&mut self, rand: &mut StdRand) -> (r: Result<usize, Error>)
        ensures
            final(self).spec_entries() == old(self).spec_entries(),
            old(self).spec_entries().len() == 0 ==> r == Err::<usize, Error>(Error::Empty)
                && *final(self) == *old(self) && *final(rand) == *old(rand),
            old(self).spec_entries().len() > 0 ==> match old(self).spec_scheduler() {
                Scheduler::Queue { pos } => {
                    &&& r == Ok::<usize, Error>(
                        (pos % old(self).spec_entries().len() as usize) as usize,
                    )
                    &&& final(self).spec_scheduler() == (Scheduler::Queue {
                        pos: ((pos % old(self).spec_entries().len() as usize) + 1) as usize,
                    })
                    &&& *final(rand) == *old(rand)
                },
                Scheduler::Random => {
                    &&& r == Ok::<usize, Error>(
                        (xorshift_step(old(rand).spec_seed()) % old(
                            self,
                        ).spec_entries().len() as u64) as usize,
                    )
                    &&& final(rand).spec_seed() == xorshift_step(old(rand).spec_seed())
                    &&& final(self).spec_scheduler() == old(self).spec_scheduler()
                },
            },
    {
        let count = self.entries.len();
        if count == 0 {
            return Err(Error::Empty);
        }
        match self.scheduler {
            Scheduler::Queue { pos } => {
                let idx = pos % count;
                self.scheduler = Scheduler::Queue { pos: idx + 1 };
                Ok(idx)
            },
            Scheduler::Random => {
                let drawn = rand.below(count as u64);
                Ok(drawn as usize)
            },
        }
    }
}

} // verus!
