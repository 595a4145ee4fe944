//! Stages: the units of work the orchestrator performs on a selected
//! testcase each iteration.

use vstd::prelude::*;

use crate::corpus::{entries_extended, lemma_entries_extended_trans, InMemoryCorpus};
use crate::engines::{feedbacks_same_config, lemma_metas_monotone_trans, metas_monotone, metas_same_names, StdState};
use crate::events::{lemma_pending_extended_refl, lemma_pending_extended_trans, pending_extended, SimpleEventManager};
use crate::executors::Executor;
use crate::inputs::BytesInput;
use crate::mutators::StdScheduledMutator;
use crate::utils::StdRand;
use crate::Error;

verus! {

/// A stage that repeatedly mutates the selected input and submits each
/// candidate back through the execution pipeline.
#[derive(Clone, Debug)]
pub struct StdMutationalStage {
    mutator: StdScheduledMutator,
    iterations: usize,
}

impl StdMutationalStage {
    /// How many candidates the stage submits per invocation.
    pub closed spec fn spec_iterations(&self) -> usize {
        self.iterations
    }

    /// The stage's mutator.
    pub closed spec fn spec_mutator(&self) -> StdScheduledMutator {
        self.mutator
    }

    /// Creates a stage that submits one candidate per invocation.
    pub fn new(mutator: StdScheduledMutator) -> (r: Self)
        ensures
            r.spec_mutator() == mutator,
            r.spec_iterations() == 1,
    {
        StdMutationalStage { mutator, iterations: 1 }
    }

    /// Creates a stage that submits `iterations` candidates per invocation.
    pub fn with_iterations(mutator: StdScheduledMutator, iterations: usize) -> (r: Self)
        ensures
            r.spec_mutator() == mutator,
            r.spec_iterations() == iterations,
    {
        StdMutationalStage { mutator, iterations }
    }

    /// Runs the stage once on the selected input: clones it, mutates the
    /// clone, and submits it through the pipeline, as many times as the
    /// stage is configured to.  With zero candidates configured there is
    /// nothing that can fail.
    #[verifier::loop_isolation(false)]
    pub fn perform<E: Executor>(
        &mut self,
        rand: &mut StdRand,
        state: &mut StdState<E>,
        corpus: &mut InMemoryCorpus,
        events: &mut SimpleEventManager,
        input: &BytesInput,
    ) -> (r: Result<(), Error>)
        requires
            old(state).wf(),
        ensures
            final(state).wf(),
            *final(self) == *old(self),
            final(state).spec_start_time() == old(state).spec_start_time(),
            old(state).spec_executions() <= final(state).spec_executions(),
            feedbacks_same_config(old(state).spec_feedbacks(), final(state).spec_feedbacks()),
            metas_same_names(old(state).spec_metadatas(), final(state).spec_metadatas()),
            metas_monotone(old(state).spec_metadatas(), final(state).spec_metadatas()),
            final(corpus).spec_scheduler() == old(corpus).spec_scheduler(),
            entries_extended(old(corpus).spec_entries(), final(corpus).spec_entries()),
            pending_extended(old(events).pending(), final(events).pending()),
            old(self).spec_iterations() == 0 ==> r is Ok,
    {
        proof {
            lemma_pending_extended_refl(old(events).pending());
            crate::corpus::lemma_entries_extended_refl(old(corpus).spec_entries());
        }
        let iters = self.iterations;
        let mut it: usize = 0;
        while it < iters
            invariant
                it <= iters,
                *self == *old(self),
                state.wf(),
                state.spec_start_time() == old(state).spec_start_time(),
                old(state).spec_executions() <= state.spec_executions(),
                feedbacks_same_config(old(state).spec_feedbacks(), state.spec_feedbacks()),
                metas_same_names(old(state).spec_metadatas(), state.spec_metadatas()),
                metas_monotone(old(state).spec_metadatas(), state.spec_metadatas()),
                corpus.spec_scheduler() == old(corpus).spec_scheduler(),
                entries_extended(old(corpus).spec_entries(), corpus.spec_entries()),
                pending_extended(old(events).pending(), events.pending()),
            decreases iters - it,
        {
            let ghost corpus_before = corpus.spec_entries();
            let ghost pending_before = events.pending();
            let ghost metas_before = state.spec_metadatas();
            let mut candidate = input.clone();
            let mutated = self.mutator.mutate(rand, &mut candidate);
            match mutated {
                Result::Ok(()) => {},
                Result::Err(e) => {
                    return Err(e);
                },
            }
            let submitted = state.add_input(corpus, events, candidate);
            proof {
                lemma_entries_extended_trans(
                    old(corpus).spec_entries(),
                    corpus_before,
                    corpus.spec_entries(),
                );
                lemma_pending_extended_trans(
                    old(events).pending(),
                    pending_before,
                    events.pending(),
                );
                lemma_metas_monotone_trans(
                    old(state).spec_metadatas(),
                    metas_before,
                    state.spec_metadatas(),
                );
            }
            match submitted {
                Result::Ok(()) => {},
                Result::Err(e) => {
                    return Err(e);
                },
            }
            it = it + 1;
        }
        Ok(())
    }
}

/// One stage of the orchestrator's list.
#[derive(Clone, Debug)]
pub enum Stage {
    /// The mutate-and-submit stage.
    Mutational(StdMutationalStage),
}

impl Stage {
    /// Runs the stage once on the selected input.
    pub fn perform<E: Executor>(
        &mut self,
        rand: &mut StdRand,
        state: &mut StdState<E>,
        corpus: &mut InMemoryCorpus,
        events: &mut SimpleEventManager,
        input: &BytesInput,
    ) -> (r: Result<(), Error>)
        requires
            old(state).wf(),
        ensures
            final(state).wf(),
            *final(self) == *old(self),
            final(state).spec_start_time() == old(state).spec_start_time(),
            old(state).spec_executions() <= final(state).spec_executions(),
            feedbacks_same_config(old(state).spec_feedbacks(), final(state).spec_feedbacks()),
            metas_same_names(old(state).spec_metadatas(), final(state).spec_metadatas()),
            metas_monotone(old(state).spec_metadatas(), final(state).spec_metadatas()),
            final(corpus).spec_scheduler() == old(corpus).spec_scheduler(),
            entries_extended(old(corpus).spec_entries(), final(corpus).spec_entries()),
            pending_extended(old(events).pending(), final(events).pending()),
            (match *old(self) {
                Stage::Mutational(stage) => stage.spec_iterations() == 0 ==> r is Ok,
            }),
    {
        match self {
            Stage::Mutational(stage) => stage.perform(rand, state, corpus, events, input),
        }
    }
}

} // verus!
