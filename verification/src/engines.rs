//! The engine: run-local state, the execution pipeline, and the stage
//! orchestrator that drives fuzzing iterations.

use vstd::prelude::*;

use crate::corpus::{InMemoryCorpus, Scheduler};
use crate::events::{
    lemma_pending_extended_refl, lemma_pending_extended_trans, pending_extended, Event,
    SimpleEventManager,
};
use crate::executors::{spec_apply_writes, Executor, ExitKind, MapWrite};
use crate::feedback::{
    metas_agree, metas_grown_zero, observers_zero_initial, spec_resolvable, spec_total_fitness,
    Feedback,
};
use crate::generators::Generator;
use crate::inputs::BytesInput;
use crate::map_observer::all_initial;
use crate::max_map_feedback::{MapFeedbackMetadata, MapIndexesMetadata, MapNoveltiesMetadata};
use crate::observer::Observer;
use crate::stages::Stage;
use crate::utils::{xorshift_step, StdRand};
use crate::Error;

verus! {

/// A metadata record stored at state level, under a name.
pub trait StateMetadata {
    /// The stable token identifying this metadata kind.
    spec fn spec_name(&self) -> Seq<char>;

    /// The stable token identifying this metadata kind.
    fn name(&self) -> (r: &'static str)
        ensures
            r@ == self.spec_name(),
    ;
}

impl StateMetadata for MapFeedbackMetadata {
    open spec fn spec_name(&self) -> Seq<char> {
        "MapFeedbackMetadata"@
    }

    fn name(&self) -> &'static str {
        "MapFeedbackMetadata"
    }
}

impl StateMetadata for MapIndexesMetadata {
    open spec fn spec_name(&self) -> Seq<char> {
        "MapIndexesMetadata"@
    }

    fn name(&self) -> &'static str {
        "MapIndexesMetadata"
    }
}

impl StateMetadata for MapNoveltiesMetadata {
    open spec fn spec_name(&self) -> Seq<char> {
        "MapNoveltiesMetadata"@
    }

    fn name(&self) -> &'static str {
        "MapNoveltiesMetadata"
    }
}

/// A state-level metadata value.  The core keeps one kind here: the
/// per-feedback history map.
#[derive(Clone, Debug)]
pub enum StateMetadataValue {
    /// A map feedback's persistent state, keyed by the feedback's name.
    MapFeedback(MapFeedbackMetadata),
}

/// One entry of the state's metadata map: a name and a value.
#[derive(Clone, Debug)]
pub struct NamedMetadata {
    /// The key; a map feedback uses its own name.
    pub name: String,
    /// The stored record.
    pub value: StateMetadataValue,
}

/// Every observer of `after` is the one of `before` with its map reset:
/// same name, same length, same initial value, every cell untouched.
pub open spec fn observers_reset_rel(before: Seq<Observer>, after: Seq<Observer>) -> bool {
    &&& after.len() == before.len()
    &&& forall|j: int|
        0 <= j < before.len() ==> match (before[j], #[trigger] after[j]) {
            (Observer::MapObserver(o0), Observer::MapObserver(o1)) => {
                &&& o1@.len() == o0@.len()
                &&& all_initial(o1@, o1.initial_spec())
                &&& o1.initial_spec() == o0.initial_spec()
                &&& o1.name_spec() == o0.name_spec()
            },
            (Observer::Plain(a), Observer::Plain(b)) => a == b,
            _ => false,
        }
}

/// Every map observer of `after` holds exactly the writes `ws` applied to
/// a freshly reset map: the shape of one completed execution, whose reset
/// preceded the target's writes.
pub open spec fn observers_after_run(
    before: Seq<Observer>,
    after: Seq<Observer>,
    ws: Seq<MapWrite>,
) -> bool {
    &&& after.len() == before.len()
    &&& forall|j: int|
        0 <= j < before.len() ==> match (before[j], #[trigger] after[j]) {
            (Observer::MapObserver(o0), Observer::MapObserver(o1)) => {
                &&& o1@ == spec_apply_writes(
                    Seq::new(o0@.len(), |i: int| o0.initial_spec()),
                    ws,
                )
                &&& o1@.len() == o0@.len()
                &&& o1.initial_spec() == o0.initial_spec()
                &&& o1.name_spec() == o0.name_spec()
            },
            (Observer::Plain(a), Observer::Plain(b)) => a == b,
            _ => false,
        }
}

/// The feedback list kept its configuration: same length, each member the
/// same feedback up to scratch state.
pub open spec fn feedbacks_same_config(before: Seq<Feedback>, after: Seq<Feedback>) -> bool {
    &&& after.len() == before.len()
    &&& forall|j: int| 0 <= j < before.len() ==> (#[trigger] after[j]).same_config(&before[j])
}

/// Once a history cell of any state-level metadata entry is covered
/// (non-zero), it stays covered: the cross-call shape of history
/// monotonicity.
pub open spec fn metas_monotone(before: Seq<NamedMetadata>, after: Seq<NamedMetadata>) -> bool {
    &&& after.len() == before.len()
    &&& forall|l: int|
        0 <= l < before.len() ==> match (before[l].value, (#[trigger] after[l]).value) {
            (StateMetadataValue::MapFeedback(a), StateMetadataValue::MapFeedback(b)) => {
                &&& a.history_map@.len() <= b.history_map@.len()
                &&& forall|i: int|
                    0 <= i < a.history_map@.len() && a.history_map@[i] != 0u8
                        ==> b.history_map@[i] != 0u8
            },
        }
}

/// Names of the metadata entries are unchanged.
pub open spec fn metas_same_names(before: Seq<NamedMetadata>, after: Seq<NamedMetadata>) -> bool {
    &&& after.len() == before.len()
    &&& forall|l: int| 0 <= l < before.len() ==> (#[trigger] after[l]).name@ == before[l].name@
}

/// `metas_monotone` composes across successive pipeline steps.
pub proof fn lemma_metas_monotone_trans(
    s1: Seq<NamedMetadata>,
    s2: Seq<NamedMetadata>,
    s3: Seq<NamedMetadata>,
)
    requires
        metas_monotone(s1, s2),
        metas_monotone(s2, s3),
    ensures
        metas_monotone(s1, s3),
{
}

/// The observer at `i`, mutable.
fn obs_at_mut<'a>(observers: &'a mut Vec<Observer>, i: usize) -> (element: &'a mut Observer)
    requires
        i < old(observers)@.len(),
    ensures
        *element == old(observers)@[i as int],
        final(observers)@ == old(observers)@.update(i as int, *final(element)),
{
    &mut observers[i]
}

/// The feedback at `i`, mutable.
fn fb_at_mut<'a>(feedbacks: &'a mut Vec<Feedback>, i: usize) -> (element: &'a mut Feedback)
    requires
        i < old(feedbacks)@.len(),
    ensures
        *element == old(feedbacks)@[i as int],
        final(feedbacks)@ == old(feedbacks)@.update(i as int, *final(element)),
{
    &mut feedbacks[i]
}

/// The run-local context threaded through every component: the execution
/// counter, the start timestamp, the state-level metadata map, the
/// observers, the feedbacks, and the executor.
#[derive(Debug)]
pub struct StdState<E> {
    executions: usize,
    start_time: u64,
    metadatas: Vec<NamedMetadata>,
    observers: Vec<Observer>,
    feedbacks: Vec<Feedback>,
    executor: E,
}

impl<E: Executor> StdState<E> {
    /// How many target executions completed so far.
    pub closed spec fn spec_executions(&self) -> usize {
        self.executions
    }

    /// The engine's start timestamp, in milliseconds.
    pub closed spec fn spec_start_time(&self) -> u64 {
        self.start_time
    }

    /// The state-level metadata map.
    pub closed spec fn spec_metadatas(&self) -> Seq<NamedMetadata> {
        self.metadatas@
    }

    /// The observer list.
    pub closed spec fn spec_observers(&self) -> Seq<Observer> {
        self.observers@
    }

    /// The feedback list.
    pub closed spec fn spec_feedbacks(&self) -> Seq<Feedback> {
        self.feedbacks@
    }

    /// The state's standing invariant: observers use zero as their initial
    /// value, and every history map agrees with its covered counter.
    pub open spec fn wf(&self) -> bool {
        &&& observers_zero_initial(self.spec_observers())
        &&& metas_agree(self.spec_metadatas())
    }

    /// Creates a state around an executor.  The start timestamp is
    /// whatever clock value the embedder read at construction.
    pub fn new(executor: E, start_time_ms: u64) -> (r: Self)
        ensures
            r.spec_executions() == 0,
            r.spec_start_time() == start_time_ms,
            r.spec_metadatas() == Seq::<NamedMetadata>::empty(),
            r.spec_observers() == Seq::<Observer>::empty(),
            r.spec_feedbacks() == Seq::<Feedback>::empty(),
            r.wf(),
    {
        StdState {
            executions: 0,
            start_time: start_time_ms,
            metadatas: Vec::new(),
            observers: Vec::new(),
            feedbacks: Vec::new(),
            executor,
        }
    }

    /// The execution counter.
    pub fn executions(&self) -> (r: usize)
        ensures
            r == self.spec_executions(),
    {
        self.executions
    }

    /// Sets the execution counter.
    pub fn set_executions(&mut self, executions: usize)
        ensures
            final(self).spec_executions() == executions,
            final(self).spec_start_time() == old(self).spec_start_time(),
            final(self).spec_metadatas() == old(self).spec_metadatas(),
            final(self).spec_observers() == old(self).spec_observers(),
            final(self).spec_feedbacks() == old(self).spec_feedbacks(),
    {
        self.executions = executions;
    }

    /// The start timestamp.
    pub fn start_time(&self) -> (r: u64)
        ensures
            r == self.spec_start_time(),
    {
        self.start_time
    }

    /// Sets the start timestamp.
    pub fn set_start_time(&mut self, ms: u64)
        ensures
            final(self).spec_start_time() == ms,
            final(self).spec_executions() == old(self).spec_executions(),
            final(self).spec_metadatas() == old(self).spec_metadatas(),
            final(self).spec_observers() == old(self).spec_observers(),
            final(self).spec_feedbacks() == old(self).spec_feedbacks(),
    {
        self.start_time = ms;
    }

    /// Executions per elapsed second since the start timestamp, given the
    /// clock's current reading: the execution count divided by the elapsed
    /// whole seconds, at least one, so during the first second the rate is
    /// the count itself.  A clock reading before the start yields zero.
    pub fn executions_over_seconds(&self, now_ms: u64) -> (r: u64)
        ensures
            r == ({
                let execs = self.spec_executions() as u64;
                if now_ms < self.spec_start_time() {
                    0u64
                } else {
                    let secs = ((now_ms - self.spec_start_time()) / 1000) as u64;
                    let divisor = if secs == 0 {
                        1u64
                    } else {
                        secs
                    };
                    (execs / divisor) as u64
                }
            }),
            r <= self.spec_executions(),
    {
        if now_ms < self.start_time {
            return 0;
        }
        let elapsed = now_ms - self.start_time;
        let mut secs = elapsed / 1000;
        if secs == 0 {
            secs = 1;
        }
        (self.executions as u64) / secs
    }

    /// The metadata map.
    pub fn metadatas(&self) -> (r: &Vec<NamedMetadata>)
        ensures
            r@ == self.spec_metadatas(),
    {
        &self.metadatas
    }

    /// The metadata map, mutable.
    pub fn metadatas_mut(&mut self) -> (r: &mut Vec<NamedMetadata>)
        ensures
            (*r)@ == old(self).spec_metadatas(),
            final(self).spec_metadatas() == final(r)@,
            final(self).spec_executions() == old(self).spec_executions(),
            final(self).spec_start_time() == old(self).spec_start_time(),
            final(self).spec_observers() == old(self).spec_observers(),
            final(self).spec_feedbacks() == old(self).spec_feedbacks(),
    {
        &mut self.metadatas
    }

    /// Inserts a metadata record under `name`, replacing the first entry of
    /// that name if one exists.
    pub fn add_metadata(&mut self, name: &String, value: StateMetadataValue)
        ensures
            final(self).spec_executions() == old(self).spec_executions(),
            final(self).spec_start_time() == old(self).spec_start_time(),
            final(self).spec_observers() == old(self).spec_observers(),
            final(self).spec_feedbacks() == old(self).spec_feedbacks(),
            final(self).spec_metadatas().len() >= old(self).spec_metadatas().len(),
            (old(self).wf() && (match value {
                StateMetadataValue::MapFeedback(ms) => ms.agrees(0u8),
            })) ==> final(self).wf(),
    {
        let found = crate::feedback::find_named_meta_idx(&self.metadatas, name);
        let entry = NamedMetadata { name: name.clone(), value };
        match found {
            Some(l) => {
                let slot = crate::feedback::meta_slot_mut(&mut self.metadatas, l);
                *slot = entry;
            },
            None => {
                self.metadatas.push(entry);
            },
        }
    }

    /// The observer list.
    pub fn observers(&self) -> (r: &Vec<Observer>)
        ensures
            r@ == self.spec_observers(),
    {
        &self.observers
    }

    /// The observer list, mutable.
    pub fn observers_mut(&mut self) -> (r: &mut Vec<Observer>)
        ensures
            (*r)@ == old(self).spec_observers(),
            final(self).spec_observers() == final(r)@,
            final(self).spec_executions() == old(self).spec_executions(),
            final(self).spec_start_time() == old(self).spec_start_time(),
            final(self).spec_metadatas() == old(self).spec_metadatas(),
            final(self).spec_feedbacks() == old(self).spec_feedbacks(),
    {
        &mut self.observers
    }

    /// Registers an observer.
    pub fn add_observer(&mut self, observer: Observer)
        ensures
            final(self).spec_observers() == old(self).spec_observers().push(observer),
            final(self).spec_executions() == old(self).spec_executions(),
            final(self).spec_start_time() == old(self).spec_start_time(),
            final(self).spec_metadatas() == old(self).spec_metadatas(),
            final(self).spec_feedbacks() == old(self).spec_feedbacks(),
            (old(self).wf() && (match observer {
                Observer::MapObserver(o) => o.initial_spec() == 0u8,
                Observer::Plain(_) => true,
            })) ==> final(self).wf(),
    {
        self.observers.push(observer);
    }

    /// The feedback list.
    pub fn feedbacks(&self) -> (r: &Vec<Feedback>)
        ensures
            r@ == self.spec_feedbacks(),
    {
        &self.feedbacks
    }

    /// The feedback list, mutable.
    pub fn feedbacks_mut(&mut self) -> (r: &mut Vec<Feedback>)
        ensures
            (*r)@ == old(self).spec_feedbacks(),
            final(self).spec_feedbacks() == final(r)@,
            final(self).spec_executions() == old(self).spec_executions(),
            final(self).spec_start_time() == old(self).spec_start_time(),
            final(self).spec_metadatas() == old(self).spec_metadatas(),
            final(self).spec_observers() == old(self).spec_observers(),
    {
        &mut self.feedbacks
    }

    /// Registers a feedback and installs its initial state-level metadata
    /// (a map feedback gets an empty history under its name).
    pub fn add_feedback(&mut self, feedback: Feedback)
        ensures
            final(self).spec_feedbacks() == old(self).spec_feedbacks().push(feedback),
            final(self).spec_executions() == old(self).spec_executions(),
            final(self).spec_start_time() == old(self).spec_start_time(),
            final(self).spec_observers() == old(self).spec_observers(),
            old(self).wf() ==> final(self).wf(),
    {
        feedback.init_state(&mut self.metadatas);
        self.feedbacks.push(feedback);
    }

    /// The executor.
    pub fn executor(&self) -> &E {
        &self.executor
    }

    /// The executor, mutable.
    pub fn executor_mut(&mut self) -> &mut E {
        &mut self.executor
    }

    /// Resets every observer, in list order.  Immediately afterwards every
    /// observation-map cell equals its observer's initial value: the state
    /// the target must find the maps in.
    pub fn reset_observers(&mut self) -> (r: Result<(), Error>)
        ensures
            r is Ok,
            observers_reset_rel(old(self).spec_observers(), final(self).spec_observers()),
            final(self).spec_executions() == old(self).spec_executions(),
            final(self).spec_start_time() == old(self).spec_start_time(),
            final(self).spec_metadatas() == old(self).spec_metadatas(),
            final(self).spec_feedbacks() == old(self).spec_feedbacks(),
            old(self).wf() ==> final(self).wf(),
    {
        let n = self.observers.len();
        let mut j: usize = 0;
        while j < n
            invariant
                j <= n,
                n == self.observers@.len(),
                self.observers@.len() == old(self).spec_observers().len(),
                self.executions == old(self).spec_executions(),
                self.start_time == old(self).spec_start_time(),
                self.metadatas@ == old(self).spec_metadatas(),
                self.feedbacks@ == old(self).spec_feedbacks(),
                forall|k: int|
                    j <= k < n ==> self.observers@[k] == old(self).spec_observers()[k],
                forall|k: int|
                    0 <= k < j ==> match (
                        old(self).spec_observers()[k],
                        #[trigger] self.observers@[k],
                    ) {
                        (Observer::MapObserver(o0), Observer::MapObserver(o1)) => {
                            &&& o1@.len() == o0@.len()
                            &&& all_initial(o1@, o1.initial_spec())
                            &&& o1.initial_spec() == o0.initial_spec()
                            &&& o1.name_spec() == o0.name_spec()
                        },
                        (Observer::Plain(a), Observer::Plain(b)) => a == b,
                        _ => false,
                    },
            decreases n - j,
        {
            let ob = obs_at_mut(&mut self.observers, j);
            let reset_result = ob.reset();
            j = j + 1;
        }
        Ok(())
    }

    /// Applies one run's target writes to every observer, in list order.
    fn apply_run_writes(&mut self, writes: &Vec<MapWrite>)
        ensures
            final(self).spec_observers().len() == old(self).spec_observers().len(),
            forall|k: int|
                0 <= k < old(self).spec_observers().len() ==> match (
                    old(self).spec_observers()[k],
                    #[trigger] final(self).spec_observers()[k],
                ) {
                    (Observer::MapObserver(o0), Observer::MapObserver(o1)) => {
                        &&& o1@ == spec_apply_writes(o0@, writes@)
                        &&& o1@.len() == o0@.len()
                        &&& o1.initial_spec() == o0.initial_spec()
                        &&& o1.name_spec() == o0.name_spec()
                    },
                    (Observer::Plain(a), Observer::Plain(b)) => a == b,
                    _ => false,
                },
            final(self).spec_executions() == old(self).spec_executions(),
            final(self).spec_start_time() == old(self).spec_start_time(),
            final(self).spec_metadatas() == old(self).spec_metadatas(),
            final(self).spec_feedbacks() == old(self).spec_feedbacks(),
    {
        let n = self.observers.len();
        let mut j: usize = 0;
        while j < n
            invariant
                j <= n,
                n == self.observers@.len(),
                self.observers@.len() == old(self).spec_observers().len(),
                self.executions == old(self).spec_executions(),
                self.start_time == old(self).spec_start_time(),
                self.metadatas@ == old(self).spec_metadatas(),
                self.feedbacks@ == old(self).spec_feedbacks(),
                forall|k: int|
                    j <= k < n ==> self.observers@[k] == old(self).spec_observers()[k],
                forall|k: int|
                    0 <= k < j ==> match (
                        old(self).spec_observers()[k],
                        #[trigger] self.observers@[k],
                    ) {
                        (Observer::MapObserver(o0), Observer::MapObserver(o1)) => {
                            &&& o1@ == spec_apply_writes(o0@, writes@)
                            &&& o1@.len() == o0@.len()
                            &&& o1.initial_spec() == o0.initial_spec()
                            &&& o1.name_spec() == o0.name_spec()
                        },
                        (Observer::Plain(a), Observer::Plain(b)) => a == b,
                        _ => false,
                    },
            decreases n - j,
        {
            let ob = obs_at_mut(&mut self.observers, j);
            ob.apply_writes(writes);
            j = j + 1;
        }
    }

    /// Runs the post-execution hook of every observer, in list order.
    pub fn post_exec_observers(&mut self, input: &BytesInput, exit_kind: &ExitKind) -> (r: Result<
        (),
        Error,
    >)
        ensures
            r is Ok,
            final(self).spec_observers() == old(self).spec_observers(),
            final(self).spec_executions() == old(self).spec_executions(),
            final(self).spec_start_time() == old(self).spec_start_time(),
            final(self).spec_metadatas() == old(self).spec_metadatas(),
            final(self).spec_feedbacks() == old(self).spec_feedbacks(),
    {
        let n = self.observers.len();
        let mut j: usize = 0;
        while j < n
            invariant
                j <= n,
                n == self.observers@.len(),
                self.observers@ == old(self).spec_observers(),
                self.executions == old(self).spec_executions(),
                self.start_time == old(self).spec_start_time(),
                self.metadatas@ == old(self).spec_metadatas(),
                self.feedbacks@ == old(self).spec_feedbacks(),
            decreases n - j,
        {
            let ob = obs_at_mut(&mut self.observers, j);
            let hook_result = ob.post_exec(input, exit_kind);
            proof {
                assert(self.observers@ =~= old(self).spec_observers());
            }
            j = j + 1;
        }
        Ok(())
    }

    /// Runs the input once and evaluates every feedback on the outcome:
    /// resets the observers, runs the target, transfers its map writes,
    /// counts the execution, runs the post-execution hooks, and sums the
    /// feedbacks' verdicts into a fitness.  Every feedback kind here
    /// contributes zero or one; a kind with a richer score would widen its
    /// verdict, the corpus decision stays `fitness > 0`.  The execution
    /// counter moves by exactly one per completed target run (it pins at
    /// its maximum rather than wrap).
    #[verifier::loop_isolation(false)]
    pub fn evaluate_input(&mut self, input: &BytesInput) -> (r: Result<u32, Error>)
        ensures
            final(self).spec_start_time() == old(self).spec_start_time(),
            old(self).spec_executions() <= final(self).spec_executions(),
            r is Ok ==> final(self).spec_executions() as int == (if old(self).spec_executions()
                < usize::MAX {
                old(self).spec_executions() as int + 1
            } else {
                usize::MAX as int
            }),
            r is Ok ==> exists|ws: Seq<MapWrite>|
                #[trigger] observers_after_run(
                    old(self).spec_observers(),
                    final(self).spec_observers(),
                    ws,
                ),
            feedbacks_same_config(old(self).spec_feedbacks(), final(self).spec_feedbacks()),
            final(self).spec_metadatas().len() == old(self).spec_metadatas().len(),
            metas_same_names(old(self).spec_metadatas(), final(self).spec_metadatas()),
            metas_monotone(old(self).spec_metadatas(), final(self).spec_metadatas()),
            old(self).wf() ==> final(self).wf(),
            (match r {
                Ok(fitness) => fitness <= old(self).spec_feedbacks().len(),
                Err(_) => true,
            }),
            (old(self).wf() && old(self).spec_feedbacks().len() <= u32::MAX) ==> (match r {
                Ok(fitness) => exists|ek: ExitKind|
                    fitness as int == #[trigger] spec_total_fitness(
                        old(self).spec_feedbacks(),
                        old(self).spec_metadatas(),
                        final(self).spec_observers(),
                        ek,
                    ),
                Err(_) => true,
            }),
            old(self).wf() ==> metas_grown_zero(
                old(self).spec_metadatas(),
                final(self).spec_metadatas(),
            ),
            (r is Err && (forall|k: int|
                0 <= k < old(self).spec_feedbacks().len() ==> spec_resolvable(
                    #[trigger] old(self).spec_feedbacks()[k],
                    old(self).spec_metadatas(),
                    old(self).spec_observers(),
                ))) ==> ({
                &&& final(self).spec_executions() == old(self).spec_executions()
                &&& final(self).spec_metadatas() == old(self).spec_metadatas()
                &&& final(self).spec_feedbacks() == old(self).spec_feedbacks()
            }),
    {
        self.reset_observers()?;
        let run = match self.executor.run_target(input) {
            Result::Ok(run) => run,
            Result::Err(e) => {
                proof {
                    lemma_metas_monotone_refl(self.metadatas@);
                    crate::feedback::lemma_metas_grown_zero_refl(self.metadatas@);
                }
                return Err(e);
            },
        };
        let ghost obs_reset = self.observers@;
        self.apply_run_writes(&run.writes);
        proof {
            assert forall|j: int| 0 <= j < old(self).spec_observers().len() implies match (
                old(self).spec_observers()[j],
                #[trigger] self.observers@[j],
            ) {
                (Observer::MapObserver(o0), Observer::MapObserver(o2)) => {
                    &&& o2@ == spec_apply_writes(
                        Seq::new(o0@.len(), |i: int| o0.initial_spec()),
                        run.writes@,
                    )
                    &&& o2@.len() == o0@.len()
                    &&& o2.initial_spec() == o0.initial_spec()
                    &&& o2.name_spec() == o0.name_spec()
                },
                (Observer::Plain(a), Observer::Plain(b)) => a == b,
                _ => false,
            } by {
                match (old(self).spec_observers()[j], obs_reset[j], self.observers@[j]) {
                    (
                        Observer::MapObserver(o0),
                        Observer::MapObserver(o1),
                        Observer::MapObserver(o2),
                    ) => {
                        assert(o1@ =~= Seq::new(o0@.len(), |i: int| o0.initial_spec()));
                    },
                    _ => {},
                }
            }
            assert(observers_after_run(
                old(self).spec_observers(),
                self.observers@,
                run.writes@,
            ));
        }
        let execs = self.executions;
        self.executions = if execs < usize::MAX {
            execs + 1
        } else {
            usize::MAX
        };
        self.post_exec_observers(input, &run.exit_kind)?;
        let ghost mid = *self;
        proof {
            crate::feedback::lemma_metas_grown_zero_refl(self.metadatas@);
            assert(mid.spec_feedbacks().subrange(0, 0) =~= Seq::<Feedback>::empty());
        }
        let mut fitness: u32 = 0;
        let n = self.feedbacks.len();
        let mut i: usize = 0;
        while i < n
            invariant
                i <= n,
                n == self.feedbacks@.len(),
                self.feedbacks@.len() == mid.spec_feedbacks().len(),
                self.executions == mid.spec_executions(),
                self.start_time == mid.spec_start_time(),
                self.observers@ == mid.spec_observers(),
                feedbacks_same_config(mid.spec_feedbacks(), self.feedbacks@),
                self.metadatas@.len() == mid.spec_metadatas().len(),
                metas_same_names(mid.spec_metadatas(), self.metadatas@),
                metas_monotone(mid.spec_metadatas(), self.metadatas@),
                mid.wf() ==> observers_zero_initial(self.observers@) && metas_agree(
                    self.metadatas@,
                ),
                forall|k: int| i <= k < n ==> self.feedbacks@[k] == mid.spec_feedbacks()[k],
                mid.wf() ==> metas_grown_zero(mid.spec_metadatas(), self.metadatas@),
                (mid.wf() && mid.spec_feedbacks().len() <= u32::MAX) ==> fitness as int
                    == spec_total_fitness(
                    mid.spec_feedbacks().subrange(0, i as int),
                    mid.spec_metadatas(),
                    mid.spec_observers(),
                    run.exit_kind,
                ),
                fitness <= i,
            decreases n - i,
        {
            let ghost before = self.metadatas@;
            let ghost fb0 = self.feedbacks@[i as int];
            let fb = fb_at_mut(&mut self.feedbacks, i);
            let verdict = fb.is_interesting(
                &mut self.metadatas,
                &self.observers,
                input,
                &run.exit_kind,
            );
            proof {
                lemma_metas_grow_only_monotone(before, self.metadatas@);
                lemma_metas_monotone_trans(mid.spec_metadatas(), before, self.metadatas@);
                if mid.wf() {
                    crate::feedback::lemma_metas_grown_zero_trans(
                        mid.spec_metadatas(),
                        before,
                        self.metadatas@,
                    );
                    if mid.spec_feedbacks().len() <= u32::MAX {
                        crate::feedback::lemma_verdict_stable_under_growth(
                            fb0,
                            mid.spec_metadatas(),
                            before,
                            mid.spec_observers(),
                            run.exit_kind,
                        );
                        crate::feedback::lemma_total_fitness_snoc(
                            mid.spec_feedbacks().subrange(0, i as int),
                            fb0,
                            mid.spec_metadatas(),
                            mid.spec_observers(),
                            run.exit_kind,
                        );
                        assert(mid.spec_feedbacks().subrange(0, i + 1)
                            =~= mid.spec_feedbacks().subrange(0, i as int).push(fb0));
                    }
                }
            }
            match verdict {
                Result::Ok(v) => {
                    if v > 0 && fitness < u32::MAX {
                        fitness = fitness + 1;
                    }
                },
                Result::Err(e) => {
                    proof {
                        if forall|k: int|
                            0 <= k < old(self).spec_feedbacks().len() ==> spec_resolvable(
                                #[trigger] old(self).spec_feedbacks()[k],
                                old(self).spec_metadatas(),
                                old(self).spec_observers(),
                            ) {
                            assert forall|j: int|
                                0 <= j < old(self).spec_observers().len() implies (
                            (#[trigger] self.observers@[j]).name_of() == old(
                                self,
                            ).spec_observers()[j].name_of() && ((self.observers@[j]
                                is MapObserver) <==> old(self).spec_observers()[j]
                                is MapObserver)) by {}
                            crate::feedback::lemma_resolvable_same_shape(
                                fb0,
                                old(self).spec_metadatas(),
                                before,
                                old(self).spec_observers(),
                                self.observers@,
                            );
                            crate::feedback::lemma_verdict_resolvable(
                                fb0,
                                before,
                                self.observers@,
                                run.exit_kind,
                            );
                            assert(false);
                        }
                    }
                    return Err(e);
                },
            }
            i = i + 1;
        }
        proof {
            assert(observers_after_run(
                old(self).spec_observers(),
                self.spec_observers(),
                run.writes@,
            ));
            if old(self).wf() && old(self).spec_feedbacks().len() <= u32::MAX {
                assert(mid.spec_feedbacks().subrange(0, n as int) =~= mid.spec_feedbacks());
                assert(fitness as int == spec_total_fitness(
                    old(self).spec_feedbacks(),
                    old(self).spec_metadatas(),
                    self.spec_observers(),
                    run.exit_kind,
                ));
            }
        }
        Ok(fitness)
    }

    /// Tells every feedback to release its per-input scratch state for an
    /// input that will not be kept.  Nothing else changes: the histories,
    /// their covered counters, the observers and the execution counter are
    /// exactly what they were, and no corpus is even reachable from here.
    pub fn discard_input(&mut self, input: &BytesInput) -> (r: Result<(), Error>)
        ensures
            r is Ok,
            final(self).spec_executions() == old(self).spec_executions(),
            final(self).spec_start_time() == old(self).spec_start_time(),
            final(self).spec_metadatas() == old(self).spec_metadatas(),
            final(self).spec_observers() == old(self).spec_observers(),
            feedbacks_same_config(old(self).spec_feedbacks(), final(self).spec_feedbacks()),
            old(self).wf() ==> final(self).wf(),
    {
        let n = self.feedbacks.len();
        let mut i: usize = 0;
        while i < n
            invariant
                i <= n,
                n == self.feedbacks@.len(),
                self.feedbacks@.len() == old(self).spec_feedbacks().len(),
                self.executions == old(self).spec_executions(),
                self.start_time == old(self).spec_start_time(),
                self.metadatas@ == old(self).spec_metadatas(),
                self.observers@ == old(self).spec_observers(),
                feedbacks_same_config(old(self).spec_feedbacks(), self.feedbacks@),
            decreases n - i,
        {
            let fb = fb_at_mut(&mut self.feedbacks, i);
            let discarded = fb.discard_metadata(input);
            i = i + 1;
        }
        Ok(())
    }

    /// Builds a testcase around an interesting input: sets its fitness and
    /// lets every feedback, in declaration order, merge its observation
    /// into history and attach its metadata.
    #[verifier::loop_isolation(false)]
    pub fn input_to_testcase(
        &mut self,
        input: BytesInput,
        fitness: u32,
        manager: &mut SimpleEventManager,
    ) -> (r: Result<crate::corpus::Testcase, Error>)
        requires
            old(self).wf(),
        ensures
            final(self).spec_executions() == old(self).spec_executions(),
            final(self).spec_start_time() == old(self).spec_start_time(),
            final(self).spec_observers() == old(self).spec_observers(),
            feedbacks_same_config(old(self).spec_feedbacks(), final(self).spec_feedbacks()),
            metas_same_names(old(self).spec_metadatas(), final(self).spec_metadatas()),
            metas_monotone(old(self).spec_metadatas(), final(self).spec_metadatas()),
            final(self).wf(),
            pending_extended(old(manager).pending(), final(manager).pending()),
            (match r {
                Ok(tc) => tc.spec_input() == Some(input) && tc.spec_fitness() == fitness,
                Err(e) => e == Error::KeyNotFound,
            }),
            r is Ok <==> (forall|k: int|
                0 <= k < old(self).spec_feedbacks().len() ==> spec_resolvable(
                    #[trigger] old(self).spec_feedbacks()[k],
                    old(self).spec_metadatas(),
                    old(self).spec_observers(),
                )),
    {
        let ghost input0 = input;
        proof {
            lemma_pending_extended_refl(old(manager).pending());
        }
        let mut testcase = crate::corpus::Testcase::new(input);
        testcase.set_fitness(fitness);
        let ghost start = *self;
        let n = self.feedbacks.len();
        let mut i: usize = 0;
        while i < n
            invariant
                i <= n,
                n == self.feedbacks@.len(),
                self.feedbacks@.len() == start.spec_feedbacks().len(),
                self.executions == start.spec_executions(),
                self.start_time == start.spec_start_time(),
                self.observers@ == start.spec_observers(),
                feedbacks_same_config(start.spec_feedbacks(), self.feedbacks@),
                metas_same_names(start.spec_metadatas(), self.metadatas@),
                metas_monotone(start.spec_metadatas(), self.metadatas@),
                observers_zero_initial(self.observers@),
                metas_agree(self.metadatas@),
                pending_extended(old(manager).pending(), manager.pending()),
                testcase.spec_input() == Some(input0),
                testcase.spec_fitness() == fitness,
                forall|k: int| i <= k < n ==> self.feedbacks@[k] == start.spec_feedbacks()[k],
                forall|k: int|
                    0 <= k < i ==> spec_resolvable(
                        #[trigger] start.spec_feedbacks()[k],
                        start.spec_metadatas(),
                        start.spec_observers(),
                    ),
            decreases n - i,
        {
            let ghost before = self.metadatas@;
            let ghost pending_before = manager.pending();
            let ghost fb0 = self.feedbacks@[i as int];
            let fb = fb_at_mut(&mut self.feedbacks, i);
            let appended = fb.append_metadata(
                &mut self.metadatas,
                &self.observers,
                manager,
                &mut testcase,
            );
            proof {
                lemma_metas_monotone_trans(start.spec_metadatas(), before, self.metadatas@);
                lemma_pending_extended_trans(
                    old(manager).pending(),
                    pending_before,
                    manager.pending(),
                );
                crate::feedback::lemma_resolvable_same_shape(
                    fb0,
                    start.spec_metadatas(),
                    before,
                    start.spec_observers(),
                    self.observers@,
                );
            }
            match appended {
                Result::Ok(()) => {},
                Result::Err(e) => {
                    proof {
                        assert(!spec_resolvable(
                            start.spec_feedbacks()[i as int],
                            start.spec_metadatas(),
                            start.spec_observers(),
                        ));
                    }
                    return Err(e);
                },
            }
            i = i + 1;
        }
        Ok(testcase)
    }
}

impl<E: Executor> StdState<E> {
    /// Evaluates `input` through the pipeline and keeps it when some
    /// feedback found it interesting: an interesting input becomes a
    /// testcase with the feedbacks' metadata attached and is appended to
    /// the corpus (and announced); an uninteresting one only has its
    /// scratch state discarded, leaving history, counters and corpus
    /// untouched.
    pub fn add_input(
        &mut self,
        corpus: &mut InMemoryCorpus,
        events: &mut SimpleEventManager,
        input: BytesInput,
    ) -> (r: Result<(), Error>)
        requires
            old(self).wf(),
        ensures
            final(self).wf(),
            final(self).spec_start_time() == old(self).spec_start_time(),
            old(self).spec_executions() <= final(self).spec_executions(),
            feedbacks_same_config(old(self).spec_feedbacks(), final(self).spec_feedbacks()),
            metas_same_names(old(self).spec_metadatas(), final(self).spec_metadatas()),
            metas_monotone(old(self).spec_metadatas(), final(self).spec_metadatas()),
            final(corpus).spec_scheduler() == old(corpus).spec_scheduler(),
            crate::corpus::entries_extended(
                old(corpus).spec_entries(),
                final(corpus).spec_entries(),
            ),
            final(corpus).spec_entries().len() <= old(corpus).spec_entries().len() + 1,
            final(corpus).spec_entries().len() == old(corpus).spec_entries().len() + 1 ==> ({
                let tc = final(corpus).spec_entries().last();
                tc.spec_input() == Some(input) && tc.spec_fitness() > 0
            }),
            pending_extended(old(events).pending(), final(events).pending()),
            (old(self).wf() && r is Ok && final(corpus).spec_entries().len() == old(
                corpus,
            ).spec_entries().len()) ==> metas_grown_zero(
                old(self).spec_metadatas(),
                final(self).spec_metadatas(),
            ),
            (old(self).wf() && old(self).spec_feedbacks().len() <= u32::MAX && r is Ok) ==> ({
                &&& (final(corpus).spec_entries().len() == old(corpus).spec_entries().len() + 1
                    ==> exists|ek: ExitKind|
                    0 < #[trigger] spec_total_fitness(
                        old(self).spec_feedbacks(),
                        old(self).spec_metadatas(),
                        final(self).spec_observers(),
                        ek,
                    ))
                &&& (final(corpus).spec_entries().len() == old(corpus).spec_entries().len()
                    ==> exists|ek: ExitKind|
                    0 == #[trigger] spec_total_fitness(
                        old(self).spec_feedbacks(),
                        old(self).spec_metadatas(),
                        final(self).spec_observers(),
                        ek,
                    ))
            }),
    {
        proof {
            lemma_pending_extended_refl(old(events).pending());
            crate::corpus::lemma_entries_extended_refl(old(corpus).spec_entries());
        }
        let fitness = match self.evaluate_input(&input) {
            Result::Ok(f) => f,
            Result::Err(e) => {
                return Err(e);
            },
        };
        if fitness > 0 {
            let testcase = match self.input_to_testcase(input, fitness, events) {
                Result::Ok(t) => t,
                Result::Err(e) => {
                    return Err(e);
                },
            };
            let idx = corpus.add(testcase);
            proof {
                assert(corpus.spec_entries().subrange(
                    0,
                    old(corpus).spec_entries().len() as int,
                ) =~= old(corpus).spec_entries());
            }
            let fired = events.fire(Event::NewTestcase { index: idx, fitness });
            proof {
                assert(events.pending().subrange(0, old(events).pending().len() as int) =~= old(
                    events,
                ).pending());
            }
            match fired {
                Result::Ok(()) => Ok(()),
                Result::Err(e) => Err(e),
            }
        } else {
            self.discard_input(&input)?;
            Ok(())
        }
    }
}

/// The stage at `i`, mutable.
fn stage_at_mut<'a>(stages: &'a mut Vec<Stage>, i: usize) -> (element: &'a mut Stage)
    requires
        i < old(stages)@.len(),
    ensures
        *element == old(stages)@[i as int],
        final(stages)@ == old(stages)@.update(i as int, *final(element)),
{
    &mut stages[i]
}

/// The index the corpus scheduler hands out next, given the corpus size
/// and the random source's state.
pub open spec fn spec_scheduled_index(scheduler: Scheduler, seed: u64, count: nat) -> usize {
    match scheduler {
        Scheduler::Queue { pos } => (pos % count as usize) as usize,
        Scheduler::Random => (xorshift_step(seed) % count as u64) as usize,
    }
}

/// The orchestrator: holds an ordered stage list and drives one fuzzing
/// iteration at a time.
pub trait Engine {
    /// The ordered stage list.
    spec fn spec_stages(&self) -> Seq<Stage>;

    /// The stage list.
    fn stages(&self) -> (r: &Vec<Stage>)
        ensures
            r@ == self.spec_stages(),
    ;

    /// The stage list, mutable.
    fn stages_mut(&mut self) -> (r: &mut Vec<Stage>)
        ensures
            (*r)@ == old(self).spec_stages(),
            final(self).spec_stages() == final(r)@,
    ;

    /// Appends a stage.
    fn add_stage(&mut self, stage: Stage)
        ensures
            final(self).spec_stages() == old(self).spec_stages().push(stage),
    ;

    /// One fuzzing iteration: asks the scheduler for a testcase, makes
    /// sure its input is loaded, runs every stage on it in order, and
    /// returns the index that was fuzzed.  Fails with [`Error::Empty`] on
    /// an empty corpus or an unloaded selected input; with those two ruled
    /// out and no stage to run, success is owed.
    fn fuzz_one<E: Executor>(
        &mut self,
        rand: &mut StdRand,
        state: &mut StdState<E>,
        corpus: &mut InMemoryCorpus,
        events: &mut SimpleEventManager,
    ) -> (r: Result<usize, Error>)
        requires
            old(state).wf(),
        ensures
            final(state).wf(),
            final(self).spec_stages() == old(self).spec_stages(),
            old(corpus).spec_entries().len() == 0 ==> r == Err::<usize, Error>(Error::Empty),
            (old(corpus).spec_entries().len() > 0 && old(corpus).spec_entries()[
                spec_scheduled_index(
                    old(corpus).spec_scheduler(),
                    old(rand).spec_seed(),
                    old(corpus).spec_entries().len(),
                ) as int
            ].spec_input() is None) ==> r == Err::<usize, Error>(Error::Empty),
            (old(corpus).spec_entries().len() > 0 && old(corpus).spec_entries()[
                spec_scheduled_index(
                    old(corpus).spec_scheduler(),
                    old(rand).spec_seed(),
                    old(corpus).spec_entries().len(),
                ) as int
            ].spec_input() is Some && old(self).spec_stages().len() == 0) ==> r is Ok,
            (match r {
                Ok(idx) => old(corpus).spec_entries().len() > 0 && idx == spec_scheduled_index(
                    old(corpus).spec_scheduler(),
                    old(rand).spec_seed(),
                    old(corpus).spec_entries().len(),
                ),
                Err(_) => true,
            }),
            final(state).spec_start_time() == old(state).spec_start_time(),
            old(state).spec_executions() <= final(state).spec_executions(),
            feedbacks_same_config(old(state).spec_feedbacks(), final(state).spec_feedbacks()),
            metas_same_names(old(state).spec_metadatas(), final(state).spec_metadatas()),
            metas_monotone(old(state).spec_metadatas(), final(state).spec_metadatas()),
            crate::corpus::entries_extended(
                old(corpus).spec_entries(),
                final(corpus).spec_entries(),
            ),
            pending_extended(old(events).pending(), final(events).pending()),
    ;
}

/// The standard orchestrator: a plain ordered list of stages.
#[derive(Clone, Debug)]
pub struct StdEngine {
    stages: Vec<Stage>,
}

impl StdEngine {
    /// The ordered stage list.
    pub closed spec fn spec_stage_list(&self) -> Seq<Stage> {
        self.stages@
    }

    /// Creates an orchestrator with no stages.
    pub fn new() -> (r: Self)
        ensures
            r.spec_stage_list() == Seq::<Stage>::empty(),
    {
        StdEngine { stages: Vec::new() }
    }
}

impl Engine for StdEngine {
    open spec fn spec_stages(&self) -> Seq<Stage> {
        self.spec_stage_list()
    }

    fn stages(&self) -> &Vec<Stage> {
        &self.stages
    }

    fn stages_mut(&mut self) -> &mut Vec<Stage> {
        &mut self.stages
    }

    fn add_stage(&mut self, stage: Stage) {
        self.stages.push(stage);
    }

    #[verifier::loop_isolation(false)]
    fn fuzz_one<E: Executor>(
        &mut self,
        rand: &mut StdRand,
        state: &mut StdState<E>,
        corpus: &mut InMemoryCorpus,
        events: &mut SimpleEventManager,
    ) -> Result<usize, Error> {
        proof {
            lemma_pending_extended_refl(old(events).pending());
            crate::corpus::lemma_entries_extended_refl(old(corpus).spec_entries());
        }
        let next_result = corpus.next(rand);
        let idx = match next_result {
            Result::Ok(idx) => idx,
            Result::Err(e) => {
                return Err(e);
            },
        };
        if corpus.get(idx).input().is_none() {
            // Page the testcase in; an in-memory corpus cannot, so this
            // reports the missing input.
            match corpus.load_testcase(idx) {
                Result::Ok(()) => {},
                Result::Err(e) => {
                    return Err(e);
                },
            }
        }
        let input = match corpus.get(idx).input() {
            Option::Some(input) => input.clone(),
            Option::None => {
                return Err(Error::Empty);
            },
        };
        let n = self.stages.len();
        let mut s: usize = 0;
        while s < n
            invariant
                s <= n,
                n == self.stages@.len(),
                self.stages@ == old(self).spec_stage_list(),
                state.wf(),
                state.spec_start_time() == old(state).spec_start_time(),
                old(state).spec_executions() <= state.spec_executions(),
                feedbacks_same_config(old(state).spec_feedbacks(), state.spec_feedbacks()),
                metas_same_names(old(state).spec_metadatas(), state.spec_metadatas()),
                metas_monotone(old(state).spec_metadatas(), state.spec_metadatas()),
                crate::corpus::entries_extended(old(corpus).spec_entries(), corpus.spec_entries()),
                pending_extended(old(events).pending(), events.pending()),
            decreases n - s,
        {
            let ghost corpus_before = corpus.spec_entries();
            let ghost pending_before = events.pending();
            let ghost metas_before = state.spec_metadatas();
            let ghost stages_before = self.stages@;
            let stage = stage_at_mut(&mut self.stages, s);
            let performed = stage.perform(rand, state, corpus, events, &input);
            proof {
                assert(self.stages@ =~= stages_before);
                crate::corpus::lemma_entries_extended_trans(
                    old(corpus).spec_entries(),
                    corpus_before,
                    corpus.spec_entries(),
                );
                lemma_pending_extended_trans(
                    old(events).pending(),
                    pending_before,
                    events.pending(),
                );
                lemma_metas_monotone_trans(
                    old(state).spec_metadatas(),
                    metas_before,
                    state.spec_metadatas(),
                );
            }
            match performed {
                Result::Ok(()) => {},
                Result::Err(e) => {
                    return Err(e);
                },
            }
            s = s + 1;
        }
        Ok(idx)
    }
}

/// Loads `num` generated seeds through the full pipeline, announcing each
/// one with a seed-loaded event.
pub fn generate_initial_inputs<E: Executor, G: Generator>(
    rand: &mut StdRand,
    state: &mut StdState<E>,
    corpus: &mut InMemoryCorpus,
    generator: &mut G,
    events: &mut SimpleEventManager,
    num: usize,
) -> (r: Result<(), Error>)
    requires
        old(state).wf(),
    ensures
        final(state).wf(),
        final(state).spec_start_time() == old(state).spec_start_time(),
        old(state).spec_executions() <= final(state).spec_executions(),
        feedbacks_same_config(old(state).spec_feedbacks(), final(state).spec_feedbacks()),
        metas_same_names(old(state).spec_metadatas(), final(state).spec_metadatas()),
        metas_monotone(old(state).spec_metadatas(), final(state).spec_metadatas()),
        final(corpus).spec_scheduler() == old(corpus).spec_scheduler(),
        crate::corpus::entries_extended(old(corpus).spec_entries(), final(corpus).spec_entries()),
        final(corpus).spec_entries().len() <= old(corpus).spec_entries().len() + num,
        pending_extended(old(events).pending(), final(events).pending()),
        num == 0 ==> r is Ok,
        r is Ok ==> forall|i: int|
            0 <= i < num ==> #[trigger] crate::events::pending_has_load_event(
                final(events).pending(),
                i,
            ),
{
    proof {
        lemma_pending_extended_refl(old(events).pending());
        crate::corpus::lemma_entries_extended_refl(old(corpus).spec_entries());
    }
    let mut i: usize = 0;
    #[verifier::loop_isolation(false)]
    while i < num
        invariant
            i <= num,
            state.wf(),
            state.spec_start_time() == old(state).spec_start_time(),
            old(state).spec_executions() <= state.spec_executions(),
            feedbacks_same_config(old(state).spec_feedbacks(), state.spec_feedbacks()),
            metas_same_names(old(state).spec_metadatas(), state.spec_metadatas()),
            metas_monotone(old(state).spec_metadatas(), state.spec_metadatas()),
            corpus.spec_scheduler() == old(corpus).spec_scheduler(),
            crate::corpus::entries_extended(old(corpus).spec_entries(), corpus.spec_entries()),
            corpus.spec_entries().len() <= old(corpus).spec_entries().len() + i,
            pending_extended(old(events).pending(), events.pending()),
            forall|i2: int|
                0 <= i2 < i ==> #[trigger] crate::events::pending_has_load_event(
                    events.pending(),
                    i2,
                ),
        decreases num - i,
    {
        let ghost corpus_before = corpus.spec_entries();
        let ghost pending_before = events.pending();
        let ghost metas_before = state.spec_metadatas();
        let input = match generator.generate(rand) {
            Result::Ok(input) => input,
            Result::Err(e) => {
                return Err(e);
            },
        };
        let added = state.add_input(corpus, events, input);
        let ghost pending_mid = events.pending();
        let fired = events.fire(Event::LoadInitial { index: i });
        proof {
            assert(events.pending().subrange(0, pending_mid.len() as int) =~= pending_mid);
            crate::corpus::lemma_entries_extended_trans(
                old(corpus).spec_entries(),
                corpus_before,
                corpus.spec_entries(),
            );
            lemma_pending_extended_trans(pending_before, pending_mid, events.pending());
            lemma_pending_extended_trans(old(events).pending(), pending_before, events.pending());
            lemma_metas_monotone_trans(
                old(state).spec_metadatas(),
                metas_before,
                state.spec_metadatas(),
            );
            assert forall|i2: int|
                0 <= i2 < i + 1 implies crate::events::pending_has_load_event(
                events.pending(),
                i2,
            ) by {
                if i2 == i {
                    assert(events.pending()[events.pending().len() - 1] == (Event::LoadInitial {
                        index: i as usize,
                    }));
                } else {
                    assert(crate::events::pending_has_load_event(pending_before, i2));
                    let p = choose|p: int|
                        0 <= p < pending_before.len() && #[trigger] pending_before[p]
                            == (Event::LoadInitial { index: i2 as usize });
                    crate::events::lemma_pending_extended_element(
                        pending_before,
                        pending_mid,
                        p,
                    );
                    assert(events.pending()[p] == pending_before[p]);
                }
            }
        }
        match added {
            Result::Ok(()) => {},
            Result::Err(e) => {
                return Err(e);
            },
        }
        match fired {
            Result::Ok(()) => {},
            Result::Err(e) => {
                return Err(e);
            },
        }
        i = i + 1;
    }
    Ok(())
}

/// The interval between two periodic statistics events, in milliseconds.
pub const STATS_INTERVAL_MS: u64 = 6000;

/// Whether a periodic statistics event is due, given the last time one was
/// fired and the clock's current reading.
pub fn stats_due(last_ms: u64, cur_ms: u64) -> (r: bool)
    ensures
        r == (cur_ms > last_ms && cur_ms - last_ms > STATS_INTERVAL_MS),
{
    if cur_ms > last_ms {
        cur_ms - last_ms > STATS_INTERVAL_MS
    } else {
        false
    }
}

/// `metas_monotone` is reflexive.
pub proof fn lemma_metas_monotone_refl(s: Seq<NamedMetadata>)
    ensures
        metas_monotone(s, s),
{
}

/// A step that only grows each entry's history in place (values at
/// existing indices preserved) is monotone.
pub proof fn lemma_metas_grow_only_monotone(s1: Seq<NamedMetadata>, s2: Seq<NamedMetadata>)
    requires
        s2.len() == s1.len(),
        forall|l: int|
            0 <= l < s1.len() ==> match (s1[l].value, (#[trigger] s2[l]).value) {
                (StateMetadataValue::MapFeedback(a), StateMetadataValue::MapFeedback(b)) => {
                    &&& a.history_map@.len() <= b.history_map@.len()
                    &&& forall|i: int|
                        0 <= i < a.history_map@.len() ==> b.history_map@[i] == a.history_map@[i]
                },
            },
    ensures
        metas_monotone(s1, s2),
{
}

} // verus!
