//! Feedbacks and their dispatch.
//!
//! A feedback inspects the observers after one execution and decides how
//! interesting the input was.  The pipeline holds a list of [`Feedback`]
//! values and invokes them in declaration order; a map feedback resolves
//! its observer and its history by name at call time.

use vstd::prelude::*;

use crate::corpus::Testcase;
use crate::engines::{NamedMetadata, StateMetadataValue};
use crate::events::{
    lemma_pending_extended_refl, pending_extended, AggregatorOps, Event, SimpleEventManager,
    UserStatsValue,
};
use crate::executors::ExitKind;
use crate::inputs::BytesInput;
use crate::map_observer::CustomMapObserver;
use crate::max_map_feedback::{
    cell_novel, exact_index_list, grown_to, spec_has_novelty, CustomMaxMapFeedback,
    reduced_history, DifferentIsNovel, MapFeedbackMetadata, MaxReducer,
};
use crate::observer::Observer;
use crate::Error;

verus! {

/// `j` is the first index of `obs` bearing `name`.
pub open spec fn first_named_obs(obs: Seq<Observer>, name: Seq<char>, j: int) -> bool {
    &&& 0 <= j < obs.len()
    &&& obs[j].name_of() == name
    &&& forall|k: int| 0 <= k < j ==> obs[k].name_of() != name
}

/// `j` is the first index of `metas` bearing `name`.
pub open spec fn first_named_meta(metas: Seq<NamedMetadata>, name: Seq<char>, j: int) -> bool {
    &&& 0 <= j < metas.len()
    &&& metas[j].name@ == name
    &&& forall|k: int| 0 <= k < j ==> metas[k].name@ != name
}

/// At most one index is the first bearer of a name.
pub proof fn lemma_first_named_obs_unique(obs: Seq<Observer>, name: Seq<char>, j1: int, j2: int)
    requires
        first_named_obs(obs, name, j1),
        first_named_obs(obs, name, j2),
    ensures
        j1 == j2,
{
}

/// At most one index is the first bearer of a name.
pub proof fn lemma_first_named_meta_unique(
    metas: Seq<NamedMetadata>,
    name: Seq<char>,
    j1: int,
    j2: int,
)
    requires
        first_named_meta(metas, name, j1),
        first_named_meta(metas, name, j2),
    ensures
        j1 == j2,
{
}

/// Resolves `name` to the map observer that first bears it.  `None` when no
/// observer bears the name, or the first bearer is not a map observer.
pub fn find_map_observer<'a>(observers: &'a Vec<Observer>, name: &String) -> (r: Option<
    &'a CustomMapObserver,
>)
    ensures
        match r {
            Some(o) => exists|j: int|
                #[trigger] first_named_obs(observers@, name@, j) && observers@[j]
                    == Observer::MapObserver(*o),
            None => forall|j: int|
                #[trigger] first_named_obs(observers@, name@, j) ==> !(observers@[j]
                    is MapObserver),
        },
{
    let n = observers.len();
    let mut i: usize = 0;
    while i < n
        invariant
            i <= n,
            n == observers@.len(),
            forall|k: int| 0 <= k < i ==> observers@[k].name_of() != name@,
        decreases n - i,
    {
        if *observers[i].name() == *name {
            match &observers[i] {
                Observer::MapObserver(o) => {
                    proof {
                        assert(first_named_obs(observers@, name@, i as int));
                    }
                    return Some(o);
                },
                Observer::Plain(_) => {
                    proof {
                        assert(first_named_obs(observers@, name@, i as int));
                        assert forall|j: int|
                            first_named_obs(observers@, name@, j) implies !(observers@[j]
                            is MapObserver) by {
                            lemma_first_named_obs_unique(observers@, name@, j, i as int);
                        }
                    }
                    return None;
                },
            }
        }
        i = i + 1;
    }
    None
}

/// Resolves `name` to the index of the first metadata entry bearing it.
pub fn find_named_meta_idx(metadatas: &Vec<NamedMetadata>, name: &String) -> (r: Option<usize>)
    ensures
        match r {
            Some(j) => first_named_meta(metadatas@, name@, j as int),
            None => forall|k: int| 0 <= k < metadatas@.len() ==> metadatas@[k].name@ != name@,
        },
{
    let n = metadatas.len();
    let mut i: usize = 0;
    while i < n
        invariant
            i <= n,
            n == metadatas@.len(),
            forall|k: int| 0 <= k < i ==> metadatas@[k].name@ != name@,
        decreases n - i,
    {
        if metadatas[i].name == *name {
            return Some(i);
        }
        i = i + 1;
    }
    None
}

/// The metadata entry at `i`, mutable.
pub(crate) fn meta_slot_mut<'a>(metadatas: &'a mut Vec<NamedMetadata>, i: usize) -> (element:
    &'a mut NamedMetadata)
    requires
        i < old(metadatas)@.len(),
    ensures
        *element == old(metadatas)@[i as int],
        final(metadatas)@ == old(metadatas)@.update(i as int, *final(element)),
{
    &mut metadatas[i]
}

/// A feedback that finds every input interesting, whatever was observed.
#[derive(Clone, Debug)]
pub struct CustomFeedback {
    name: String,
}

impl CustomFeedback {
    /// The feedback's name.
    pub closed spec fn name_spec(&self) -> Seq<char> {
        self.name@
    }

    /// Creates an always-interested feedback.
    pub fn new(name: &'static str) -> (r: Self)
        ensures
            r.name_spec() == name@,
    {
        CustomFeedback { name: name.to_owned() }
    }

    /// The feedback's name.
    pub fn name(&self) -> (r: &String)
        ensures
            r@ == self.name_spec(),
    {
        &self.name
    }
}

/// A feedback that finds an input interesting exactly when the target
/// crashed on it; it feeds the crash corpus.
#[derive(Clone, Debug)]
pub struct CrashFeedback {
    _private: bool,
}

impl CrashFeedback {
    /// Creates a crash feedback.
    pub fn new() -> Self {
        CrashFeedback { _private: false }
    }
}

/// A feedback that finds an input interesting exactly when the executor
/// timed the target out.
#[derive(Clone, Debug)]
pub struct TimeoutFeedback {
    _private: bool,
}

impl TimeoutFeedback {
    /// Creates a timeout feedback.
    pub fn new() -> Self {
        TimeoutFeedback { _private: false }
    }
}

/// One feedback of the pipeline.
#[derive(Debug)]
pub enum Feedback {
    /// The AFL-style coverage feedback.
    MaxMap(CustomMaxMapFeedback),
    /// Always interested.
    Always(CustomFeedback),
    /// Interested in crashes.
    Crash(CrashFeedback),
    /// Interested in timeouts.
    Timeout(TimeoutFeedback),
}

/// Every map observer in the list uses zero as its initial value.  The
/// observers this crate builds always do; the pipeline's invariants are
/// stated against it.
pub open spec fn observers_zero_initial(obs: Seq<Observer>) -> bool {
    forall|j: int|
        0 <= j < obs.len() ==> match #[trigger] obs[j] {
            Observer::MapObserver(o) => o.initial_spec() == 0u8,
            Observer::Plain(_) => true,
        }
}

/// Every history map in the metadata list agrees with its covered counter,
/// against initial value zero.
pub open spec fn metas_agree(metas: Seq<NamedMetadata>) -> bool {
    forall|l: int|
        0 <= l < metas.len() ==> match (#[trigger] metas[l]).value {
            StateMetadataValue::MapFeedback(ms) => ms.agrees(0u8),
        }
}

/// The history entry `b` is `a` grown in place with untouched (zero)
/// cells: values at existing indices kept, the covered counter unchanged.
pub open spec fn entry_grown_zero(a: MapFeedbackMetadata, b: MapFeedbackMetadata) -> bool {
    &&& b.history_map@ == grown_to(a.history_map@, b.history_map@.len() as int, 0u8)
    &&& b.num_covered_map_indexes == a.num_covered_map_indexes
}

/// Every entry of `after` is the matching entry of `before`, possibly
/// grown with zero padding; names unchanged.  The shape an interesting
/// check leaves the metadata map in.
pub open spec fn metas_grown_zero(before: Seq<NamedMetadata>, after: Seq<NamedMetadata>) -> bool {
    &&& after.len() == before.len()
    &&& forall|l: int| 0 <= l < before.len() ==> (#[trigger] after[l]).name@ == before[l].name@
    &&& forall|l: int|
        0 <= l < before.len() ==> match (before[l].value, (#[trigger] after[l]).value) {
            (StateMetadataValue::MapFeedback(a), StateMetadataValue::MapFeedback(b)) => {
                entry_grown_zero(a, b)
            },
        }
}

/// Zero-padded growth is reflexive.
pub proof fn lemma_metas_grown_zero_refl(s: Seq<NamedMetadata>)
    ensures
        metas_grown_zero(s, s),
{
}

/// Zero-padded growth composes.
pub proof fn lemma_metas_grown_zero_trans(
    s1: Seq<NamedMetadata>,
    s2: Seq<NamedMetadata>,
    s3: Seq<NamedMetadata>,
)
    requires
        metas_grown_zero(s1, s2),
        metas_grown_zero(s2, s3),
    ensures
        metas_grown_zero(s1, s3),
{
    assert forall|l: int| 0 <= l < s1.len() implies match (s1[l].value, (#[trigger] s3[l]).value) {
        (StateMetadataValue::MapFeedback(a), StateMetadataValue::MapFeedback(b)) => {
            entry_grown_zero(a, b)
        },
    } by {
        match (s1[l].value, s2[l].value, s3[l].value) {
            (
                StateMetadataValue::MapFeedback(a),
                StateMetadataValue::MapFeedback(b),
                StateMetadataValue::MapFeedback(c),
            ) => {
                assert(c.history_map@ =~= grown_to(
                    a.history_map@,
                    c.history_map@.len() as int,
                    0u8,
                ));
            },
        }
    }
}

/// What one feedback would answer, given the metadata map, the observers'
/// current contents and the run's exit kind; `None` when its references do
/// not resolve.
pub open spec fn spec_verdict(
    fb: Feedback,
    metas: Seq<NamedMetadata>,
    obs: Seq<Observer>,
    ek: ExitKind,
) -> Option<u32> {
    match fb {
        Feedback::MaxMap(f) => {
            if exists|j: int| #[trigger] first_named_obs(obs, f.map_ref_spec(), j) {
                let j = choose|j: int| first_named_obs(obs, f.map_ref_spec(), j);
                if exists|l: int| #[trigger] first_named_meta(metas, f.name_spec(), l) {
                    let l = choose|l: int| first_named_meta(metas, f.name_spec(), l);
                    match (obs[j], metas[l].value) {
                        (Observer::MapObserver(o), StateMetadataValue::MapFeedback(ms)) => {
                            let init = o.initial_spec();
                            let h = grown_to(ms.history_map@, o@.len() as int, init);
                            Some(
                                if spec_has_novelty::<MaxReducer, DifferentIsNovel>(o@, h, init) {
                                    1u32
                                } else {
                                    0u32
                                },
                            )
                        },
                        _ => None,
                    }
                } else {
                    None
                }
            } else {
                None
            }
        },
        Feedback::Always(_) => Some(1u32),
        Feedback::Crash(_) => Some(
            if ek == ExitKind::Crash {
                1u32
            } else {
                0u32
            },
        ),
        Feedback::Timeout(_) => Some(
            if ek == ExitKind::Timeout {
                1u32
            } else {
                0u32
            },
        ),
    }
}

/// The feedback's references resolve against these observers and this
/// metadata map: a map feedback needs the first observer bearing its
/// reference to be a map observer, and a history entry under its own name;
/// other feedbacks reference nothing.  This depends only on names and
/// variants, never on cell contents.
pub open spec fn spec_resolvable(fb: Feedback, metas: Seq<NamedMetadata>, obs: Seq<Observer>) -> bool {
    match fb {
        Feedback::MaxMap(f) => {
            &&& (exists|j: int|
                #[trigger] first_named_obs(obs, f.map_ref_spec(), j) && obs[j] is MapObserver)
            &&& (exists|l: int| #[trigger] first_named_meta(metas, f.name_spec(), l))
        },
        _ => true,
    }
}

/// A feedback has a verdict exactly when its references resolve.
pub proof fn lemma_verdict_resolvable(
    fb: Feedback,
    metas: Seq<NamedMetadata>,
    obs: Seq<Observer>,
    ek: ExitKind,
)
    ensures
        (spec_verdict(fb, metas, obs, ek) is Some) == spec_resolvable(fb, metas, obs),
{
    match fb {
        Feedback::MaxMap(f) => {
            if exists|j: int| #[trigger] first_named_obs(obs, f.map_ref_spec(), j) {
                let jc = choose|j: int| first_named_obs(obs, f.map_ref_spec(), j);
                if spec_resolvable(fb, metas, obs) {
                    let jr = choose|j: int|
                        first_named_obs(obs, f.map_ref_spec(), j) && obs[j] is MapObserver;
                    lemma_first_named_obs_unique(obs, f.map_ref_spec(), jc, jr);
                }
            }
        },
        _ => {},
    }
}

/// Resolvability depends only on the names of the metadata entries and the
/// names and variants of the observers.
pub proof fn lemma_resolvable_same_shape(
    fb: Feedback,
    metas1: Seq<NamedMetadata>,
    metas2: Seq<NamedMetadata>,
    obs1: Seq<Observer>,
    obs2: Seq<Observer>,
)
    requires
        metas2.len() == metas1.len(),
        forall|l: int| 0 <= l < metas1.len() ==> (#[trigger] metas2[l]).name@ == metas1[l].name@,
        obs2.len() == obs1.len(),
        forall|j: int| 0 <= j < obs1.len() ==> (#[trigger] obs2[j]).name_of() == obs1[j].name_of(),
        forall|j: int|
            0 <= j < obs1.len() ==> ((obs2[j] is MapObserver) <==> (#[trigger] obs1[j])
                is MapObserver),
    ensures
        spec_resolvable(fb, metas2, obs2) == spec_resolvable(fb, metas1, obs1),
{
    match fb {
        Feedback::MaxMap(f) => {
            assert forall|j: int|
                first_named_obs(obs1, f.map_ref_spec(), j) implies first_named_obs(
                obs2,
                f.map_ref_spec(),
                j,
            ) by {
                assert forall|k: int| 0 <= k < j implies obs2[k].name_of()
                    != f.map_ref_spec() by {
                    assert(obs2[k].name_of() == obs1[k].name_of());
                }
                assert(obs2[j].name_of() == obs1[j].name_of());
            }
            assert forall|j: int|
                first_named_obs(obs2, f.map_ref_spec(), j) implies first_named_obs(
                obs1,
                f.map_ref_spec(),
                j,
            ) by {
                assert forall|k: int| 0 <= k < j implies obs1[k].name_of()
                    != f.map_ref_spec() by {
                    assert(obs2[k].name_of() == obs1[k].name_of());
                }
                assert(obs2[j].name_of() == obs1[j].name_of());
            }
            assert forall|l: int|
                first_named_meta(metas1, f.name_spec(), l) implies first_named_meta(
                metas2,
                f.name_spec(),
                l,
            ) by {
                assert forall|k: int| 0 <= k < l implies metas2[k].name@ != f.name_spec() by {
                    assert(metas2[k].name@ == metas1[k].name@);
                }
                assert(metas2[l].name@ == metas1[l].name@);
            }
            assert forall|l: int|
                first_named_meta(metas2, f.name_spec(), l) implies first_named_meta(
                metas1,
                f.name_spec(),
                l,
            ) by {
                assert forall|k: int| 0 <= k < l implies metas1[k].name@ != f.name_spec() by {
                    assert(metas2[k].name@ == metas1[k].name@);
                }
                assert(metas2[l].name@ == metas1[l].name@);
            }
        },
        _ => {},
    }
}

/// The fitness a feedback list accumulates: every feedback contributes its
/// verdict (an unresolvable one contributes nothing; the pipeline stops on
/// it anyway).
pub open spec fn spec_total_fitness(
    fbs: Seq<Feedback>,
    metas: Seq<NamedMetadata>,
    obs: Seq<Observer>,
    ek: ExitKind,
) -> int
    decreases fbs.len(),
{
    if fbs.len() == 0 {
        0
    } else {
        (match spec_verdict(fbs[0], metas, obs, ek) {
            Some(v) => v as int,
            None => 0,
        }) + spec_total_fitness(fbs.subrange(1, fbs.len() as int), metas, obs, ek)
    }
}

/// The total over a list with one feedback appended.
pub proof fn lemma_total_fitness_snoc(
    fbs: Seq<Feedback>,
    fb: Feedback,
    metas: Seq<NamedMetadata>,
    obs: Seq<Observer>,
    ek: ExitKind,
)
    ensures
        spec_total_fitness(fbs.push(fb), metas, obs, ek) == spec_total_fitness(
            fbs,
            metas,
            obs,
            ek,
        ) + (match spec_verdict(fb, metas, obs, ek) {
            Some(v) => v as int,
            None => 0,
        }),
    decreases fbs.len(),
{
    reveal_with_fuel(spec_total_fitness, 3);
    if fbs.len() == 0 {
        assert(fbs.push(fb)[0] == fb);
        assert(fbs.push(fb).subrange(1, 1) =~= Seq::<Feedback>::empty());
    } else {
        assert(fbs.push(fb)[0] == fbs[0]);
        assert(fbs.push(fb).subrange(1, fbs.len() as int + 1) =~= fbs.subrange(
            1,
            fbs.len() as int,
        ).push(fb));
        lemma_total_fitness_snoc(fbs.subrange(1, fbs.len() as int), fb, metas, obs, ek);
    }
}

/// A feedback's verdict is unchanged by zero-padded growth of the metadata
/// map, when the observers use zero as their initial value: growing a
/// history adds only untouched cells, which decide nothing.
pub proof fn lemma_verdict_stable_under_growth(
    fb: Feedback,
    metas1: Seq<NamedMetadata>,
    metas2: Seq<NamedMetadata>,
    obs: Seq<Observer>,
    ek: ExitKind,
)
    requires
        metas_grown_zero(metas1, metas2),
        observers_zero_initial(obs),
    ensures
        spec_verdict(fb, metas2, obs, ek) == spec_verdict(fb, metas1, obs, ek),
{
    match fb {
        Feedback::MaxMap(f) => {
            assert forall|l: int| first_named_meta(metas2, f.name_spec(), l) implies
                first_named_meta(metas1, f.name_spec(), l) by {
                assert forall|k: int| 0 <= k < l implies metas1[k].name@ != f.name_spec() by {
                    assert(metas2[k].name@ == metas1[k].name@);
                }
                assert(metas1[l].name@ == metas2[l].name@);
            }
            assert forall|l: int| first_named_meta(metas1, f.name_spec(), l) implies
                first_named_meta(metas2, f.name_spec(), l) by {
                assert forall|k: int| 0 <= k < l implies metas2[k].name@ != f.name_spec() by {
                    assert(metas2[k].name@ == metas1[k].name@);
                }
                assert(metas2[l].name@ == metas1[l].name@);
            }
            if exists|j: int| #[trigger] first_named_obs(obs, f.map_ref_spec(), j) {
                let j = choose|j: int| first_named_obs(obs, f.map_ref_spec(), j);
                if exists|l: int| #[trigger] first_named_meta(metas1, f.name_spec(), l) {
                    let l1 = choose|l: int| first_named_meta(metas1, f.name_spec(), l);
                    let l2 = choose|l: int| first_named_meta(metas2, f.name_spec(), l);
                    lemma_first_named_meta_unique(metas1, f.name_spec(), l1, l2);
                    match (obs[j], metas1[l1].value, metas2[l1].value) {
                        (
                            Observer::MapObserver(o),
                            StateMetadataValue::MapFeedback(ms1),
                            StateMetadataValue::MapFeedback(ms2),
                        ) => {
                            let h1 = grown_to(ms1.history_map@, o@.len() as int, o.initial_spec());
                            let h2 = grown_to(ms2.history_map@, o@.len() as int, o.initial_spec());
                            assert(o.initial_spec() == 0u8);
                            assert forall|i: int| 0 <= i < o@.len() implies h1[i] == h2[i] by {
                                crate::max_map_feedback::lemma_grown_to_count(
                                    ms1.history_map@,
                                    o@.len() as int,
                                    0u8,
                                );
                                crate::max_map_feedback::lemma_grown_to_count(
                                    ms2.history_map@,
                                    o@.len() as int,
                                    0u8,
                                );
                                crate::max_map_feedback::lemma_grown_to_count(
                                    ms1.history_map@,
                                    ms2.history_map@.len() as int,
                                    0u8,
                                );
                            }
                            crate::max_map_feedback::lemma_has_novelty_same_cells::<
                                MaxReducer,
                                DifferentIsNovel,
                            >(o@, h1, h2, 0u8);
                        },
                        _ => {},
                    }
                }
            }
        },
        _ => {},
    }
}

/// `e` is a freshly installed map-feedback entry under `name`: an empty
/// history and a zero covered counter.
pub open spec fn empty_map_entry(e: NamedMetadata, name: Seq<char>) -> bool {
    &&& e.name@ == name
    &&& match e.value {
        StateMetadataValue::MapFeedback(ms) => ms.history_map@.len() == 0
            && ms.num_covered_map_indexes == 0,
    }
}

impl Feedback {
    /// The feedback's configuration is unchanged between two versions; only
    /// a map feedback carries mutable scratch state besides it.
    pub open spec fn same_config(&self, other: &Feedback) -> bool {
        match (self, other) {
            (Feedback::MaxMap(a), Feedback::MaxMap(b)) => a.same_config(b),
            (Feedback::Always(a), Feedback::Always(b)) => a == b,
            (Feedback::Crash(a), Feedback::Crash(b)) => a == b,
            (Feedback::Timeout(a), Feedback::Timeout(b)) => a == b,
            _ => false,
        }
    }

    /// Installs the feedback's initial state-level metadata: a map feedback
    /// registers an empty history under its name, replacing any earlier
    /// entry of that name; other feedbacks keep no state.
    pub fn init_state(&self, metadatas: &mut Vec<NamedMetadata>)
        ensures
            match self {
                Feedback::MaxMap(f) => {
                    &&& (forall|l: int|
                        0 <= l < old(metadatas)@.len() && !first_named_meta(
                            old(metadatas)@,
                            f.name_spec(),
                            l,
                        ) ==> final(metadatas)@[l] == old(metadatas)@[l])
                    &&& (forall|l: int|
                        first_named_meta(old(metadatas)@, f.name_spec(), l) ==> final(metadatas)@.len() == old(metadatas)@.len() && empty_map_entry(
                            final(metadatas)@[l],
                            f.name_spec(),
                        ))
                    &&& ((forall|k: int|
                        0 <= k < old(metadatas)@.len() ==> old(metadatas)@[k].name@
                            != f.name_spec()) ==> final(metadatas)@.len() == old(metadatas)@.len()
                        + 1 && final(metadatas)@.subrange(0, old(metadatas)@.len() as int) == old(metadatas)@ && empty_map_entry(final(metadatas)@.last(), f.name_spec()))
                },
                _ => final(metadatas)@ == old(metadatas)@,
            },
            metas_agree(old(metadatas)@) ==> metas_agree(final(metadatas)@),
    {
        match self {
            Feedback::MaxMap(f) => {
                let empty = MapFeedbackMetadata::new(0);
                let entry = NamedMetadata {
                    name: f.name().clone(),
                    value: StateMetadataValue::MapFeedback(empty),
                };
                let found = find_named_meta_idx(metadatas, f.name());
                match found {
                    Some(l) => {
                        let slot = meta_slot_mut(metadatas, l);
                        *slot = entry;
                        proof {
                            assert forall|l2: int|
                                first_named_meta(
                                    old(metadatas)@,
                                    f.name_spec(),
                                    l2,
                                ) implies l2 == l as int by {
                                lemma_first_named_meta_unique(
                                    old(metadatas)@,
                                    f.name_spec(),
                                    l2,
                                    l as int,
                                );
                            }
                        }
                    },
                    None => {
                        metadatas.push(entry);
                        proof {
                            assert(final(metadatas)@.subrange(0, old(metadatas)@.len() as int)
                                =~= old(metadatas)@);
                        }
                    },
                }
            },
            _ => {},
        }
    }

    /// Decides how interesting the last execution was: a map feedback
    /// checks its observer's map for novelty against its history (growing
    /// the history but merging nothing), a crash or timeout feedback checks
    /// the exit kind, and the always-feedback is always interested.  Owes a
    /// verdict exactly when its references resolve.
    pub fn is_interesting(
        &mut self,
        metadatas: &mut Vec<NamedMetadata>,
        observers: &Vec<Observer>,
        _input: &BytesInput,
        exit_kind: &ExitKind,
    ) -> (r: Result<u32, Error>)
        ensures
            final(self).same_config(old(self)),
            final(metadatas)@.len() == old(metadatas)@.len(),
            forall|l: int|
                0 <= l < old(metadatas)@.len() ==> (#[trigger] final(metadatas)@[l]).name@ == old(
                    metadatas,
                )@[l].name@,
            forall|l: int|
                0 <= l < old(metadatas)@.len() ==> (match (
                    old(metadatas)@[l].value,
                    (#[trigger] final(metadatas)@[l]).value,
                ) {
                    (StateMetadataValue::MapFeedback(a), StateMetadataValue::MapFeedback(b)) => {
                        &&& a.history_map@.len() <= b.history_map@.len()
                        &&& (forall|i: int|
                            0 <= i < a.history_map@.len() ==> b.history_map@[i]
                                == a.history_map@[i])
                        &&& b.num_covered_map_indexes == a.num_covered_map_indexes
                    },
                }),
            (match r {
                Ok(v) => v <= 1,
                Err(e) => e == Error::KeyNotFound,
            }),
            (observers_zero_initial(observers@) && metas_agree(old(metadatas)@) ==> metas_agree(
                final(metadatas)@,
            )),
            observers_zero_initial(observers@) ==> metas_grown_zero(
                old(metadatas)@,
                final(metadatas)@,
            ),
            (match r {
                Ok(v) => spec_verdict(*old(self), old(metadatas)@, observers@, *exit_kind)
                    == Some(v),
                Err(_) => spec_verdict(*old(self), old(metadatas)@, observers@, *exit_kind)
                    is None,
            }),
            (match *old(self) {
                Feedback::MaxMap(f) => {
                    &&& (r is Ok <==> ((exists|j: int|
                        #[trigger] first_named_obs(observers@, f.map_ref_spec(), j) && observers@[j]
                            is MapObserver) && (exists|l: int|
                        #[trigger] first_named_meta(old(metadatas)@, f.name_spec(), l))))
                    &&& (r is Err ==> *final(self) == *old(self) && final(metadatas)@ == old(metadatas)@)
                    &&& (r is Ok ==> (forall|j: int, l: int|
                        (first_named_obs(observers@, f.map_ref_spec(), j) && first_named_meta(
                            old(metadatas)@,
                            f.name_spec(),
                            l,
                        )) ==> (match (
                            observers@[j],
                            old(metadatas)@[l].value,
                            final(metadatas)@[l].value,
                        ) {
                            (
                                Observer::MapObserver(o),
                                StateMetadataValue::MapFeedback(ms0),
                                StateMetadataValue::MapFeedback(ms1),
                            ) => {
                                let init = o.initial_spec();
                                let h = grown_to(ms0.history_map@, o@.len() as int, init);
                                &&& ms1.history_map@ == h
                                &&& ms1.num_covered_map_indexes == ms0.num_covered_map_indexes
                                &&& r == Ok::<u32, Error>(
                                    if spec_has_novelty::<MaxReducer, DifferentIsNovel>(
                                        o@,
                                        h,
                                        init,
                                    ) {
                                        1u32
                                    } else {
                                        0u32
                                    },
                                )
                                &&& (forall|k: int|
                                    0 <= k < old(metadatas)@.len() && k != l ==> final(metadatas)@[k] == old(metadatas)@[k])
                                &&& final(metadatas)@[l].name@ == old(metadatas)@[l].name@
                                &&& (f.track_novelties_spec() ==> (match *final(self) {
                                    Feedback::MaxMap(f1) => (match f1.spec_novelties() {
                                        Some(list) => exact_index_list(
                                            list,
                                            o@.len() as int,
                                            |i: int|
                                                cell_novel::<MaxReducer, DifferentIsNovel>(
                                                    h[i],
                                                    o@[i],
                                                    init,
                                                ),
                                        ),
                                        None => false,
                                    }),
                                    _ => false,
                                }))
                            },
                            _ => false,
                        })))
                },
                Feedback::Always(_) => r == Ok::<u32, Error>(1u32) && final(metadatas)@ == old(metadatas)@ && *final(self) == *old(self),
                Feedback::Crash(_) => r == Ok::<u32, Error>(
                    if exit_kind == ExitKind::Crash {
                        1u32
                    } else {
                        0u32
                    },
                ) && final(metadatas)@ == old(metadatas)@ && *final(self) == *old(self),
                Feedback::Timeout(_) => r == Ok::<u32, Error>(
                    if exit_kind == ExitKind::Timeout {
                        1u32
                    } else {
                        0u32
                    },
                ) && final(metadatas)@ == old(metadatas)@ && *final(self) == *old(self),
            }),
    {
        match self {
            Feedback::MaxMap(f) => {
                let found_obs = find_map_observer(observers, f.observer_ref());
                let o = match found_obs {
                    Some(o) => o,
                    None => {
                        proof {
                            lemma_metas_grown_zero_refl(metadatas@);
                            if exists|j: int|
                                #[trigger] first_named_obs(observers@, f.map_ref_spec(), j) {
                                let jv = choose|j: int|
                                    first_named_obs(observers@, f.map_ref_spec(), j);
                                assert(!(observers@[jv] is MapObserver));
                            }
                        }
                        return Err(Error::KeyNotFound);
                    },
                };
                let found_meta = find_named_meta_idx(metadatas, f.name());
                let l = match found_meta {
                    Some(l) => l,
                    None => {
                        proof {
                            lemma_metas_grown_zero_refl(metadatas@);
                        }
                        return Err(Error::KeyNotFound);
                    },
                };
                let ghost j0 = choose|j: int|
                    #[trigger] first_named_obs(observers@, f.map_ref_spec(), j) && observers@[j]
                        == Observer::MapObserver(*o);
                let slot = meta_slot_mut(metadatas, l);
                let interesting;
                match &mut slot.value {
                    StateMetadataValue::MapFeedback(ms) => {
                        interesting = f.is_interesting_default(ms, o);
                    },
                }
                proof {
                    assert forall|j: int, l2: int|
                        (first_named_obs(observers@, f.map_ref_spec(), j) && first_named_meta(
                            old(metadatas)@,
                            f.name_spec(),
                            l2,
                        )) implies j == j0 && l2 == l as int by {
                        lemma_first_named_obs_unique(observers@, f.map_ref_spec(), j, j0);
                        lemma_first_named_meta_unique(
                            old(metadatas)@,
                            f.name_spec(),
                            l2,
                            l as int,
                        );
                    }
                    crate::max_map_feedback::lemma_grown_to_count(
                        (match old(metadatas)@[l as int].value {
                            StateMetadataValue::MapFeedback(ms0) => ms0,
                        }).history_map@,
                        o@.len() as int,
                        o.initial_spec(),
                    );
                    if observers_zero_initial(observers@) {
                        assert(o.initial_spec() == 0u8);
                        assert forall|l2: int|
                            0 <= l2 < old(metadatas)@.len() implies match (
                            old(metadatas)@[l2].value,
                            (#[trigger] metadatas@[l2]).value,
                        ) {
                            (
                                StateMetadataValue::MapFeedback(a),
                                StateMetadataValue::MapFeedback(b),
                            ) => entry_grown_zero(a, b),
                        } by {
                            match (old(metadatas)@[l2].value, metadatas@[l2].value) {
                                (
                                    StateMetadataValue::MapFeedback(a),
                                    StateMetadataValue::MapFeedback(b),
                                ) => {
                                    if l2 == l as int {
                                        crate::max_map_feedback::lemma_grown_to_count(
                                            a.history_map@,
                                            b.history_map@.len() as int,
                                            0u8,
                                        );
                                        assert(b.history_map@ =~= grown_to(
                                            a.history_map@,
                                            b.history_map@.len() as int,
                                            0u8,
                                        ));
                                    }
                                },
                            }
                        }
                    }
                    match *old(self) {
                        Feedback::MaxMap(f0) => {
                            assert(first_named_obs(observers@, f0.map_ref_spec(), j0));
                            let jv = choose|j: int|
                                first_named_obs(observers@, f0.map_ref_spec(), j);
                            lemma_first_named_obs_unique(
                                observers@,
                                f0.map_ref_spec(),
                                jv,
                                j0,
                            );
                            assert(first_named_meta(old(metadatas)@, f0.name_spec(), l as int));
                            let lv = choose|l2: int|
                                first_named_meta(old(metadatas)@, f0.name_spec(), l2);
                            lemma_first_named_meta_unique(
                                old(metadatas)@,
                                f0.name_spec(),
                                lv,
                                l as int,
                            );
                            assert(spec_verdict(
                                *old(self),
                                old(metadatas)@,
                                observers@,
                                *exit_kind,
                            ) == Some(
                                if interesting {
                                    1u32
                                } else {
                                    0u32
                                },
                            ));
                        },
                        _ => {},
                    }
                }
                if interesting {
                    Ok(1)
                } else {
                    Ok(0)
                }
            },
            Feedback::Always(_) => {
                proof {
                    lemma_metas_grown_zero_refl(metadatas@);
                }
                Ok(1)
            },
            Feedback::Crash(_) => {
                proof {
                    lemma_metas_grown_zero_refl(metadatas@);
                }
                if matches!(exit_kind, ExitKind::Crash) {
                    Ok(1)
                } else {
                    Ok(0)
                }
            },
            Feedback::Timeout(_) => {
                proof {
                    lemma_metas_grown_zero_refl(metadatas@);
                }
                if matches!(exit_kind, ExitKind::Timeout) {
                    Ok(1)
                } else {
                    Ok(0)
                }
            },
        }
    }

    /// Installs this feedback's metadata on a testcase that is being kept:
    /// a map feedback merges the observation into its history (the covered
    /// counter moves on every untouched-to-covered transition and keeps
    /// agreeing with the history), attaches the configured records, and
    /// reports the covered ratio; other feedbacks attach nothing.
    pub fn append_metadata(
        &mut self,
        metadatas: &mut Vec<NamedMetadata>,
        observers: &Vec<Observer>,
        manager: &mut SimpleEventManager,
        testcase: &mut Testcase,
    ) -> (r: Result<(), Error>)
        requires
            observers_zero_initial(observers@),
            metas_agree(old(metadatas)@),
        ensures
            final(self).same_config(old(self)),
            final(metadatas)@.len() == old(metadatas)@.len(),
            metas_agree(final(metadatas)@),
            forall|l: int|
                0 <= l < old(metadatas)@.len() ==> (#[trigger] final(metadatas)@[l]).name@ == old(
                    metadatas,
                )@[l].name@,
            forall|l: int|
                0 <= l < old(metadatas)@.len() ==> (match (
                    old(metadatas)@[l].value,
                    (#[trigger] final(metadatas)@[l]).value,
                ) {
                    (StateMetadataValue::MapFeedback(a), StateMetadataValue::MapFeedback(b)) => {
                        &&& a.history_map@.len() <= b.history_map@.len()
                        &&& (forall|i: int|
                            0 <= i < a.history_map@.len() && a.history_map@[i] != 0u8
                                ==> b.history_map@[i] != 0u8)
                    },
                }),
            final(testcase).spec_input() == old(testcase).spec_input(),
            final(testcase).spec_fitness() == old(testcase).spec_fitness(),
            pending_extended(old(manager).pending(), final(manager).pending()),
            (match r {
                Ok(_) => true,
                Err(e) => e == Error::KeyNotFound,
            }),
            (match *old(self) {
                Feedback::MaxMap(f) => {
                    &&& (r is Ok <==> ((exists|j: int|
                        #[trigger] first_named_obs(observers@, f.map_ref_spec(), j) && observers@[j]
                            is MapObserver) && (exists|l: int|
                        #[trigger] first_named_meta(old(metadatas)@, f.name_spec(), l))))
                    &&& (r is Err ==> *final(self) == *old(self) && final(metadatas)@ == old(metadatas)@ && *final(testcase) == *old(testcase) && final(manager).pending() == old(manager).pending())
                    &&& (r is Ok ==> (forall|j: int, l: int|
                        (first_named_obs(observers@, f.map_ref_spec(), j) && first_named_meta(
                            old(metadatas)@,
                            f.name_spec(),
                            l,
                        )) ==> (match (
                            observers@[j],
                            old(metadatas)@[l].value,
                            final(metadatas)@[l].value,
                        ) {
                            (
                                Observer::MapObserver(o),
                                StateMetadataValue::MapFeedback(ms0),
                                StateMetadataValue::MapFeedback(ms1),
                            ) => {
                                let init = o.initial_spec();
                                let h0 = grown_to(ms0.history_map@, o@.len() as int, init);
                                let h1 = reduced_history::<MaxReducer>(h0, o@, init);
                                &&& ms1.history_map@ == h1
                                &&& ms1.agrees(init)
                                &&& (forall|i: int|
                                    0 <= i < h0.len() && h0[i] != init ==> h1[i] != init)
                                &&& (forall|k: int|
                                    0 <= k < old(metadatas)@.len() && k != l ==> final(metadatas)@[k] == old(metadatas)@[k])
                                &&& final(metadatas)@[l].name@ == old(metadatas)@[l].name@
                                &&& (f.track_indices_spec() ==> (match final(testcase).spec_indexes_meta() {
                                    Some(meta) => exact_index_list(
                                        meta.list@,
                                        o@.len() as int,
                                        |i: int| o@[i] != init,
                                    ) && meta.tcref == 0,
                                    None => false,
                                }))
                                &&& (!f.track_indices_spec() ==> final(testcase).spec_indexes_meta() == old(testcase).spec_indexes_meta())
                                &&& (f.track_novelties_spec() ==> (match final(testcase).spec_novelties_meta() {
                                    Some(meta) => f.spec_novelties() == Some(meta.list@),
                                    None => false,
                                }))
                                &&& (!f.track_novelties_spec() ==> final(testcase).spec_novelties_meta() == old(testcase).spec_novelties_meta())
                                &&& ({
                                    let q0 = old(manager).pending();
                                    let q1 = final(manager).pending();
                                    &&& q1.len() == q0.len() + 1
                                    &&& q1.subrange(0, q0.len() as int) == q0
                                    &&& (match q1.last() {
                                        Event::UpdateUserStats { name, value, op } => {
                                            &&& name@ == f.stats_name_spec()
                                            &&& value == UserStatsValue::Ratio(
                                                ms1.num_covered_map_indexes as u64,
                                                ms1.history_map@.len() as u64,
                                            )
                                            &&& op == AggregatorOps::Avg
                                        },
                                        _ => false,
                                    })
                                })
                            },
                            _ => false,
                        })))
                },
                _ => r is Ok && *final(self) == *old(self) && final(metadatas)@ == old(metadatas)@ && *final(testcase) == *old(testcase) && final(manager).pending() == old(manager).pending(),
            }),
    {
        match self {
            Feedback::MaxMap(f) => {
                let found_obs = find_map_observer(observers, f.observer_ref());
                let o = match found_obs {
                    Some(o) => o,
                    None => {
                        proof {
                            lemma_pending_extended_refl(old(manager).pending());
                        }
                        return Err(Error::KeyNotFound);
                    },
                };
                let found_meta = find_named_meta_idx(metadatas, f.name());
                let l = match found_meta {
                    Some(l) => l,
                    None => {
                        proof {
                            lemma_pending_extended_refl(old(manager).pending());
                        }
                        return Err(Error::KeyNotFound);
                    },
                };
                let ghost j0 = choose|j: int|
                    #[trigger] first_named_obs(observers@, f.map_ref_spec(), j) && observers@[j]
                        == Observer::MapObserver(*o);
                proof {
                    assert(o.initial_spec() == 0u8);
                }
                let slot = meta_slot_mut(metadatas, l);
                let appended;
                match &mut slot.value {
                    StateMetadataValue::MapFeedback(ms) => {
                        appended = f.append_metadata(ms, o, manager, testcase);
                    },
                }
                proof {
                    assert forall|j: int, l2: int|
                        (first_named_obs(observers@, f.map_ref_spec(), j) && first_named_meta(
                            old(metadatas)@,
                            f.name_spec(),
                            l2,
                        )) implies j == j0 && l2 == l as int by {
                        lemma_first_named_obs_unique(observers@, f.map_ref_spec(), j, j0);
                        lemma_first_named_meta_unique(old(metadatas)@, f.name_spec(), l2, l as int);
                    }
                    crate::max_map_feedback::lemma_grown_to_count(
                        (match old(metadatas)@[l as int].value {
                            StateMetadataValue::MapFeedback(ms0) => ms0,
                        }).history_map@,
                        o@.len() as int,
                        o.initial_spec(),
                    );
                    lemma_pending_extended_refl(old(manager).pending());
                }
                appended
            },
            Feedback::Always(_) => {
                proof {
                    lemma_pending_extended_refl(old(manager).pending());
                }
                Ok(())
            },
            Feedback::Crash(_) => {
                proof {
                    lemma_pending_extended_refl(old(manager).pending());
                }
                Ok(())
            },
            Feedback::Timeout(_) => {
                proof {
                    lemma_pending_extended_refl(old(manager).pending());
                }
                Ok(())
            },
        }
    }

    /// Releases per-input scratch state on an input that is being
    /// discarded.  Touches neither the history metadata nor any corpus: it
    /// receives neither.
    pub fn discard_metadata(&mut self, input: &BytesInput) -> (r: Result<(), Error>)
        ensures
            r is Ok,
            final(self).same_config(old(self)),
            (match *old(self) {
                Feedback::MaxMap(_) => match *final(self) {
                    Feedback::MaxMap(f1) => f1.track_novelties_spec() ==> f1.spec_novelties()
                        == Some(Seq::<usize>::empty()),
                    _ => false,
                },
                _ => *final(self) == *old(self),
            }),
    {
        match self {
            Feedback::MaxMap(f) => f.discard_metadata(input),
            Feedback::Always(_) => Ok(()),
            Feedback::Crash(_) => Ok(()),
            Feedback::Timeout(_) => Ok(()),
        }
    }
}

} // verus!
