//! The map feedback: decides whether one execution's observation map is
//! novel against a persistent history map, and maintains that history.
//!
//! The feedback is parameterized by a [`Reducer`] (how a new cell value is
//! merged into history) and an [`IsNovel`] predicate (when the merge counts
//! as a new fact), and by two tracking flags that control which metadata is
//! attached to stored testcases.

use vstd::prelude::*;

use crate::corpus::{Testcase, TestcaseMetadata};
use crate::events::{AggregatorOps, Event, SimpleEventManager, UserStatsValue};
use crate::inputs::BytesInput;
use crate::map_observer::{
    all_initial, count_non_initial, lemma_count_non_initial_all_initial,
    lemma_count_non_initial_bounds, lemma_count_non_initial_push, lemma_count_non_initial_update,
    CustomMapObserver,
};
use crate::Error;

verus! {

/// Has a reference count.  Corpus minimization uses it to learn when a
/// metadata record is no longer cited by any corpus resident.
pub trait HasRefCnt {
    /// The current reference count.
    spec fn spec_refcnt(&self) -> isize;

    /// The reference count.
    fn refcnt(&self) -> (r: isize)
        ensures
            r == self.spec_refcnt(),
    ;

    /// The reference count, mutable.
    fn refcnt_mut(&mut self) -> (r: &mut isize)
        ensures
            *r == old(self).spec_refcnt(),
            final(self).spec_refcnt() == *final(r),
    ;
}

/// Testcase metadata listing the map indices that were non-initial in the
/// observation that made the testcase interesting.
#[derive(Clone, Debug, PartialEq, Eq)]
pub struct MapIndexesMetadata {
    /// The list of indices, in increasing order.
    pub list: Vec<usize>,
    /// How many corpus residents cite this record.
    pub tcref: isize,
}

impl MapIndexesMetadata {
    /// Creates a record over `list` with no citations yet.
    pub fn new(list: Vec<usize>) -> (r: Self)
        ensures
            r.list@ == list@,
            r.tcref == 0,
    {
        MapIndexesMetadata { list, tcref: 0 }
    }
}

impl HasRefCnt for MapIndexesMetadata {
    open spec fn spec_refcnt(&self) -> isize {
        self.tcref
    }

    fn refcnt(&self) -> isize {
        self.tcref
    }

    fn refcnt_mut(&mut self) -> &mut isize {
        &mut self.tcref
    }
}

/// Testcase metadata listing the map indices that were novel relative to
/// the history map when the testcase was stored.  Read-only afterwards.
#[derive(Clone, Debug, PartialEq, Eq)]
pub struct MapNoveltiesMetadata {
    /// The list of novel indices, in increasing order.
    pub list: Vec<usize>,
}

impl MapNoveltiesMetadata {
    /// Creates a record over `list`.
    pub fn new(list: Vec<usize>) -> (r: Self)
        ensures
            r.list@ == list@,
    {
        MapNoveltiesMetadata { list }
    }
}

/// `s2` appended to `s1` adds nothing to the count when `s2` is all
/// initial.
pub proof fn lemma_count_append_all_initial(s1: Seq<u8>, s2: Seq<u8>, init: u8)
    requires
        all_initial(s2, init),
    ensures
        count_non_initial(s1 + s2, init) == count_non_initial(s1, init),
    decreases s2.len(),
{
    if s2.len() == 0 {
        assert(s1 + s2 =~= s1);
    } else {
        assert((s1 + s2).drop_last() =~= s1 + s2.drop_last());
        assert(all_initial(s2.drop_last(), init));
        lemma_count_append_all_initial(s1, s2.drop_last(), init);
        assert((s1 + s2).last() == s2.last());
    }
}

/// The history map padded with `init` up to length `n` (unchanged when it
/// is already at least that long).
pub open spec fn grown_to(h: Seq<u8>, n: int, init: u8) -> Seq<u8> {
    if h.len() >= n {
        h
    } else {
        h + Seq::new((n - h.len()) as nat, |i: int| init)
    }
}

/// Growing preserves the covered count.
pub proof fn lemma_grown_to_count(h: Seq<u8>, n: int, init: u8)
    ensures
        count_non_initial(grown_to(h, n, init), init) == count_non_initial(h, init),
        grown_to(h, n, init).len() == if h.len() >= n {
            h.len() as int
        } else {
            n
        },
        forall|i: int| 0 <= i < h.len() ==> grown_to(h, n, init)[i] == h[i],
        forall|i: int| h.len() <= i < grown_to(h, n, init).len() ==> grown_to(h, n, init)[i] == init,
{
    if h.len() < n {
        lemma_count_append_all_initial(h, Seq::new((n - h.len()) as nat, |i: int| init), init);
    }
}

/// The persistent state of a map feedback: the history map and a counter of
/// its covered (non-initial) cells.
#[derive(Clone, Debug)]
pub struct MapFeedbackMetadata {
    /// The monotonic envelope of every observation seen so far.
    pub history_map: Vec<u8>,
    /// How many entries of `history_map` are non-initial.
    pub num_covered_map_indexes: usize,
}

impl MapFeedbackMetadata {
    /// The counter agrees with the history map, for initial value `init`.
    pub open spec fn agrees(&self, init: u8) -> bool {
        self.num_covered_map_indexes == count_non_initial(self.history_map@, init)
    }

    /// Creates a history of `map_size` untouched (zero) cells.
    pub fn new(map_size: usize) -> (r: Self)
        ensures
            r.history_map@.len() == map_size,
            all_initial(r.history_map@, 0u8),
            r.num_covered_map_indexes == 0,
            r.agrees(0u8),
    {
        let mut history_map: Vec<u8> = Vec::new();
        while history_map.len() < map_size
            invariant
                history_map@.len() <= map_size,
                all_initial(history_map@, 0u8),
            decreases map_size - history_map@.len(),
        {
            history_map.push(0);
        }
        proof {
            lemma_count_non_initial_all_initial(history_map@, 0u8);
        }
        MapFeedbackMetadata { history_map, num_covered_map_indexes: 0 }
    }

    /// Creates the state over an existing history map, counting its covered
    /// cells against `initial_elem_value`.
    pub fn with_history_map(history_map: Vec<u8>, initial_elem_value: u8) -> (r: Self)
        ensures
            r.history_map@ == history_map@,
            r.agrees(initial_elem_value),
    {
        let n = history_map.len();
        let mut covered: usize = 0;
        let mut i: usize = 0;
        while i < n
            invariant
                i <= n,
                n == history_map@.len(),
                covered <= i,
                covered == count_non_initial(
                    history_map@.subrange(0, i as int),
                    initial_elem_value,
                ),
            decreases n - i,
        {
            proof {
                assert(history_map@.subrange(0, i + 1) =~= history_map@.subrange(0, i as int).push(
                    history_map@[i as int],
                ));
                lemma_count_non_initial_push(
                    history_map@.subrange(0, i as int),
                    initial_elem_value,
                    history_map@[i as int],
                );
            }
            if history_map[i] != initial_elem_value {
                covered = covered + 1;
            }
            i = i + 1;
        }
        proof {
            assert(history_map@.subrange(0, n as int) =~= history_map@);
        }
        MapFeedbackMetadata { history_map, num_covered_map_indexes: covered }
    }

    /// Resets every history cell to the untouched (zero) value.
    pub fn reset(&mut self) -> (r: Result<(), Error>)
        ensures
            final(self).history_map@.len() == old(self).history_map@.len(),
            all_initial(final(self).history_map@, 0u8),
            final(self).num_covered_map_indexes == 0,
            final(self).agrees(0u8),
            r is Ok,
    {
        self.reset_with_value(0)
    }

    /// Resets every history cell to `value`.  The covered counter is reset
    /// to zero as well, so the counter agrees with the map only when `value`
    /// is the observer's initial value.
    pub fn reset_with_value(&mut self, value: u8) -> (r: Result<(), Error>)
        ensures
            final(self).history_map@.len() == old(self).history_map@.len(),
            forall|i: int|
                0 <= i < final(self).history_map@.len() ==> final(self).history_map@[i] == value,
            final(self).num_covered_map_indexes == 0,
            final(self).agrees(value),
            r is Ok,
    {
        let cnt = self.history_map.len();
        let mut i: usize = 0;
        while i < cnt
            invariant
                i <= cnt,
                cnt == self.history_map@.len(),
                forall|k: int| 0 <= k < i ==> self.history_map@[k] == value,
            decreases cnt - i,
        {
            self.history_map.set(i, value);
            i = i + 1;
        }
        self.num_covered_map_indexes = 0;
        proof {
            lemma_count_non_initial_all_initial(self.history_map@, value);
        }
        Ok(())
    }

    /// Grows the history map to `len` cells, padding with `init`; data-plane
    /// mismatches grow the history, never truncate it.
    pub fn grow_to(&mut self, len: usize, init: u8)
        ensures
            final(self).history_map@ == grown_to(old(self).history_map@, len as int, init),
            final(self).num_covered_map_indexes == old(self).num_covered_map_indexes,
            old(self).agrees(init) ==> final(self).agrees(init),
    {
        let ghost h0 = self.history_map@;
        while self.history_map.len() < len
            invariant
                h0.len() <= self.history_map@.len(),
                self.history_map@.len() <= len || self.history_map@.len() == h0.len(),
                forall|i: int| 0 <= i < h0.len() ==> self.history_map@[i] == h0[i],
                forall|i: int| h0.len() <= i < self.history_map@.len() ==> self.history_map@[i] == init,
                self.num_covered_map_indexes == old(self).num_covered_map_indexes,
            decreases len - self.history_map@.len(),
        {
            self.history_map.push(init);
        }
        proof {
            assert(self.history_map@ =~= grown_to(h0, len as int, init));
            lemma_grown_to_count(h0, len as int, init);
        }
    }
}

/// A reducer merges a new cell observation into the history cell.
pub trait Reducer {
    /// The mathematical reduction.
    spec fn spec_reduce(first: u8, second: u8) -> u8;

    /// Reduces two values to one.
    fn reduce(first: u8, second: u8) -> (r: u8)
        ensures
            r == Self::spec_reduce(first, second),
    ;

    /// The reduction selects one of its arguments.  History monotonicity —
    /// a covered cell never falls back to untouched — rests on this law.
    proof fn reduce_selects(first: u8, second: u8)
        ensures
            Self::spec_reduce(first, second) == first || Self::spec_reduce(first, second)
                == second,
    ;
}

/// Reduces by taking the larger value: the AFL-style "max of hitcounts".
#[derive(Clone, Debug)]
pub struct MaxReducer {}

impl Reducer for MaxReducer {
    open spec fn spec_reduce(first: u8, second: u8) -> u8 {
        if first > second {
            first
        } else {
            second
        }
    }

    fn reduce(first: u8, second: u8) -> u8 {
        if first > second {
            first
        } else {
            second
        }
    }

    proof fn reduce_selects(first: u8, second: u8) {
    }
}

/// Decides whether a reduction produced a new history fact.
pub trait IsNovel {
    /// The mathematical predicate.
    spec fn spec_is_novel(old_val: u8, new_val: u8) -> bool;

    /// Whether moving the history cell from `old_val` to `new_val` is a
    /// novelty.
    fn is_novel(old_val: u8, new_val: u8) -> (r: bool)
        ensures
            r == Self::spec_is_novel(old_val, new_val),
    ;
}

/// A reduction is novel exactly when it changed the history cell.
#[derive(Clone, Debug)]
pub struct DifferentIsNovel {}

impl IsNovel for DifferentIsNovel {
    open spec fn spec_is_novel(old_val: u8, new_val: u8) -> bool {
        old_val != new_val
    }

    fn is_novel(old_val: u8, new_val: u8) -> bool {
        old_val != new_val
    }
}

/// The Unicode lowercasing performed by `str::to_lowercase`: a function of
/// the characters alone.
pub uninterp spec fn lower_of(s: Seq<char>) -> Seq<char>;

/// The Unicode property tested by `char::is_lowercase`.
pub uninterp spec fn char_is_lowercase(c: char) -> bool;

/// Relies on `str::to_lowercase`: the result depends on the input
/// characters alone.
#[verifier::external_body]
fn lowercase(s: &str) -> (r: String)
    ensures
        r@ == lower_of(s@),
{
    s.to_lowercase()
}

/// Relies on `char::is_lowercase`: a pure Unicode property of the
/// character.
#[verifier::external_body]
fn is_lowercase_char(c: char) -> (r: bool)
    ensures
        r == char_is_lowercase(c),
{
    c.is_lowercase()
}

/// Every character of `s` is lowercase.
pub open spec fn spec_all_lowercase(s: Seq<char>) -> bool {
    forall|i: int| 0 <= i < s.len() ==> char_is_lowercase(s[i])
}

/// One cell is novel: the observation is non-initial and merging it into
/// the history cell would be a new fact.
pub open spec fn cell_novel<R: Reducer, N: IsNovel>(hist: u8, item: u8, init: u8) -> bool {
    item != init && N::spec_is_novel(hist, R::spec_reduce(hist, item))
}

/// The observation map `m` holds some novelty against the history `h`
/// (which must be at least as long as `m`).
pub open spec fn spec_has_novelty<R: Reducer, N: IsNovel>(m: Seq<u8>, h: Seq<u8>, init: u8) -> bool {
    exists|i: int| 0 <= i < m.len() && cell_novel::<R, N>(h[i], m[i], init)
}

/// `list` holds exactly the indices below `n` that satisfy `pred`, in
/// strictly increasing order.
pub open spec fn exact_index_list(list: Seq<usize>, n: int, pred: spec_fn(int) -> bool) -> bool {
    &&& (forall|a: int, b: int| 0 <= a < b < list.len() ==> list[a] < list[b])
    &&& (forall|a: int| 0 <= a < list.len() ==> (#[trigger] list[a]) < n && pred(list[a] as int))
    &&& (forall|i: int|
        0 <= i < n && #[trigger] pred(i) ==> exists|a: int|
            0 <= a < list.len() && #[trigger] list[a] == i)
}

/// The history after one observation map is merged in: every cell of `h`
/// whose observation is non-initial is reduced with it, the rest stay.
pub open spec fn reduced_history<R: Reducer>(h: Seq<u8>, m: Seq<u8>, init: u8) -> Seq<u8> {
    Seq::new(
        h.len(),
        |i: int|
            if 0 <= i < m.len() && m[i] != init {
                R::spec_reduce(h[i], m[i])
            } else {
                h[i]
            },
    )
}

/// Novelty only reads the history cells the observation map covers: two
/// histories that agree there decide alike.
pub proof fn lemma_has_novelty_same_cells<R: Reducer, N: IsNovel>(
    m: Seq<u8>,
    h1: Seq<u8>,
    h2: Seq<u8>,
    init: u8,
)
    requires
        forall|i: int| 0 <= i < m.len() ==> h1[i] == h2[i],
    ensures
        spec_has_novelty::<R, N>(m, h1, init) == spec_has_novelty::<R, N>(m, h2, init),
{
    if spec_has_novelty::<R, N>(m, h1, init) {
        let i = choose|i: int| 0 <= i < m.len() && cell_novel::<R, N>(h1[i], m[i], init);
        assert(cell_novel::<R, N>(h2[i], m[i], init));
    }
    if spec_has_novelty::<R, N>(m, h2, init) {
        let i = choose|i: int| 0 <= i < m.len() && cell_novel::<R, N>(h2[i], m[i], init);
        assert(cell_novel::<R, N>(h1[i], m[i], init));
    }
}

/// History monotonicity: merging an observation into the history never
/// returns a covered (non-initial) cell to untouched, for any reducer that
/// selects one of its arguments.
pub proof fn lemma_history_monotone<R: Reducer>(h: Seq<u8>, m: Seq<u8>, init: u8)
    ensures
        forall|i: int|
            0 <= i < h.len() && h[i] != init ==> reduced_history::<R>(h, m, init)[i] != init,
{
    assert forall|i: int| 0 <= i < h.len() && h[i] != init implies reduced_history::<R>(
        h,
        m,
        init,
    )[i] != init by {
        if 0 <= i < m.len() && m[i] != init {
            R::reduce_selects(h[i], m[i]);
        }
    }
}

/// Merging the same observation a second time changes nothing: for any
/// selecting reducer the merge is idempotent, so a repeated identical run
/// leaves the history — and with it the covered count — exactly as it was.
pub proof fn lemma_remerge_unchanged<R: Reducer>(h: Seq<u8>, m: Seq<u8>, init: u8)
    requires
        m.len() <= h.len(),
    ensures
        reduced_history::<R>(reduced_history::<R>(h, m, init), m, init) == reduced_history::<R>(
            h,
            m,
            init,
        ),
{
    let h1 = reduced_history::<R>(h, m, init);
    assert forall|i: int| 0 <= i < h1.len() implies reduced_history::<R>(h1, m, init)[i]
        == h1[i] by {
        if 0 <= i < m.len() && m[i] != init {
            R::reduce_selects(h[i], m[i]);
            if h1[i] == m[i] {
                R::reduce_selects(m[i], m[i]);
            }
        }
    }
    assert(reduced_history::<R>(h1, m, init) =~= h1);
}

/// Re-running an input whose observations were just merged into the history
/// finds no further novelty: for any selecting reducer, reducing the merged
/// cell with the same observation leaves it unchanged, which
/// [`DifferentIsNovel`] never counts as novel.  Consequently a second
/// identical run leaves the history and its covered count unchanged.
pub proof fn lemma_reexecution_not_novel<R: Reducer>(m: Seq<u8>, h: Seq<u8>, init: u8)
    requires
        m.len() <= h.len(),
    ensures
        !spec_has_novelty::<R, DifferentIsNovel>(m, reduced_history::<R>(h, m, init), init),
{
    let h1 = reduced_history::<R>(h, m, init);
    assert forall|i: int| 0 <= i < m.len() implies !cell_novel::<R, DifferentIsNovel>(
        h1[i],
        m[i],
        init,
    ) by {
        if m[i] != init {
            R::reduce_selects(h[i], m[i]);
            if h1[i] == m[i] {
                R::reduce_selects(m[i], m[i]);
            }
        }
    }
}

/// The canonical AFL-style feedback: [`MaxReducer`] with
/// [`DifferentIsNovel`].
pub type CustomMaxMapFeedback = CustomMapFeedback<MaxReducer, DifferentIsNovel>;

/// A coverage feedback over one map observer, resolved by name from the
/// observer list at call time.
#[derive(Debug)]
pub struct CustomMapFeedback<R, N> {
    /// Scratch list of the indices found novel by the last interesting
    /// check; present exactly when novelty tracking is on.
    novelties: Option<Vec<usize>>,
    /// Name of this feedback instance; its history map is keyed by it.
    name: String,
    /// Name of the observer this feedback consumes.
    map_ref: String,
    /// Name the feedback reports statistics under.
    stats_name: String,
    /// Whether stored testcases get a [`MapIndexesMetadata`] record.
    track_indices: bool,
    reducer_and_novelty: core::marker::PhantomData<(R, N)>,
}

impl<R: Reducer, N: IsNovel> CustomMapFeedback<R, N> {
    /// The feedback's name.
    pub closed spec fn name_spec(&self) -> Seq<char> {
        self.name@
    }

    /// The name of the observer it consumes.
    pub closed spec fn map_ref_spec(&self) -> Seq<char> {
        self.map_ref@
    }

    /// The name it reports statistics under.
    pub closed spec fn stats_name_spec(&self) -> Seq<char> {
        self.stats_name@
    }

    /// Whether stored testcases get an indexes record.
    pub closed spec fn track_indices_spec(&self) -> bool {
        self.track_indices
    }

    /// Whether novel indices are collected and attached.
    pub closed spec fn track_novelties_spec(&self) -> bool {
        self.novelties is Some
    }

    /// The scratch novelty list.
    pub closed spec fn spec_novelties(&self) -> Option<Seq<usize>> {
        match self.novelties {
            Some(l) => Some(l@),
            None => None,
        }
    }

    /// The configuration (everything but the scratch list) is unchanged
    /// between two versions of the feedback.
    pub open spec fn same_config(&self, other: &Self) -> bool {
        &&& self.name_spec() == other.name_spec()
        &&& self.map_ref_spec() == other.map_ref_spec()
        &&& self.stats_name_spec() == other.stats_name_spec()
        &&& self.track_indices_spec() == other.track_indices_spec()
        &&& self.track_novelties_spec() == other.track_novelties_spec()
    }

    /// Creates a feedback over `map_observer`, tracking nothing.
    pub fn new(map_observer: &CustomMapObserver) -> (r: Self)
        ensures
            r.name_spec() == map_observer.name_spec(),
            r.map_ref_spec() == map_observer.name_spec(),
            r.stats_name_spec() == if spec_all_lowercase(map_observer.name_spec()) {
                map_observer.name_spec()
            } else {
                lower_of(map_observer.name_spec())
            },
            !r.track_indices_spec(),
            !r.track_novelties_spec(),
    {
        let name = map_observer.name().clone();
        let stats_name = create_stats_name(&name);
        CustomMapFeedback {
            novelties: None,
            name,
            map_ref: map_observer.name().clone(),
            stats_name,
            track_indices: false,
            reducer_and_novelty: core::marker::PhantomData,
        }
    }

    /// Creates a feedback with its own name, so that the same observer can
    /// feed two feedbacks with two separate histories.
    pub fn with_name(name: &str, map_observer: &CustomMapObserver) -> (r: Self)
        ensures
            r.name_spec() == name@,
            r.map_ref_spec() == map_observer.name_spec(),
            r.stats_name_spec() == if spec_all_lowercase(name@) {
                name@
            } else {
                lower_of(name@)
            },
            !r.track_indices_spec(),
            !r.track_novelties_spec(),
    {
        let name: String = name.to_owned();
        let stats_name = create_stats_name(&name);
        CustomMapFeedback {
            novelties: None,
            name,
            map_ref: map_observer.name().clone(),
            stats_name,
            track_indices: false,
            reducer_and_novelty: core::marker::PhantomData,
        }
    }

    /// Creates a feedback with explicit tracking flags.
    pub fn with_tracking(
        map_observer: &CustomMapObserver,
        track_indices: bool,
        track_novelties: bool,
    ) -> (r: Self)
        ensures
            r.name_spec() == map_observer.name_spec(),
            r.map_ref_spec() == map_observer.name_spec(),
            r.stats_name_spec() == if spec_all_lowercase(map_observer.name_spec()) {
                map_observer.name_spec()
            } else {
                lower_of(map_observer.name_spec())
            },
            r.track_indices_spec() == track_indices,
            r.track_novelties_spec() == track_novelties,
            track_novelties ==> r.spec_novelties() == Some(Seq::<usize>::empty()),
    {
        let name = map_observer.name().clone();
        let stats_name = create_stats_name(&name);
        CustomMapFeedback {
            novelties: if track_novelties {
                Some(Vec::new())
            } else {
                None
            },
            name,
            map_ref: map_observer.name().clone(),
            stats_name,
            track_indices,
            reducer_and_novelty: core::marker::PhantomData,
        }
    }

    /// The feedback's name.
    pub fn name(&self) -> (r: &String)
        ensures
            r@ == self.name_spec(),
    {
        &self.name
    }

    /// The name of the observer this feedback consumes.
    pub fn observer_ref(&self) -> (r: &String)
        ensures
            r@ == self.map_ref_spec(),
    {
        &self.map_ref
    }

    /// Decides whether the observation map is interesting: it holds a cell
    /// whose merge into the history would be a new fact.  Grows the history
    /// to the observer's length but does not merge anything; with novelty
    /// tracking off the walk may stop at the first novel cell.
    pub fn is_interesting_default(
        &mut self,
        map_state: &mut MapFeedbackMetadata,
        observer: &CustomMapObserver,
    ) -> (r: bool)
        ensures
            ({
                let init = observer.initial_spec();
                let h = grown_to(old(map_state).history_map@, observer@.len() as int, init);
                &&& final(map_state).history_map@ == h
                &&& final(map_state).num_covered_map_indexes == old(
                    map_state,
                ).num_covered_map_indexes
                &&& r == spec_has_novelty::<R, N>(observer@, h, init)
                &&& final(self).same_config(old(self))
                &&& (old(self).track_novelties_spec() ==> (match final(self).spec_novelties() {
                    Some(list) => exact_index_list(
                        list,
                        observer@.len() as int,
                        |i: int| cell_novel::<R, N>(h[i], observer@[i], init),
                    ),
                    None => false,
                }))
                &&& (!old(self).track_novelties_spec() ==> final(self).spec_novelties() == old(
                    self,
                ).spec_novelties())
            }),
    {
        let len = observer.usable_count();
        let init = observer.initial();
        map_state.grow_to(len, init);
        proof {
            lemma_grown_to_count(old(map_state).history_map@, len as int, init);
        }
        let ghost h = map_state.history_map@;
        let ghost m = observer@;
        let mut interesting = false;
        if self.novelties.is_some() {
            let mut list: Vec<usize> = Vec::new();
            let mut i: usize = 0;
            while i < len
                invariant
                    i <= len,
                    len == m.len(),
                    m.len() <= h.len(),
                    map_state.history_map@ == h,
                    map_state.num_covered_map_indexes == old(map_state).num_covered_map_indexes,
                    m == observer@,
                    init == observer.initial_spec(),
                    interesting == exists|k: int|
                        0 <= k < i && cell_novel::<R, N>(h[k], m[k], init),
                    forall|a: int, b: int| 0 <= a < b < list@.len() ==> list@[a] < list@[b],
                    forall|a: int|
                        0 <= a < list@.len() ==> (#[trigger] list@[a]) < i && cell_novel::<R, N>(
                            h[list@[a] as int],
                            m[list@[a] as int],
                            init,
                        ),
                    forall|k: int|
                        0 <= k < i && cell_novel::<R, N>(h[k], m[k], init) ==> exists|a: int|
                            0 <= a < list@.len() && #[trigger] list@[a] == k,
                decreases len - i,
            {
                let item = observer.get(i);
                if item != init {
                    let existing = map_state.history_map[i];
                    let reduced = R::reduce(existing, item);
                    if N::is_novel(existing, reduced) {
                        interesting = true;
                        let ghost prev = list@;
                        list.push(i);
                        proof {
                            assert forall|k: int|
                                0 <= k < i + 1 && cell_novel::<R, N>(
                                    h[k],
                                    m[k],
                                    init,
                                ) implies exists|a: int|
                                0 <= a < list@.len() && #[trigger] list@[a] == k by {
                                if k == i {
                                    assert(list@[prev.len() as int] == k);
                                } else {
                                    let a = choose|a: int| 0 <= a < prev.len() && #[trigger] prev[a] == k;
                                    assert(list@[a] == k);
                                }
                            }
                        }
                    }
                }
                i = i + 1;
            }
            self.novelties = Some(list);
        } else {
            let mut i: usize = 0;
            while i < len && !interesting
                invariant
                    i <= len,
                    len == m.len(),
                    m.len() <= h.len(),
                    map_state.history_map@ == h,
                    map_state.num_covered_map_indexes == old(map_state).num_covered_map_indexes,
                    m == observer@,
                    init == observer.initial_spec(),
                    !interesting ==> forall|k: int|
                        0 <= k < i ==> !cell_novel::<R, N>(h[k], m[k], init),
                    interesting ==> spec_has_novelty::<R, N>(m, h, init),
                decreases len - i,
            {
                let item = observer.get(i);
                if item != init {
                    let existing = map_state.history_map[i];
                    let reduced = R::reduce(existing, item);
                    if N::is_novel(existing, reduced) {
                        interesting = true;
                    }
                }
                i = i + 1;
            }
        }
        interesting
    }

    /// Merges the observation into the history map, updates the covered
    /// counter on every untouched-to-covered transition, attaches the
    /// configured metadata to the stored testcase, and reports the covered
    /// ratio.  Called only after the testcase was found interesting and
    /// kept.
    pub fn append_metadata(
        &mut self,
        map_state: &mut MapFeedbackMetadata,
        observer: &CustomMapObserver,
        manager: &mut SimpleEventManager,
        testcase: &mut Testcase,
    ) -> (r: Result<(), Error>)
        requires
            old(map_state).agrees(observer.initial_spec()),
        ensures
            r is Ok,
            ({
                let init = observer.initial_spec();
                let h0 = grown_to(old(map_state).history_map@, observer@.len() as int, init);
                let h1 = reduced_history::<R>(h0, observer@, init);
                &&& final(map_state).history_map@ == h1
                &&& final(map_state).agrees(init)
                &&& (forall|i: int| 0 <= i < h0.len() && h0[i] != init ==> h1[i] != init)
            }),
            old(self).track_indices_spec() ==> (match final(testcase).spec_indexes_meta() {
                Some(meta) => exact_index_list(
                    meta.list@,
                    observer@.len() as int,
                    |i: int| observer@[i] != observer.initial_spec(),
                ) && meta.tcref == 0,
                None => false,
            }),
            !old(self).track_indices_spec() ==> final(testcase).spec_indexes_meta() == old(
                testcase,
            ).spec_indexes_meta(),
            old(self).track_novelties_spec() ==> (match final(testcase).spec_novelties_meta() {
                Some(meta) => old(self).spec_novelties() == Some(meta.list@),
                None => false,
            }),
            !old(self).track_novelties_spec() ==> final(testcase).spec_novelties_meta() == old(
                testcase,
            ).spec_novelties_meta(),
            final(testcase).spec_input() == old(testcase).spec_input(),
            final(testcase).spec_fitness() == old(testcase).spec_fitness(),
            final(self).same_config(old(self)),
            final(self).track_novelties_spec() ==> final(self).spec_novelties() == Some(
                Seq::<usize>::empty(),
            ),
            ({
                let q0 = old(manager).pending();
                let q1 = final(manager).pending();
                &&& q1.len() == q0.len() + 1
                &&& q1.subrange(0, q0.len() as int) == q0
                &&& (match q1.last() {
                    Event::UpdateUserStats { name, value, op } => {
                        &&& name@ == old(self).stats_name_spec()
                        &&& value == UserStatsValue::Ratio(
                            final(map_state).num_covered_map_indexes as u64,
                            final(map_state).history_map@.len() as u64,
                        )
                        &&& op == AggregatorOps::Avg
                    },
                    _ => false,
                })
            }),
    {
        // Attach the novelty list collected by the interesting check.
        match self.novelties.take() {
            Some(novelties) => {
                let meta = MapNoveltiesMetadata::new(novelties);
                testcase.add_metadata(TestcaseMetadata::Novelties(meta));
                self.novelties = Some(Vec::new());
            },
            None => {},
        }
        let len = observer.usable_count();
        let init = observer.initial();
        map_state.grow_to(len, init);
        proof {
            lemma_grown_to_count(old(map_state).history_map@, len as int, init);
        }
        let ghost h0 = map_state.history_map@;
        let ghost m = observer@;
        let hist_len = map_state.history_map.len();
        let mut indices: Vec<usize> = Vec::new();
        let mut i: usize = 0;
        while i < len
            invariant
                i <= len,
                len == m.len(),
                m.len() <= h0.len(),
                m == observer@,
                init == observer.initial_spec(),
                hist_len == h0.len(),
                map_state.history_map@.len() == h0.len(),
                forall|k: int| i <= k < h0.len() ==> map_state.history_map@[k] == h0[k],
                forall|k: int|
                    0 <= k < i ==> map_state.history_map@[k] == (if m[k] != init {
                        R::spec_reduce(h0[k], m[k])
                    } else {
                        h0[k]
                    }),
                map_state.num_covered_map_indexes == count_non_initial(
                    map_state.history_map@,
                    init,
                ),
                forall|a: int, b: int| 0 <= a < b < indices@.len() ==> indices@[a] < indices@[b],
                forall|a: int|
                    0 <= a < indices@.len() ==> (#[trigger] indices@[a]) < i && m[indices@[a] as int]
                        != init,
                forall|k: int|
                    0 <= k < i && m[k] != init ==> exists|a: int|
                        0 <= a < indices@.len() && #[trigger] indices@[a] == k,
            decreases len - i,
        {
            let item = observer.get(i);
            if item != init {
                let existing = map_state.history_map[i];
                let reduced = R::reduce(existing, item);
                proof {
                    lemma_count_non_initial_update(map_state.history_map@, init, i as int, reduced);
                    lemma_count_non_initial_bounds(
                        map_state.history_map@.update(i as int, reduced),
                        init,
                    );
                    if existing != init {
                        R::reduce_selects(existing, item);
                    }
                }
                if existing == init && reduced != init {
                    map_state.num_covered_map_indexes = map_state.num_covered_map_indexes + 1;
                }
                map_state.history_map.set(i, reduced);
                let ghost prev = indices@;
                indices.push(i);
                proof {
                    assert forall|k: int| 0 <= k < i + 1 && m[k] != init implies exists|a: int|
                        0 <= a < indices@.len() && #[trigger] indices@[a] == k by {
                        if k == i {
                            assert(indices@[prev.len() as int] == k);
                        } else {
                            let a = choose|a: int| 0 <= a < prev.len() && #[trigger] prev[a] == k;
                            assert(indices@[a] == k);
                        }
                    }
                }
            }
            i = i + 1;
        }
        proof {
            assert(map_state.history_map@ =~= reduced_history::<R>(h0, m, init));
            assert forall|k: int| 0 <= k < h0.len() && h0[k] != init implies reduced_history::<R>(
                h0,
                m,
                init,
            )[k] != init by {
                if 0 <= k < m.len() && m[k] != init {
                    R::reduce_selects(h0[k], m[k]);
                }
            }
        }
        if self.track_indices {
            let meta = MapIndexesMetadata::new(indices);
            testcase.add_metadata(TestcaseMetadata::Indexes(meta));
        }
        let covered = map_state.num_covered_map_indexes;
        let history_len = map_state.history_map.len();
        let event = Event::UpdateUserStats {
            name: self.stats_name.clone(),
            value: UserStatsValue::Ratio(covered as u64, history_len as u64),
            op: AggregatorOps::Avg,
        };
        let fired = manager.fire(event);
        proof {
            assert(manager.pending().subrange(0, old(manager).pending().len() as int) =~= old(
                manager,
            ).pending());
        }
        match fired {
            Result::Ok(()) => Ok(()),
            Result::Err(e) => Err(e),
        }
    }

    /// Releases the per-input scratch state accumulated by the interesting
    /// check but never installed.  Touches neither the history map nor the
    /// corpus: it receives neither.
    pub fn discard_metadata(&mut self, _input: &BytesInput) -> (r: Result<(), Error>)
        ensures
            r is Ok,
            final(self).same_config(old(self)),
            final(self).track_novelties_spec() ==> final(self).spec_novelties() == Some(
                Seq::<usize>::empty(),
            ),
            !final(self).track_novelties_spec() ==> final(self).spec_novelties() is None,
    {
        if self.novelties.is_some() {
            self.novelties = Some(Vec::new());
        }
        Ok(())
    }
}

/// The name a feedback reports statistics under: the feedback's own name,
/// lowercased unless it already is.
pub fn create_stats_name(name: &String) -> (r: String)
    ensures
        r@ == if spec_all_lowercase(name@) {
            name@
        } else {
            lower_of(name@)
        },
{
    let s: &str = name.as_str();
    let n = s.unicode_len();
    let mut i: usize = 0;
    while i < n
        invariant
            i <= n,
            n == s@.len(),
            s@ == name@,
            forall|k: int| 0 <= k < i ==> char_is_lowercase(s@[k]),
        decreases n - i,
    {
        if !is_lowercase_char(s.get_char(i)) {
            return lowercase(s);
        }
        i = i + 1;
    }
    name.clone()
}

} // verus!
