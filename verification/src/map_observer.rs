//! The map observer: a fixed-length array of cells that the target fills
//! during one execution.
//!
//! A cell equal to the observer's `initial` value means "untouched"; any
//! other value means the corresponding program site was observed.  The
//! observer resets the map before each run and gives feedbacks read access
//! afterwards.

use vstd::prelude::*;

use crate::executors::{lemma_apply_writes_len, spec_apply_writes, ExitKind, MapWrite};
use crate::inputs::BytesInput;
use crate::Error;

verus! {

/// Number of cells of `s` that differ from `init`.
pub open spec fn count_non_initial(s: Seq<u8>, init: u8) -> int
    decreases s.len(),
{
    if s.len() <= 0 {
        0
    } else {
        count_non_initial(s.drop_last(), init) + if s.last() != init {
            1int
        } else {
            0
        }
    }
}

/// True when every cell of `s` equals `init`.
pub open spec fn all_initial(s: Seq<u8>, init: u8) -> bool {
    forall|i: int| 0 <= i < s.len() ==> s[i] == init
}

/// Cardinality of the subset of `idxs` that lands on a non-initial cell of
/// `m`: a set-sized count, so a duplicated index counts once; indices out
/// of range are ignored.
pub open spec fn count_set_at(m: Seq<u8>, init: u8, idxs: Seq<usize>) -> int
    decreases idxs.len(),
{
    if idxs.len() <= 0 {
        0
    } else {
        count_set_at(m, init, idxs.drop_last()) + if idxs.last() < m.len()
            && m[idxs.last() as int] != init && !idxs.drop_last().contains(idxs.last()) {
            1int
        } else {
            0
        }
    }
}

pub proof fn lemma_count_non_initial_push(s: Seq<u8>, init: u8, v: u8)
    ensures
        count_non_initial(s.push(v), init) == count_non_initial(s, init) + if v != init {
            1int
        } else {
            0
        },
{
    assert(s.push(v).drop_last() =~= s);
}

pub proof fn lemma_count_non_initial_bounds(s: Seq<u8>, init: u8)
    ensures
        0 <= count_non_initial(s, init) <= s.len(),
    decreases s.len(),
{
    if s.len() > 0 {
        lemma_count_non_initial_bounds(s.drop_last(), init);
    }
}

/// Updating one cell moves the count by the difference of the two cells'
/// states.
pub proof fn lemma_count_non_initial_update(s: Seq<u8>, init: u8, i: int, v: u8)
    requires
        0 <= i < s.len(),
    ensures
        count_non_initial(s.update(i, v), init) == count_non_initial(s, init) + (if v != init {
            1int
        } else {
            0
        }) - (if s[i] != init {
            1int
        } else {
            0
        }),
    decreases s.len(),
{
    if i == s.len() - 1 {
        assert(s.update(i, v).drop_last() =~= s.drop_last());
    } else {
        assert(s.update(i, v).drop_last() =~= s.drop_last().update(i, v));
        lemma_count_non_initial_update(s.drop_last(), init, i, v);
        assert(s.update(i, v).last() == s.last());
    }
}

pub proof fn lemma_count_non_initial_all_initial(s: Seq<u8>, init: u8)
    requires
        all_initial(s, init),
    ensures
        count_non_initial(s, init) == 0,
    decreases s.len(),
{
    if s.len() > 0 {
        lemma_count_non_initial_all_initial(s.drop_last(), init);
    }
}

proof fn lemma_count_set_at_push(m: Seq<u8>, init: u8, idxs: Seq<usize>, v: usize)
    ensures
        count_set_at(m, init, idxs.push(v)) == count_set_at(m, init, idxs) + if v < m.len()
            && m[v as int] != init && !idxs.contains(v) {
            1int
        } else {
            0
        },
{
    assert(idxs.push(v).drop_last() =~= idxs);
}

/// Whether `idx` occurs among the first `upto` entries of `indexes`.
fn index_seen(indexes: &Vec<usize>, upto: usize, idx: usize) -> (r: bool)
    requires
        upto <= indexes@.len(),
    ensures
        r == indexes@.subrange(0, upto as int).contains(idx),
{
    let mut j: usize = 0;
    while j < upto
        invariant
            j <= upto,
            upto <= indexes@.len(),
            forall|k: int| 0 <= k < j ==> indexes@[k] != idx,
        decreases upto - j,
    {
        if indexes[j] == idx {
            proof {
                assert(indexes@.subrange(0, upto as int)[j as int] == idx);
            }
            return true;
        }
        j = j + 1;
    }
    proof {
        assert forall|k: int|
            0 <= k < upto implies indexes@.subrange(0, upto as int)[k] != idx by {}
    }
    false
}

/// An observer over an owned observation map of `u8` cells.
#[derive(Clone, Debug)]
pub struct CustomMapObserver {
    name: String,
    initial: u8,
    map: Vec<u8>,
}

impl View for CustomMapObserver {
    type V = Seq<u8>;

    /// The observer's view is the contents of its observation map.
    closed spec fn view(&self) -> Seq<u8> {
        self.map@
    }
}

/// Relies on `ahash::RandomState::with_seeds` and `hash_one`: hashers built
/// from the same four seeds hash equal byte slices alike within one build.
/// The value itself depends on the build and the processor, so nothing is
/// stated of it.
#[verifier::external_body]
fn hash_bytes(bytes: &[u8]) -> u64 {
    ahash::RandomState::with_seeds(1, 0, 0, 0).hash_one(bytes)
}

impl CustomMapObserver {
    /// The canonical "untouched" cell value.
    pub closed spec fn initial_spec(&self) -> u8 {
        self.initial
    }

    /// The observer's stable identifier.
    pub closed spec fn name_spec(&self) -> Seq<char> {
        self.name@
    }

    /// Creates an observer with an empty map.
    pub fn new(name: &str) -> (r: Self)
        ensures
            r@ =~= Seq::<u8>::empty(),
            r.initial_spec() == 0u8,
            r.name_spec() == name@,
    {
        CustomMapObserver { name: name.to_owned(), initial: 0, map: Vec::new() }
    }

    /// Creates an observer over an owned map.
    pub fn owned(name: &str, map: Vec<u8>) -> (r: Self)
        ensures
            r@ == map@,
            r.initial_spec() == 0u8,
            r.name_spec() == name@,
    {
        CustomMapObserver { name: name.to_owned(), initial: 0, map }
    }

    /// The observer's stable identifier.
    pub fn name(&self) -> (r: &String)
        ensures
            r@ == self.name_spec(),
    {
        &self.name
    }

    /// The number of cells in the map.
    pub fn len(&self) -> (r: usize)
        ensures
            r == self@.len(),
    {
        self.map.len()
    }

    /// The prefix length feedbacks should consider; here the whole map.
    pub fn usable_count(&self) -> (r: usize)
        ensures
            r == self@.len(),
    {
        self.map.len()
    }

    /// The cell value at `idx`.
    pub fn get(&self, idx: usize) -> (r: u8)
        requires
            idx < self@.len(),
        ensures
            r == self@[idx as int],
    {
        self.map[idx]
    }

    /// Writes `val` into the cell at `idx`.
    pub fn set(&mut self, idx: usize, val: u8)
        requires
            idx < old(self)@.len(),
        ensures
            final(self)@ == old(self)@.update(idx as int, val),
            final(self).initial_spec() == old(self).initial_spec(),
            final(self).name_spec() == old(self).name_spec(),
    {
        self.map.set(idx, val);
    }

    /// The "untouched" cell value.
    pub fn initial(&self) -> (r: u8)
        ensures
            r == self.initial_spec(),
    {
        self.initial
    }

    /// A copy of the map's contents.
    pub fn to_vec(&self) -> (r: Vec<u8>)
        ensures
            r@ == self@,
    {
        self.map.clone()
    }

    /// Counts the cells different from the initial value.
    pub fn count_bytes(&self) -> (r: u64)
        ensures
            r == count_non_initial(self@, self.initial_spec()),
    {
        let cnt = self.usable_count();
        let mut res: u64 = 0;
        let mut i: usize = 0;
        while i < cnt
            invariant
                i <= cnt,
                cnt == self@.len(),
                res <= i,
                res == count_non_initial(self@.subrange(0, i as int), self.initial_spec()),
            decreases cnt - i,
        {
            proof {
                assert(self@.subrange(0, i + 1) =~= self@.subrange(0, i as int).push(
                    self@[i as int],
                ));
                lemma_count_non_initial_push(
                    self@.subrange(0, i as int),
                    self.initial_spec(),
                    self@[i as int],
                );
            }
            if self.map[i] != self.initial {
                res = res + 1;
            }
            i = i + 1;
        }
        proof {
            assert(self@.subrange(0, cnt as int) =~= self@);
        }
        res
    }

    /// A hash of the map's contents, for cheap whole-map comparison.  Equal
    /// maps hash equal within one process; the value is not stable across
    /// builds or machines.
    pub fn hash_simple(&self) -> u64 {
        hash_bytes(self.map.as_slice())
    }

    /// Resets every cell to the initial value.  Invoked before each
    /// execution so that no residue of the prior run is observed.
    pub fn reset_map(&mut self) -> (r: Result<(), Error>)
        ensures
            final(self)@.len() == old(self)@.len(),
            all_initial(final(self)@, final(self).initial_spec()),
            final(self).initial_spec() == old(self).initial_spec(),
            final(self).name_spec() == old(self).name_spec(),
            r is Ok,
    {
        let cnt = self.usable_count();
        let mut i: usize = 0;
        while i < cnt
            invariant
                i <= cnt,
                cnt == self@.len(),
                self.initial_spec() == old(self).initial_spec(),
                self.name_spec() == old(self).name_spec(),
                forall|k: int| 0 <= k < i ==> self@[k] == self.initial_spec(),
            decreases cnt - i,
        {
            let init = self.initial;
            self.set(i, init);
            i = i + 1;
        }
        Ok(())
    }

    /// Cardinality of the subset of `indexes` whose cell is non-initial: a
    /// duplicated index counts once, an out-of-range index not at all.
    pub fn how_many_set(&self, indexes: &Vec<usize>) -> (r: usize)
        ensures
            r == count_set_at(self@, self.initial_spec(), indexes@),
    {
        let cnt = self.usable_count();
        let mut res: usize = 0;
        let mut j: usize = 0;
        while j < indexes.len()
            invariant
                j <= indexes@.len(),
                cnt == self@.len(),
                res <= j,
                res == count_set_at(self@, self.initial_spec(), indexes@.subrange(0, j as int)),
            decreases indexes@.len() - j,
        {
            proof {
                assert(indexes@.subrange(0, j + 1) =~= indexes@.subrange(0, j as int).push(
                    indexes@[j as int],
                ));
                lemma_count_set_at_push(
                    self@,
                    self.initial_spec(),
                    indexes@.subrange(0, j as int),
                    indexes@[j as int],
                );
            }
            let idx = indexes[j];
            if idx < cnt && self.map[idx] != self.initial && !index_seen(indexes, j, idx) {
                res = res + 1;
            }
            j = j + 1;
        }
        proof {
            assert(indexes@.subrange(0, indexes@.len() as int) =~= indexes@);
        }
        res
    }

    /// Records the writes one target run performed, in order; writes
    /// outside the map are ignored.  This is how the execution pipeline
    /// transfers the target's behaviour into the observation map.
    pub fn apply_writes(&mut self, writes: &Vec<MapWrite>)
        ensures
            final(self)@ == spec_apply_writes(old(self)@, writes@),
            final(self)@.len() == old(self)@.len(),
            final(self).initial_spec() == old(self).initial_spec(),
            final(self).name_spec() == old(self).name_spec(),
    {
        let ghost m0 = self@;
        let n = writes.len();
        let mut j: usize = 0;
        while j < n
            invariant
                j <= n,
                n == writes@.len(),
                self@ == spec_apply_writes(m0, writes@.subrange(0, j as int)),
                self@.len() == m0.len(),
                self.initial_spec() == old(self).initial_spec(),
                self.name_spec() == old(self).name_spec(),
            decreases n - j,
        {
            proof {
                assert(writes@.subrange(0, j + 1).drop_last() =~= writes@.subrange(0, j as int));
                lemma_apply_writes_len(m0, writes@.subrange(0, j as int));
            }
            let w = writes[j];
            if w.index < self.map.len() {
                self.set(w.index, w.value);
            }
            j = j + 1;
        }
        proof {
            assert(writes@.subrange(0, n as int) =~= writes@);
            lemma_apply_writes_len(m0, writes@);
        }
    }

    /// Pre-execution hook: resets the map.
    pub fn pre_exec(&mut self, _input: &BytesInput) -> (r: Result<(), Error>)
        ensures
            final(self)@.len() == old(self)@.len(),
            all_initial(final(self)@, final(self).initial_spec()),
            final(self).initial_spec() == old(self).initial_spec(),
            final(self).name_spec() == old(self).name_spec(),
            r is Ok,
    {
        self.reset_map()
    }

    /// Post-execution hook: nothing to finalize for a plain map observer.
    pub fn post_exec(&mut self, _input: &BytesInput, _exit_kind: &ExitKind) -> (r: Result<
        (),
        Error,
    >)
        ensures
            *final(self) == *old(self),
            r is Ok,
    {
        Ok(())
    }
}

} // verus!
