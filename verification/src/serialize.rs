//! Persistence: a self-delimiting byte format for testcases and corpora.
//!
//! Everything is encoded from plain values into length-prefixed
//! little-endian fields, and decoding is specified as the exact inverse:
//! decoding what was encoded returns the original value.  The embedder
//! moves the bytes to and from disk; the format itself lives here.

use vstd::bytes::{
    lemma_auto_spec_u64_to_from_le_bytes, spec_u64_from_le_bytes, spec_u64_to_le_bytes,
    u64_from_le_bytes, u64_to_le_bytes,
};
use vstd::prelude::*;
use vstd::slice::slice_subrange;

use crate::corpus::{InMemoryCorpus, Scheduler, Testcase};
use crate::inputs::BytesInput;
use crate::max_map_feedback::{MapIndexesMetadata, MapNoveltiesMetadata};

verus! {

/// The mathematical content of a testcase: what the codec preserves.
pub struct TestcaseView {
    /// The input bytes, if loaded.
    pub input: Option<Seq<u8>>,
    /// The fitness score.
    pub fitness: u32,
    /// The indexes record: its list and its reference count.
    pub indexes: Option<(Seq<usize>, isize)>,
    /// The novelties record.
    pub novelties: Option<Seq<usize>>,
}

impl View for Testcase {
    type V = TestcaseView;

    open spec fn view(&self) -> TestcaseView {
        TestcaseView {
            input: match self.spec_input() {
                Some(i) => Some(i@),
                None => None,
            },
            fitness: self.spec_fitness(),
            indexes: match self.spec_indexes_meta() {
                Some(m) => Some((m.list@, m.tcref)),
                None => None,
            },
            novelties: match self.spec_novelties_meta() {
                Some(m) => Some(m.list@),
                None => None,
            },
        }
    }
}

/// The mathematical content of a corpus.
pub struct CorpusView {
    /// The stored testcases, oldest first.
    pub entries: Seq<TestcaseView>,
    /// The scheduler and its state.
    pub scheduler: Scheduler,
}

impl View for InMemoryCorpus {
    type V = CorpusView;

    open spec fn view(&self) -> CorpusView {
        CorpusView {
            entries: self.spec_entries().map_values(|t: Testcase| t@),
            scheduler: self.spec_scheduler(),
        }
    }
}

/// One encoded 64-bit field, little endian.
pub open spec fn enc_u64(x: u64) -> Seq<u8> {
    spec_u64_to_le_bytes(x)
}

/// An encoded index sequence, one field per element.
pub open spec fn enc_usize_seq(l: Seq<usize>) -> Seq<u8>
    decreases l.len(),
{
    if l.len() == 0 {
        Seq::<u8>::empty()
    } else {
        enc_u64(l[0] as u64) + enc_usize_seq(l.subrange(1, l.len() as int))
    }
}

/// An encoded index list: its length, then its elements.
pub open spec fn enc_usize_list(l: Seq<usize>) -> Seq<u8> {
    enc_u64(l.len() as u64) + enc_usize_seq(l)
}

/// Decodes one 64-bit field.
pub open spec fn dec_u64(s: Seq<u8>, pos: int) -> Option<(u64, int)> {
    if pos < 0 || pos + 8 > s.len() {
        None
    } else {
        Some((spec_u64_from_le_bytes(s.subrange(pos, pos + 8)), pos + 8))
    }
}

/// Decodes `count` index fields.
pub open spec fn dec_usize_seq(s: Seq<u8>, pos: int, count: int) -> Option<(Seq<usize>, int)>
    decreases count,
{
    if count <= 0 {
        Some((Seq::<usize>::empty(), pos))
    } else {
        match dec_u64(s, pos) {
            None => None,
            Some((x, p1)) => if x > usize::MAX as u64 {
                None
            } else {
                match dec_usize_seq(s, p1, count - 1) {
                    None => None,
                    Some((rest, p2)) => Some((seq![x as usize] + rest, p2)),
                }
            },
        }
    }
}

/// Decodes a length-prefixed index list.
pub open spec fn dec_usize_list(s: Seq<u8>, pos: int) -> Option<(Seq<usize>, int)> {
    match dec_u64(s, pos) {
        None => None,
        Some((n, p1)) => if n > usize::MAX as u64 {
            None
        } else {
            dec_usize_seq(s, p1, n as int)
        },
    }
}

/// Decodes `n` raw bytes.
pub open spec fn dec_bytes(s: Seq<u8>, pos: int, n: int) -> Option<(Seq<u8>, int)> {
    if pos < 0 || n < 0 || pos + n > s.len() {
        None
    } else {
        Some((s.subrange(pos, pos + n), pos + n))
    }
}

/// Every encoded field is eight bytes.
pub proof fn lemma_enc_u64_len(x: u64)
    ensures
        enc_u64(x).len() == 8,
{
    lemma_auto_spec_u64_to_from_le_bytes();
}

/// An encoded index sequence is eight bytes per element.
pub proof fn lemma_enc_usize_seq_len(l: Seq<usize>)
    ensures
        enc_usize_seq(l).len() == 8 * l.len(),
    decreases l.len(),
{
    if l.len() > 0 {
        lemma_enc_u64_len(l[0] as u64);
        lemma_enc_usize_seq_len(l.subrange(1, l.len() as int));
    }
}

/// A field decodes to what was encoded.
pub proof fn lemma_dec_u64_prefix(s: Seq<u8>, pos: int, x: u64)
    requires
        0 <= pos,
        pos + 8 <= s.len(),
        s.subrange(pos, pos + 8) == enc_u64(x),
    ensures
        dec_u64(s, pos) == Some((x, pos + 8)),
{
    lemma_auto_spec_u64_to_from_le_bytes();
}

/// An index sequence decodes to what was encoded.
pub proof fn lemma_dec_usize_seq_prefix(s: Seq<u8>, pos: int, l: Seq<usize>)
    requires
        0 <= pos,
        pos + enc_usize_seq(l).len() <= s.len(),
        s.subrange(pos, pos + enc_usize_seq(l).len() as int) == enc_usize_seq(l),
    ensures
        dec_usize_seq(s, pos, l.len() as int) == Some((l, pos + enc_usize_seq(l).len())),
    decreases l.len(),
{
    lemma_enc_usize_seq_len(l);
    if l.len() > 0 {
        let tail = l.subrange(1, l.len() as int);
        lemma_enc_u64_len(l[0] as u64);
        lemma_enc_usize_seq_len(tail);
        assert forall|k: int| 0 <= k < enc_usize_seq(l).len() implies s[pos + k]
            == enc_usize_seq(l)[k] by {
            assert(s.subrange(pos, pos + enc_usize_seq(l).len() as int)[k] == enc_usize_seq(l)[k]);
        }
        assert(s.subrange(pos, pos + 8) =~= enc_u64(l[0] as u64));
        lemma_dec_u64_prefix(s, pos, l[0] as u64);
        let tlen = enc_usize_seq(tail).len() as int;
        assert forall|k: int| 0 <= k < tlen implies s.subrange(pos + 8, pos + 8 + tlen)[k]
            == enc_usize_seq(tail)[k] by {
            assert(s.subrange(pos, pos + enc_usize_seq(l).len() as int)[8 + k] == enc_usize_seq(
                l,
            )[8 + k]);
        }
        assert(s.subrange(pos + 8, pos + 8 + tlen) =~= enc_usize_seq(tail));
        lemma_dec_usize_seq_prefix(s, pos + 8, tail);
        assert(seq![l[0]] + tail =~= l);
    }
}

/// A length-prefixed index list decodes to what was encoded, provided the
/// list is representable (its length fits the platform).
pub proof fn lemma_dec_usize_list_prefix(s: Seq<u8>, pos: int, l: Seq<usize>)
    requires
        0 <= pos,
        l.len() <= usize::MAX,
        pos + enc_usize_list(l).len() <= s.len(),
        s.subrange(pos, pos + enc_usize_list(l).len() as int) == enc_usize_list(l),
    ensures
        dec_usize_list(s, pos) == Some((l, pos + enc_usize_list(l).len())),
{
    lemma_enc_u64_len(l.len() as u64);
    lemma_enc_usize_seq_len(l);
    assert forall|k: int| 0 <= k < enc_usize_list(l).len() implies s[pos + k]
        == enc_usize_list(l)[k] by {
        assert(s.subrange(pos, pos + enc_usize_list(l).len() as int)[k] == enc_usize_list(l)[k]);
    }
    assert(s.subrange(pos, pos + 8) =~= enc_u64(l.len() as u64));
    lemma_dec_u64_prefix(s, pos, l.len() as u64);
    let slen = enc_usize_seq(l).len() as int;
    assert forall|k: int| 0 <= k < slen implies s.subrange(pos + 8, pos + 8 + slen)[k]
        == enc_usize_seq(l)[k] by {
        assert(s.subrange(pos, pos + enc_usize_list(l).len() as int)[8 + k] == enc_usize_list(
            l,
        )[8 + k]);
    }
    assert(s.subrange(pos + 8, pos + 8 + slen) =~= enc_usize_seq(l));
    lemma_dec_usize_seq_prefix(s, pos + 8, l);
}

/// Appends one encoded field.
fn put_u64(out: &mut Vec<u8>, x: u64)
    ensures
        final(out)@ == old(out)@ + enc_u64(x),
{
    let mut b = u64_to_le_bytes(x);
    out.append(&mut b);
}

/// Appends raw bytes.
fn put_bytes(out: &mut Vec<u8>, bytes: &Vec<u8>)
    ensures
        final(out)@ == old(out)@ + bytes@,
{
    let n = bytes.len();
    let mut i: usize = 0;
    while i < n
        invariant
            i <= n,
            n == bytes@.len(),
            out@ == old(out)@ + bytes@.subrange(0, i as int),
        decreases n - i,
    {
        out.push(bytes[i]);
        proof {
            assert(old(out)@ + bytes@.subrange(0, i as int) + seq![bytes@[i as int]] =~= old(out)@
                + bytes@.subrange(0, i + 1));
        }
        i = i + 1;
    }
    proof {
        assert(old(out)@ + bytes@.subrange(0, n as int) =~= old(out)@ + bytes@);
    }
}

/// Appends an encoded index list.
fn put_usize_list(out: &mut Vec<u8>, list: &Vec<usize>)
    ensures
        final(out)@ == old(out)@ + enc_usize_list(list@),
{
    put_u64(out, list.len() as u64);
    let n = list.len();
    proof {
        assert(list@.subrange(0, n as int) =~= list@);
        assert(out@ + enc_usize_seq(list@) =~= old(out)@ + enc_usize_list(list@));
    }
    let mut i: usize = 0;
    while i < n
        invariant
            i <= n,
            n == list@.len(),
            out@ + enc_usize_seq(list@.subrange(i as int, n as int)) == old(out)@ + enc_usize_list(
                list@,
            ),
        decreases n - i,
    {
        proof {
            assert(list@.subrange(i as int, n as int).subrange(
                1,
                (n - i) as int,
            ) =~= list@.subrange(i + 1, n as int));
            assert(list@.subrange(i as int, n as int)[0] == list@[i as int]);
        }
        put_u64(out, list[i] as u64);
        proof {
            assert(out@ + enc_usize_seq(list@.subrange(i + 1, n as int)) =~= old(out)@
                + enc_usize_list(list@));
        }
        i = i + 1;
    }
    proof {
        assert(list@.subrange(n as int, n as int) =~= Seq::<usize>::empty());
        assert(out@ + Seq::<u8>::empty() =~= out@);
    }
}

/// Reads one field.
fn read_u64(buf: &Vec<u8>, pos: usize) -> (r: Option<(u64, usize)>)
    ensures
        match r {
            Some((x, end)) => dec_u64(buf@, pos as int) == Some((x, end as int)) && end <= buf@.len()
                && end == pos + 8,
            None => dec_u64(buf@, pos as int) is None,
        },
{
    if pos > buf.len() || buf.len() - pos < 8 {
        return None;
    }
    let s = slice_subrange(buf.as_slice(), pos, pos + 8);
    let x = u64_from_le_bytes(s);
    Some((x, pos + 8))
}

/// Reads `count` index fields.
fn read_usize_seq(buf: &Vec<u8>, pos: usize, count: usize) -> (r: Option<(Vec<usize>, usize)>)
    requires
        pos <= buf@.len(),
    ensures
        match r {
            Some((l, end)) => dec_usize_seq(buf@, pos as int, count as int) == Some((
                l@,
                end as int,
            )) && end <= buf@.len() && pos <= end,
            None => dec_usize_seq(buf@, pos as int, count as int) is None,
        },
{
    let mut acc: Vec<usize> = Vec::new();
    let mut cur = pos;
    let mut remaining = count;
    while remaining > 0
        invariant
            cur <= buf@.len(),
            remaining <= count,
            acc@.len() == count - remaining,
            pos <= cur,
            (match dec_usize_seq(buf@, cur as int, remaining as int) {
                Some((rest, end)) => dec_usize_seq(buf@, pos as int, count as int) == Some((
                    acc@ + rest,
                    end,
                )),
                None => dec_usize_seq(buf@, pos as int, count as int) is None,
            }),
        decreases remaining,
    {
        let step = read_u64(buf, cur);
        match step {
            Option::Some((x, end)) => {
                if x > usize::MAX as u64 {
                    return None;
                }
                let ghost acc0 = acc@;
                acc.push(x as usize);
                proof {
                    assert forall|rest: Seq<usize>|
                        true implies acc0 + (seq![x as usize] + rest) =~= acc@ + rest by {}
                }
                cur = end;
                remaining = remaining - 1;
            },
            Option::None => {
                return None;
            },
        }
    }
    proof {
        assert(acc@ + Seq::<usize>::empty() =~= acc@);
    }
    Some((acc, cur))
}

/// Reads a length-prefixed index list.
fn read_usize_list(buf: &Vec<u8>, pos: usize) -> (r: Option<(Vec<usize>, usize)>)
    ensures
        match r {
            Some((l, end)) => dec_usize_list(buf@, pos as int) == Some((l@, end as int)) && end
                <= buf@.len() && pos <= end,
            None => dec_usize_list(buf@, pos as int) is None,
        },
{
    let step = read_u64(buf, pos);
    match step {
        Option::Some((n, p1)) => {
            if n > usize::MAX as u64 {
                return None;
            }
            read_usize_seq(buf, p1, n as usize)
        },
        Option::None => None,
    }
}

/// The bytes `s` hold `e` starting at `pos`; any inner window of `e` is
/// then a window of `s`.
pub proof fn lemma_subrange_of_prefix(s: Seq<u8>, pos: int, e: Seq<u8>, a: int, b: int)
    requires
        0 <= pos,
        pos + e.len() <= s.len(),
        s.subrange(pos, pos + e.len() as int) == e,
        0 <= a <= b <= e.len(),
    ensures
        s.subrange(pos + a, pos + b) == e.subrange(a, b),
{
    assert forall|k: int| 0 <= k < b - a implies s.subrange(pos + a, pos + b)[k] == e.subrange(
        a,
        b,
    )[k] by {
        assert(s.subrange(pos, pos + e.len() as int)[a + k] == e[a + k]);
    }
    assert(s.subrange(pos + a, pos + b) =~= e.subrange(a, b));
}

/// An encoded optional input: a presence tag, then length-prefixed bytes.
pub open spec fn enc_opt_input(v: Option<Seq<u8>>) -> Seq<u8> {
    match v {
        Some(b) => enc_u64(1) + enc_u64(b.len() as u64) + b,
        None => enc_u64(0),
    }
}

/// An encoded optional indexes record: a presence tag, the reference
/// count, then the list.
pub open spec fn enc_opt_indexes(v: Option<(Seq<usize>, isize)>) -> Seq<u8> {
    match v {
        Some((l, tcref)) => enc_u64(1) + enc_u64(tcref as u64) + enc_usize_list(l),
        None => enc_u64(0),
    }
}

/// An encoded optional novelties record: a presence tag, then the list.
pub open spec fn enc_opt_novelties(v: Option<Seq<usize>>) -> Seq<u8> {
    match v {
        Some(l) => enc_u64(1) + enc_usize_list(l),
        None => enc_u64(0),
    }
}

/// One encoded testcase: input, fitness, indexes record, novelties record.
pub open spec fn spec_enc_testcase(v: TestcaseView) -> Seq<u8> {
    enc_opt_input(v.input) + enc_u64(v.fitness as u64) + enc_opt_indexes(v.indexes)
        + enc_opt_novelties(v.novelties)
}

/// The testcase can be written down: its reference count is non-negative
/// (the documented invariant) and its collections fit the platform.
pub open spec fn encodable(v: TestcaseView) -> bool {
    &&& (match v.input {
        Some(b) => b.len() <= usize::MAX,
        None => true,
    })
    &&& (match v.indexes {
        Some((l, tcref)) => tcref >= 0 && l.len() <= usize::MAX,
        None => true,
    })
    &&& (match v.novelties {
        Some(l) => l.len() <= usize::MAX,
        None => true,
    })
}

/// Decodes an optional input.
pub open spec fn dec_opt_input(s: Seq<u8>, pos: int) -> Option<(Option<Seq<u8>>, int)> {
    match dec_u64(s, pos) {
        None => None,
        Some((tag, p1)) => if tag == 0 {
            Some((None, p1))
        } else if tag != 1 {
            None
        } else {
            match dec_u64(s, p1) {
                None => None,
                Some((n, p2)) => if n > usize::MAX as u64 {
                    None
                } else {
                    match dec_bytes(s, p2, n as int) {
                        None => None,
                        Some((b, p3)) => Some((Some(b), p3)),
                    }
                },
            }
        },
    }
}

/// Decodes an optional indexes record.
pub open spec fn dec_opt_indexes(s: Seq<u8>, pos: int) -> Option<(Option<(Seq<usize>, isize)>, int)> {
    match dec_u64(s, pos) {
        None => None,
        Some((tag, p1)) => if tag == 0 {
            Some((None, p1))
        } else if tag != 1 {
            None
        } else {
            match dec_u64(s, p1) {
                None => None,
                Some((tcref, p2)) => if tcref > isize::MAX as u64 {
                    None
                } else {
                    match dec_usize_list(s, p2) {
                        None => None,
                        Some((l, p3)) => Some((Some((l, tcref as isize)), p3)),
                    }
                },
            }
        },
    }
}

/// Decodes an optional novelties record.
pub open spec fn dec_opt_novelties(s: Seq<u8>, pos: int) -> Option<(Option<Seq<usize>>, int)> {
    match dec_u64(s, pos) {
        None => None,
        Some((tag, p1)) => if tag == 0 {
            Some((None, p1))
        } else if tag != 1 {
            None
        } else {
            match dec_usize_list(s, p1) {
                None => None,
                Some((l, p2)) => Some((Some(l), p2)),
            }
        },
    }
}

/// Decodes one testcase.
pub open spec fn spec_dec_testcase(s: Seq<u8>, pos: int) -> Option<(TestcaseView, int)> {
    match dec_opt_input(s, pos) {
        None => None,
        Some((input, p1)) => match dec_u64(s, p1) {
            None => None,
            Some((fit, p2)) => if fit > u32::MAX as u64 {
                None
            } else {
                match dec_opt_indexes(s, p2) {
                    None => None,
                    Some((indexes, p3)) => match dec_opt_novelties(s, p3) {
                        None => None,
                        Some((novelties, p4)) => Some(
                            (TestcaseView { input, fitness: fit as u32, indexes, novelties }, p4),
                        ),
                    },
                }
            },
        },
    }
}

/// An optional input decodes to what was encoded.
pub proof fn lemma_dec_opt_input_prefix(s: Seq<u8>, pos: int, v: Option<Seq<u8>>)
    requires
        0 <= pos,
        (match v {
            Some(b) => b.len() <= usize::MAX,
            None => true,
        }),
        pos + enc_opt_input(v).len() <= s.len(),
        s.subrange(pos, pos + enc_opt_input(v).len() as int) == enc_opt_input(v),
    ensures
        dec_opt_input(s, pos) == Some((v, pos + enc_opt_input(v).len())),
{
    let e = enc_opt_input(v);
    match v {
        Some(b) => {
            lemma_enc_u64_len(1);
            lemma_enc_u64_len(b.len() as u64);
            assert(e.subrange(0, 8) =~= enc_u64(1));
            assert(e.subrange(8, 16) =~= enc_u64(b.len() as u64));
            assert(e.subrange(16, e.len() as int) =~= b);
            lemma_subrange_of_prefix(s, pos, e, 0, 8);
            lemma_dec_u64_prefix(s, pos, 1);
            lemma_subrange_of_prefix(s, pos, e, 8, 16);
            lemma_dec_u64_prefix(s, pos + 8, b.len() as u64);
            lemma_subrange_of_prefix(s, pos, e, 16, e.len() as int);
        },
        None => {
            lemma_enc_u64_len(0);
            assert(e.subrange(0, 8) =~= enc_u64(0));
            lemma_subrange_of_prefix(s, pos, e, 0, 8);
            lemma_dec_u64_prefix(s, pos, 0);
        },
    }
}

/// An optional indexes record decodes to what was encoded.
pub proof fn lemma_dec_opt_indexes_prefix(s: Seq<u8>, pos: int, v: Option<(Seq<usize>, isize)>)
    requires
        0 <= pos,
        (match v {
            Some((l, tcref)) => tcref >= 0 && l.len() <= usize::MAX,
            None => true,
        }),
        pos + enc_opt_indexes(v).len() <= s.len(),
        s.subrange(pos, pos + enc_opt_indexes(v).len() as int) == enc_opt_indexes(v),
    ensures
        dec_opt_indexes(s, pos) == Some((v, pos + enc_opt_indexes(v).len())),
{
    let e = enc_opt_indexes(v);
    match v {
        Some((l, tcref)) => {
            lemma_enc_u64_len(1);
            lemma_enc_u64_len(tcref as u64);
            lemma_enc_u64_len(l.len() as u64);
            lemma_enc_usize_seq_len(l);
            assert(e.subrange(0, 8) =~= enc_u64(1));
            assert(e.subrange(8, 16) =~= enc_u64(tcref as u64));
            assert(e.subrange(16, e.len() as int) =~= enc_usize_list(l));
            lemma_subrange_of_prefix(s, pos, e, 0, 8);
            lemma_dec_u64_prefix(s, pos, 1);
            lemma_subrange_of_prefix(s, pos, e, 8, 16);
            lemma_dec_u64_prefix(s, pos + 8, tcref as u64);
            lemma_subrange_of_prefix(s, pos, e, 16, e.len() as int);
            lemma_dec_usize_list_prefix(s, pos + 16, l);
        },
        None => {
            lemma_enc_u64_len(0);
            assert(e.subrange(0, 8) =~= enc_u64(0));
            lemma_subrange_of_prefix(s, pos, e, 0, 8);
            lemma_dec_u64_prefix(s, pos, 0);
        },
    }
}

/// An optional novelties record decodes to what was encoded.
pub proof fn lemma_dec_opt_novelties_prefix(s: Seq<u8>, pos: int, v: Option<Seq<usize>>)
    requires
        0 <= pos,
        (match v {
            Some(l) => l.len() <= usize::MAX,
            None => true,
        }),
        pos + enc_opt_novelties(v).len() <= s.len(),
        s.subrange(pos, pos + enc_opt_novelties(v).len() as int) == enc_opt_novelties(v),
    ensures
        dec_opt_novelties(s, pos) == Some((v, pos + enc_opt_novelties(v).len())),
{
    let e = enc_opt_novelties(v);
    match v {
        Some(l) => {
            lemma_enc_u64_len(1);
            lemma_enc_u64_len(l.len() as u64);
            lemma_enc_usize_seq_len(l);
            assert(e.subrange(0, 8) =~= enc_u64(1));
            assert(e.subrange(8, e.len() as int) =~= enc_usize_list(l));
            lemma_subrange_of_prefix(s, pos, e, 0, 8);
            lemma_dec_u64_prefix(s, pos, 1);
            lemma_subrange_of_prefix(s, pos, e, 8, e.len() as int);
            lemma_dec_usize_list_prefix(s, pos + 8, l);
        },
        None => {
            lemma_enc_u64_len(0);
            assert(e.subrange(0, 8) =~= enc_u64(0));
            lemma_subrange_of_prefix(s, pos, e, 0, 8);
            lemma_dec_u64_prefix(s, pos, 0);
        },
    }
}

/// Decoding an encoded testcase returns it unchanged: the round-trip law
/// for one testcase.
pub proof fn lemma_testcase_round_trip(s: Seq<u8>, pos: int, v: TestcaseView)
    requires
        0 <= pos,
        encodable(v),
        pos + spec_enc_testcase(v).len() <= s.len(),
        s.subrange(pos, pos + spec_enc_testcase(v).len() as int) == spec_enc_testcase(v),
    ensures
        spec_dec_testcase(s, pos) == Some((v, pos + spec_enc_testcase(v).len())),
{
    let e1 = enc_opt_input(v.input);
    let e2 = enc_u64(v.fitness as u64);
    let e3 = enc_opt_indexes(v.indexes);
    let e4 = enc_opt_novelties(v.novelties);
    let e = spec_enc_testcase(v);
    lemma_enc_u64_len(v.fitness as u64);
    let n1 = e1.len() as int;
    let n2 = n1 + 8;
    let n3 = n2 + e3.len() as int;
    let n4 = n3 + e4.len() as int;
    assert(e.subrange(0, n1) =~= e1);
    assert(e.subrange(n1, n2) =~= e2);
    assert(e.subrange(n2, n3) =~= e3);
    assert(e.subrange(n3, n4) =~= e4);
    lemma_subrange_of_prefix(s, pos, e, 0, n1);
    lemma_dec_opt_input_prefix(s, pos, v.input);
    lemma_subrange_of_prefix(s, pos, e, n1, n2);
    lemma_dec_u64_prefix(s, pos + n1, v.fitness as u64);
    lemma_subrange_of_prefix(s, pos, e, n2, n3);
    lemma_dec_opt_indexes_prefix(s, pos + n2, v.indexes);
    lemma_subrange_of_prefix(s, pos, e, n3, n4);
    lemma_dec_opt_novelties_prefix(s, pos + n3, v.novelties);
}

/// Reads `n` raw bytes.
fn read_bytes(buf: &Vec<u8>, pos: usize, n: usize) -> (r: Option<(Vec<u8>, usize)>)
    ensures
        match r {
            Some((b, end)) => dec_bytes(buf@, pos as int, n as int) == Some((b@, end as int))
                && end <= buf@.len() && pos <= end,
            None => dec_bytes(buf@, pos as int, n as int) is None,
        },
{
    if pos > buf.len() || buf.len() - pos < n {
        return None;
    }
    let mut b: Vec<u8> = Vec::new();
    let mut i: usize = 0;
    while i < n
        invariant
            i <= n,
            pos + n <= buf@.len(),
            buf@.len() <= usize::MAX,
            b@ == buf@.subrange(pos as int, pos as int + i as int),
        decreases n - i,
    {
        b.push(buf[pos + i]);
        proof {
            assert(buf@.subrange(pos as int, pos as int + i as int).push(
                buf@[pos + i as int],
            ) =~= buf@.subrange(pos as int, pos as int + i + 1));
        }
        i = i + 1;
    }
    Some((b, pos + n))
}

/// Writes one testcase.
pub fn encode_testcase(tc: &Testcase) -> (r: Vec<u8>)
    requires
        (match tc.spec_indexes_meta() {
            Some(m) => m.tcref >= 0,
            None => true,
        }),
    ensures
        r@ == spec_enc_testcase(tc@),
{
    let mut out: Vec<u8> = Vec::new();
    match tc.input() {
        Option::Some(input) => {
            put_u64(&mut out, 1);
            put_u64(&mut out, input.bytes.len() as u64);
            put_bytes(&mut out, &input.bytes);
        },
        Option::None => {
            put_u64(&mut out, 0);
        },
    }
    let ghost e1 = out@;
    put_u64(&mut out, tc.fitness() as u64);
    match tc.indexes_metadata() {
        Option::Some(meta) => {
            put_u64(&mut out, 1);
            put_u64(&mut out, meta.tcref as u64);
            put_usize_list(&mut out, &meta.list);
        },
        Option::None => {
            put_u64(&mut out, 0);
        },
    }
    match tc.novelties_metadata() {
        Option::Some(meta) => {
            put_u64(&mut out, 1);
            put_usize_list(&mut out, &meta.list);
        },
        Option::None => {
            put_u64(&mut out, 0);
        },
    }
    proof {
        assert(e1 =~= enc_opt_input(tc@.input));
        assert(out@ =~= spec_enc_testcase(tc@));
    }
    out
}

/// Reads an optional input.
fn read_opt_input(buf: &Vec<u8>, pos: usize) -> (r: Option<(Option<BytesInput>, usize)>)
    ensures
        match r {
            Some((v, end)) => dec_opt_input(buf@, pos as int) == Some(
                (
                    match v {
                        Some(i) => Some(i@),
                        None => None,
                    },
                    end as int,
                ),
            ) && end <= buf@.len(),
            None => dec_opt_input(buf@, pos as int) is None,
        },
{
    let tag = read_u64(buf, pos);
    match tag {
        Option::Some((t, p1)) => {
            if t == 0 {
                Some((None, p1))
            } else if t != 1 {
                None
            } else {
                match read_u64(buf, p1) {
                    Option::Some((n, p2)) => {
                        if n > usize::MAX as u64 {
                            return None;
                        }
                        match read_bytes(buf, p2, n as usize) {
                            Option::Some((b, p3)) => Some((Some(BytesInput::new(b)), p3)),
                            Option::None => None,
                        }
                    },
                    Option::None => None,
                }
            }
        },
        Option::None => None,
    }
}

/// Reads an optional indexes record.
fn read_opt_indexes(buf: &Vec<u8>, pos: usize) -> (r: Option<(Option<MapIndexesMetadata>, usize)>)
    ensures
        match r {
            Some((v, end)) => dec_opt_indexes(buf@, pos as int) == Some(
                (
                    match v {
                        Some(m) => Some((m.list@, m.tcref)),
                        None => None,
                    },
                    end as int,
                ),
            ) && end <= buf@.len(),
            None => dec_opt_indexes(buf@, pos as int) is None,
        },
{
    let tag = read_u64(buf, pos);
    match tag {
        Option::Some((t, p1)) => {
            if t == 0 {
                Some((None, p1))
            } else if t != 1 {
                None
            } else {
                match read_u64(buf, p1) {
                    Option::Some((tcref, p2)) => {
                        if tcref > isize::MAX as u64 {
                            return None;
                        }
                        match read_usize_list(buf, p2) {
                            Option::Some((l, p3)) => {
                                let mut meta = MapIndexesMetadata::new(l);
                                meta.tcref = tcref as isize;
                                Some((Some(meta), p3))
                            },
                            Option::None => None,
                        }
                    },
                    Option::None => None,
                }
            }
        },
        Option::None => None,
    }
}

/// Reads an optional novelties record.
fn read_opt_novelties(buf: &Vec<u8>, pos: usize) -> (r: Option<
    (Option<MapNoveltiesMetadata>, usize),
>)
    ensures
        match r {
            Some((v, end)) => dec_opt_novelties(buf@, pos as int) == Some(
                (
                    match v {
                        Some(m) => Some(m.list@),
                        None => None,
                    },
                    end as int,
                ),
            ) && end <= buf@.len(),
            None => dec_opt_novelties(buf@, pos as int) is None,
        },
{
    let tag = read_u64(buf, pos);
    match tag {
        Option::Some((t, p1)) => {
            if t == 0 {
                Some((None, p1))
            } else if t != 1 {
                None
            } else {
                match read_usize_list(buf, p1) {
                    Option::Some((l, p2)) => Some((Some(MapNoveltiesMetadata::new(l)), p2)),
                    Option::None => None,
                }
            }
        },
        Option::None => None,
    }
}

/// Reads one testcase.
pub fn decode_testcase(buf: &Vec<u8>, pos: usize) -> (r: Option<(Testcase, usize)>)
    ensures
        match r {
            Some((tc, end)) => spec_dec_testcase(buf@, pos as int) == Some((tc@, end as int))
                && end <= buf@.len(),
            None => spec_dec_testcase(buf@, pos as int) is None,
        },
{
    let step_in = read_opt_input(buf, pos);
    match step_in {
        Option::Some((input, p1)) => {
            match read_u64(buf, p1) {
                Option::Some((fit, p2)) => {
                    if fit > u32::MAX as u64 {
                        return None;
                    }
                    match read_opt_indexes(buf, p2) {
                        Option::Some((indexes, p3)) => {
                            match read_opt_novelties(buf, p3) {
                                Option::Some((novelties, p4)) => {
                                    let tc = Testcase::from_parts(
                                        input,
                                        fit as u32,
                                        indexes,
                                        novelties,
                                    );
                                    Some((tc, p4))
                                },
                                Option::None => None,
                            }
                        },
                        Option::None => None,
                    }
                },
                Option::None => None,
            }
        },
        Option::None => None,
    }
}

/// An encoded scheduler: its kind, and for the round-robin kind its
/// position.
pub open spec fn enc_scheduler(sch: Scheduler) -> Seq<u8> {
    match sch {
        Scheduler::Queue { pos } => enc_u64(0) + enc_u64(pos as u64),
        Scheduler::Random => enc_u64(1),
    }
}

/// Decodes a scheduler.
pub open spec fn dec_scheduler(s: Seq<u8>, pos: int) -> Option<(Scheduler, int)> {
    match dec_u64(s, pos) {
        None => None,
        Some((tag, p1)) => if tag == 0 {
            match dec_u64(s, p1) {
                None => None,
                Some((q, p2)) => if q > usize::MAX as u64 {
                    None
                } else {
                    Some((Scheduler::Queue { pos: q as usize }, p2))
                },
            }
        } else if tag == 1 {
            Some((Scheduler::Random, p1))
        } else {
            None
        },
    }
}

/// A scheduler decodes to what was encoded.
pub proof fn lemma_dec_scheduler_prefix(s: Seq<u8>, pos: int, sch: Scheduler)
    requires
        0 <= pos,
        pos + enc_scheduler(sch).len() <= s.len(),
        s.subrange(pos, pos + enc_scheduler(sch).len() as int) == enc_scheduler(sch),
    ensures
        dec_scheduler(s, pos) == Some((sch, pos + enc_scheduler(sch).len())),
{
    let e = enc_scheduler(sch);
    match sch {
        Scheduler::Queue { pos: q } => {
            lemma_enc_u64_len(0);
            lemma_enc_u64_len(q as u64);
            assert(e.subrange(0, 8) =~= enc_u64(0));
            assert(e.subrange(8, 16) =~= enc_u64(q as u64));
            lemma_subrange_of_prefix(s, pos, e, 0, 8);
            lemma_dec_u64_prefix(s, pos, 0);
            lemma_subrange_of_prefix(s, pos, e, 8, 16);
            lemma_dec_u64_prefix(s, pos + 8, q as u64);
        },
        Scheduler::Random => {
            lemma_enc_u64_len(1);
            assert(e.subrange(0, 8) =~= enc_u64(1));
            lemma_subrange_of_prefix(s, pos, e, 0, 8);
            lemma_dec_u64_prefix(s, pos, 1);
        },
    }
}

/// An encoded testcase sequence, one testcase after another.
pub open spec fn enc_testcase_seq(l: Seq<TestcaseView>) -> Seq<u8>
    decreases l.len(),
{
    if l.len() == 0 {
        Seq::<u8>::empty()
    } else {
        spec_enc_testcase(l[0]) + enc_testcase_seq(l.subrange(1, l.len() as int))
    }
}

/// Decodes `count` testcases.
pub open spec fn dec_testcase_seq(s: Seq<u8>, pos: int, count: int) -> Option<
    (Seq<TestcaseView>, int),
>
    decreases count,
{
    if count <= 0 {
        Some((Seq::<TestcaseView>::empty(), pos))
    } else {
        match spec_dec_testcase(s, pos) {
            None => None,
            Some((tc, p1)) => match dec_testcase_seq(s, p1, count - 1) {
                None => None,
                Some((rest, p2)) => Some((seq![tc] + rest, p2)),
            },
        }
    }
}

/// One encoded corpus: the scheduler, the count, then the testcases.
pub open spec fn spec_enc_corpus(v: CorpusView) -> Seq<u8> {
    enc_scheduler(v.scheduler) + enc_u64(v.entries.len() as u64) + enc_testcase_seq(v.entries)
}

/// Decodes one corpus.
pub open spec fn spec_dec_corpus(s: Seq<u8>, pos: int) -> Option<(CorpusView, int)> {
    match dec_scheduler(s, pos) {
        None => None,
        Some((scheduler, p1)) => match dec_u64(s, p1) {
            None => None,
            Some((n, p2)) => if n > usize::MAX as u64 {
                None
            } else {
                match dec_testcase_seq(s, p2, n as int) {
                    None => None,
                    Some((entries, p3)) => Some((CorpusView { entries, scheduler }, p3)),
                }
            },
        },
    }
}

/// The corpus can be written down: every testcase can, and its size fits
/// the platform.
pub open spec fn corpus_encodable(v: CorpusView) -> bool {
    &&& v.entries.len() <= usize::MAX
    &&& forall|k: int| 0 <= k < v.entries.len() ==> encodable(#[trigger] v.entries[k])
}

/// A testcase sequence decodes to what was encoded.
pub proof fn lemma_dec_testcase_seq_prefix(s: Seq<u8>, pos: int, l: Seq<TestcaseView>)
    requires
        0 <= pos,
        forall|k: int| 0 <= k < l.len() ==> encodable(#[trigger] l[k]),
        pos + enc_testcase_seq(l).len() <= s.len(),
        s.subrange(pos, pos + enc_testcase_seq(l).len() as int) == enc_testcase_seq(l),
    ensures
        dec_testcase_seq(s, pos, l.len() as int) == Some((l, pos + enc_testcase_seq(l).len())),
    decreases l.len(),
{
    if l.len() > 0 {
        let tail = l.subrange(1, l.len() as int);
        let e = enc_testcase_seq(l);
        let h = spec_enc_testcase(l[0]);
        assert(e.subrange(0, h.len() as int) =~= h);
        assert(e.subrange(h.len() as int, e.len() as int) =~= enc_testcase_seq(tail));
        lemma_subrange_of_prefix(s, pos, e, 0, h.len() as int);
        lemma_testcase_round_trip(s, pos, l[0]);
        lemma_subrange_of_prefix(s, pos, e, h.len() as int, e.len() as int);
        lemma_dec_testcase_seq_prefix(s, pos + h.len() as int, tail);
        assert(seq![l[0]] + tail =~= l);
    }
}

/// Decoding an encoded corpus returns it unchanged: saving and loading a
/// corpus preserves every observable operation, since the reloaded corpus
/// is mathematically the same one.
pub proof fn lemma_corpus_round_trip(s: Seq<u8>, pos: int, v: CorpusView)
    requires
        0 <= pos,
        corpus_encodable(v),
        pos + spec_enc_corpus(v).len() <= s.len(),
        s.subrange(pos, pos + spec_enc_corpus(v).len() as int) == spec_enc_corpus(v),
    ensures
        spec_dec_corpus(s, pos) == Some((v, pos + spec_enc_corpus(v).len())),
{
    let e1 = enc_scheduler(v.scheduler);
    let e2 = enc_u64(v.entries.len() as u64);
    let e3 = enc_testcase_seq(v.entries);
    let e = spec_enc_corpus(v);
    lemma_enc_u64_len(v.entries.len() as u64);
    let n1 = e1.len() as int;
    let n2 = n1 + 8;
    let n3 = n2 + e3.len() as int;
    assert(e.subrange(0, n1) =~= e1);
    assert(e.subrange(n1, n2) =~= e2);
    assert(e.subrange(n2, n3) =~= e3);
    lemma_subrange_of_prefix(s, pos, e, 0, n1);
    lemma_dec_scheduler_prefix(s, pos, v.scheduler);
    lemma_subrange_of_prefix(s, pos, e, n1, n2);
    lemma_dec_u64_prefix(s, pos + n1, v.entries.len() as u64);
    lemma_subrange_of_prefix(s, pos, e, n2, n3);
    lemma_dec_testcase_seq_prefix(s, pos + n2, v.entries);
}

/// Writes one corpus.
pub fn encode_corpus(corpus: &InMemoryCorpus) -> (r: Vec<u8>)
    requires
        forall|k: int|
            0 <= k < corpus.spec_entries().len() ==> (match (
                #[trigger] corpus.spec_entries()[k]
            ).spec_indexes_meta() {
                Some(m) => m.tcref >= 0,
                None => true,
            }),
    ensures
        r@ == spec_enc_corpus(corpus@),
{
    let mut out: Vec<u8> = Vec::new();
    match corpus.scheduler() {
        Scheduler::Queue { pos } => {
            put_u64(&mut out, 0);
            put_u64(&mut out, pos as u64);
        },
        Scheduler::Random => {
            put_u64(&mut out, 1);
        },
    }
    let n = corpus.count();
    put_u64(&mut out, n as u64);
    proof {
        assert(out@ =~= enc_scheduler(corpus@.scheduler) + enc_u64(
            corpus@.entries.len() as u64,
        ));
        assert(corpus@.entries.subrange(0, n as int) =~= corpus@.entries);
    }
    let ghost header = out@;
    let mut k: usize = 0;
    while k < n
        invariant
            k <= n,
            n == corpus.spec_entries().len(),
            forall|j: int|
                0 <= j < corpus.spec_entries().len() ==> (match (
                    #[trigger] corpus.spec_entries()[j]
                ).spec_indexes_meta() {
                    Some(m) => m.tcref >= 0,
                    None => true,
                }),
            header == enc_scheduler(corpus@.scheduler) + enc_u64(corpus@.entries.len() as u64),
            out@ + enc_testcase_seq(corpus@.entries.subrange(k as int, n as int)) == header
                + enc_testcase_seq(corpus@.entries),
        decreases n - k,
    {
        proof {
            assert(corpus@.entries.subrange(k as int, n as int).subrange(
                1,
                (n - k) as int,
            ) =~= corpus@.entries.subrange(k + 1, n as int));
            assert(corpus@.entries.subrange(k as int, n as int)[0] == corpus@.entries[k as int]);
            assert(corpus@.entries[k as int] == corpus.spec_entries()[k as int]@);
        }
        let mut encoded = encode_testcase(corpus.get(k));
        out.append(&mut encoded);
        proof {
            assert(out@ + enc_testcase_seq(corpus@.entries.subrange(k + 1, n as int)) =~= header
                + enc_testcase_seq(corpus@.entries));
        }
        k = k + 1;
    }
    proof {
        assert(corpus@.entries.subrange(n as int, n as int) =~= Seq::<TestcaseView>::empty());
        assert(out@ + Seq::<u8>::empty() =~= out@);
        assert(header + enc_testcase_seq(corpus@.entries) =~= spec_enc_corpus(corpus@));
    }
    out
}

/// Reads one corpus.
#[verifier::loop_isolation(false)]
pub fn decode_corpus(buf: &Vec<u8>) -> (r: Option<InMemoryCorpus>)
    ensures
        match r {
            Some(c) => (match spec_dec_corpus(buf@, 0) {
                Some((v, _)) => c@ == v,
                None => false,
            }),
            None => spec_dec_corpus(buf@, 0) is None,
        },
{
    let sched_step = read_u64(buf, 0);
    let (scheduler, p1) = match sched_step {
        Option::Some((tag, p0)) => {
            if tag == 0 {
                match read_u64(buf, p0) {
                    Option::Some((q, p1)) => {
                        if q > usize::MAX as u64 {
                            return None;
                        }
                        (Scheduler::Queue { pos: q as usize }, p1)
                    },
                    Option::None => {
                        return None;
                    },
                }
            } else if tag == 1 {
                (Scheduler::Random, p0)
            } else {
                return None;
            }
        },
        Option::None => {
            return None;
        },
    };
    let count_step = read_u64(buf, p1);
    let (count, p2) = match count_step {
        Option::Some((n, p2)) => {
            if n > usize::MAX as u64 {
                return None;
            }
            (n as usize, p2)
        },
        Option::None => {
            return None;
        },
    };
    let mut corpus = InMemoryCorpus::with_scheduler(scheduler);
    let mut cur = p2;
    let mut remaining = count;
    while remaining > 0
        invariant
            remaining <= count,
            cur <= buf@.len(),
            corpus.spec_scheduler() == scheduler,
            corpus@.entries.len() == count - remaining,
            (match dec_testcase_seq(buf@, cur as int, remaining as int) {
                Some((rest, end)) => dec_testcase_seq(buf@, p2 as int, count as int) == Some(
                    (corpus@.entries + rest, end),
                ),
                None => dec_testcase_seq(buf@, p2 as int, count as int) is None,
            }),
        decreases remaining,
    {
        let step = decode_testcase(buf, cur);
        match step {
            Option::Some((tc, end)) => {
                let ghost entries0 = corpus@.entries;
                corpus.add(tc);
                proof {
                    assert(corpus@.entries =~= entries0.push(tc@));
                    assert forall|rest: Seq<TestcaseView>|
                        true implies entries0 + (seq![tc@] + rest) =~= corpus@.entries + rest by {}
                }
                cur = end;
                remaining = remaining - 1;
            },
            Option::None => {
                return None;
            },
        }
    }
    proof {
        assert(corpus@.entries + Seq::<TestcaseView>::empty() =~= corpus@.entries);
    }
    Some(corpus)
}

} // verus!
