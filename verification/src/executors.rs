//! The executor boundary.
//!
//! An executor runs the target on one input and reports how the run ended.
//! The observable behaviour of the run — the observation-map sites the
//! target touched — comes back as a list of cell writes that the pipeline
//! applies to the map observers; this keeps every map mutation inside
//! verified code while the target itself stays outside the core.

use vstd::prelude::*;

use crate::inputs::BytesInput;
use crate::Error;

verus! {

/// How one execution of the target ended.
#[derive(Clone, Copy, Debug, PartialEq, Eq, Structural)]
pub enum ExitKind {
    /// The target ran to completion.
    Okay,
    /// The target crashed.
    Crash,
    /// The executor's timeout expired before the target finished.
    Timeout,
    /// The target ran out of memory.
    Oom,
    /// A differential executor saw its two targets disagree.
    Diff,
}

/// One write the target performed into the observation map.
#[derive(Clone, Copy, Debug, PartialEq, Eq, Structural)]
pub struct MapWrite {
    /// The map cell that was touched.
    pub index: usize,
    /// The value recorded at that cell.
    pub value: u8,
}

/// Everything one run of the target produced: its map writes and its exit.
#[derive(Clone, Debug)]
pub struct TargetRun {
    /// The observation-map cells the target touched, in order.
    pub writes: Vec<MapWrite>,
    /// How the run ended.
    pub exit_kind: ExitKind,
}

/// A map after a list of target writes is applied in order: each write
/// lands at its index, writes outside the map are ignored.
pub open spec fn spec_apply_writes(m: Seq<u8>, ws: Seq<MapWrite>) -> Seq<u8>
    decreases ws.len(),
{
    if ws.len() <= 0 {
        m
    } else {
        let prev = spec_apply_writes(m, ws.drop_last());
        let w = ws.last();
        if w.index < m.len() {
            prev.update(w.index as int, w.value)
        } else {
            prev
        }
    }
}

/// Applying writes never changes the map's length.
pub proof fn lemma_apply_writes_len(m: Seq<u8>, ws: Seq<MapWrite>)
    ensures
        spec_apply_writes(m, ws).len() == m.len(),
    decreases ws.len(),
{
    if ws.len() > 0 {
        lemma_apply_writes_len(m, ws.drop_last());
    }
}

/// The contract the core consumes from concrete executors.  Embedders
/// implement this for in-process harnesses, fork servers or command runners;
/// nothing is assumed of a run beyond its type.
pub trait Executor {
    /// Runs the target once on `input`.
    fn run_target(&mut self, input: &BytesInput) -> Result<TargetRun, Error>;
}

/// An executor whose target does nothing: no writes, a clean exit.
#[derive(Clone, Debug)]
pub struct NoopExecutor {
    _private: bool,
}

impl NoopExecutor {
    /// Creates a no-op executor.
    pub fn new() -> Self {
        NoopExecutor { _private: false }
    }
}

impl Executor for NoopExecutor {
    fn run_target(&mut self, _input: &BytesInput) -> Result<TargetRun, Error> {
        Result::Ok(TargetRun { writes: Vec::new(), exit_kind: ExitKind::Okay })
    }
}

/// One entry of a scripted target: inputs equal to `pattern` produce the
/// given writes and exit kind.
#[derive(Clone, Debug)]
pub struct ScriptedRule {
    /// The exact input bytes this rule answers.
    pub pattern: Vec<u8>,
    /// The map writes the target performs on that input.
    pub writes: Vec<MapWrite>,
    /// How the run ends on that input.
    pub exit_kind: ExitKind,
}

/// The response of a scripted target: the first rule whose pattern equals
/// the input decides; with no matching rule the target does nothing.
pub open spec fn scripted_response(rules: Seq<ScriptedRule>, input: Seq<u8>) -> (Seq<
    MapWrite,
>, ExitKind)
    decreases rules.len(),
{
    if rules.len() <= 0 {
        (Seq::<MapWrite>::empty(), ExitKind::Okay)
    } else if rules[0].pattern@ == input {
        (rules[0].writes@, rules[0].exit_kind)
    } else {
        scripted_response(rules.subrange(1, rules.len() as int), input)
    }
}

/// Compares two byte buffers.
pub fn bytes_eq(a: &Vec<u8>, b: &Vec<u8>) -> (r: bool)
    ensures
        r == (a@ == b@),
{
    if a.len() != b.len() {
        return false;
    }
    let n = a.len();
    let mut i: usize = 0;
    while i < n
        invariant
            i <= n,
            n == a@.len() == b@.len(),
            forall|k: int| 0 <= k < i ==> a@[k] == b@[k],
        decreases n - i,
    {
        if a[i] != b[i] {
            return false;
        }
        i = i + 1;
    }
    proof {
        assert(a@ =~= b@);
    }
    true
}

/// A deterministic executor driven by a table of rules; the in-memory
/// stand-in for a real target when testing the pipeline.
#[derive(Clone, Debug)]
pub struct ScriptedExecutor {
    /// The script, consulted first rule first.
    pub rules: Vec<ScriptedRule>,
}

impl ScriptedExecutor {
    /// Creates an executor with an empty script: every input exits clean
    /// with no writes.
    pub fn new() -> (r: Self)
        ensures
            r.rules@.len() == 0,
    {
        ScriptedExecutor { rules: Vec::new() }
    }

    /// Appends a rule to the script.
    pub fn add_rule(&mut self, rule: ScriptedRule)
        ensures
            final(self).rules@ == old(self).rules@.push(rule),
    {
        self.rules.push(rule);
    }

    /// Answers `input` from the script: the first matching rule's writes and
    /// exit kind, or a clean empty run.
    pub fn run_scripted(&self, input: &BytesInput) -> (r: TargetRun)
        ensures
            r.writes@ == scripted_response(self.rules@, input@).0,
            r.exit_kind == scripted_response(self.rules@, input@).1,
    {
        let n = self.rules.len();
        proof {
            assert(self.rules@.subrange(0, n as int) =~= self.rules@);
        }
        let mut i: usize = 0;
        while i < n
            invariant
                i <= n,
                n == self.rules@.len(),
                scripted_response(self.rules@, input@) == scripted_response(
                    self.rules@.subrange(i as int, n as int),
                    input@,
                ),
            decreases n - i,
        {
            proof {
                assert(self.rules@.subrange(i as int, n as int)[0] == self.rules@[i as int]);
            }
            if bytes_eq(&self.rules[i].pattern, &input.bytes) {
                let writes = self.rules[i].writes.clone();
                proof {
                    assert(writes@ =~= self.rules@[i as int].writes@);
                }
                return TargetRun { writes, exit_kind: self.rules[i].exit_kind };
            }
            proof {
                assert(self.rules@.subrange(i as int, n as int).subrange(
                    1,
                    (n - i) as int,
                ) =~= self.rules@.subrange(i + 1, n as int));
            }
            i = i + 1;
        }
        TargetRun { writes: Vec::new(), exit_kind: ExitKind::Okay }
    }
}

impl Executor for ScriptedExecutor {
    fn run_target(&mut self, input: &BytesInput) -> Result<TargetRun, Error> {
        Result::Ok(self.run_scripted(input))
    }
}

} // verus!
