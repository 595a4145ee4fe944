//! Observers and the heterogeneous observer list the pipeline drives.
//!
//! Each observer is invoked before and after every execution, in list
//! order.  Observers are looked up by their stable name.

use vstd::prelude::*;

use crate::executors::{ExitKind, MapWrite};
use crate::inputs::BytesInput;
use crate::map_observer::{all_initial, CustomMapObserver};
use crate::Error;

verus! {

/// An observer that watches nothing: every hook succeeds and leaves it
/// unchanged.  The simplest member of an observer list.
#[derive(Clone, Debug)]
pub struct CustomObserver {
    name: String,
}

impl CustomObserver {
    /// The observer's stable identifier.
    pub closed spec fn name_spec(&self) -> Seq<char> {
        self.name@
    }

    /// Creates a no-op observer.
    pub fn new(name: &'static str) -> (r: Self)
        ensures
            r.name_spec() == name@,
    {
        CustomObserver { name: name.to_owned() }
    }

    /// The observer's stable identifier.
    pub fn name(&self) -> (r: &String)
        ensures
            r@ == self.name_spec(),
    {
        &self.name
    }

    /// Flush hook: nothing buffered, nothing to do.
    pub fn flush(&mut self) -> (r: Result<(), Error>)
        ensures
            *final(self) == *old(self),
            r is Ok,
    {
        Ok(())
    }

    /// Pre-execution hook: nothing to reset.
    pub fn pre_exec(&mut self, _input: &BytesInput) -> (r: Result<(), Error>)
        ensures
            *final(self) == *old(self),
            r is Ok,
    {
        Ok(())
    }

    /// Post-execution hook: nothing to finalize.
    pub fn post_exec(&mut self, _input: &BytesInput, _exit_kind: &ExitKind) -> (r: Result<
        (),
        Error,
    >)
        ensures
            *final(self) == *old(self),
            r is Ok,
    {
        Ok(())
    }

    /// Pre-execution hook for a forked child.
    pub fn pre_exec_child(&mut self, _input: &BytesInput) -> (r: Result<(), Error>)
        ensures
            *final(self) == *old(self),
            r is Ok,
    {
        Ok(())
    }

    /// Post-execution hook for a forked child.
    pub fn post_exec_child(&mut self, _input: &BytesInput, _exit_kind: &ExitKind) -> (r: Result<
        (),
        Error,
    >)
        ensures
            *final(self) == *old(self),
            r is Ok,
    {
        Ok(())
    }

    /// Whether this observer wants the target's standard output.
    pub fn observes_stdout(&self) -> (r: bool)
        ensures
            !r,
    {
        false
    }

    /// Whether this observer wants the target's standard error.
    pub fn observes_stderr(&self) -> (r: bool)
        ensures
            !r,
    {
        false
    }

    /// Receives the target's standard output; discarded.
    pub fn observe_stdout(&mut self, _stdout: &[u8])
        ensures
            *final(self) == *old(self),
    {
    }

    /// Receives the target's standard error; discarded.
    pub fn observe_stderr(&mut self, _stderr: &[u8])
        ensures
            *final(self) == *old(self),
    {
    }
}

/// One member of the observer list.
#[derive(Debug)]
pub enum Observer {
    /// A map observer over an observation map.
    MapObserver(CustomMapObserver),
    /// A no-op observer.
    Plain(CustomObserver),
}

impl Observer {
    /// The member's stable identifier.
    pub open spec fn name_of(&self) -> Seq<char> {
        match self {
            Observer::MapObserver(o) => o.name_spec(),
            Observer::Plain(o) => o.name_spec(),
        }
    }

    /// The member's stable identifier.
    pub fn name(&self) -> (r: &String)
        ensures
            r@ == self.name_of(),
    {
        match self {
            Observer::MapObserver(o) => o.name(),
            Observer::Plain(o) => o.name(),
        }
    }

    /// Pre-execution hook: a map observer resets its map; the variant and
    /// name are preserved.
    pub fn pre_exec(&mut self, input: &BytesInput) -> (r: Result<(), Error>)
        ensures
            final(self).name_of() == old(self).name_of(),
            r is Ok,
            match (*old(self), *final(self)) {
                (Observer::MapObserver(o0), Observer::MapObserver(o1)) => {
                    &&& o1@.len() == o0@.len()
                    &&& all_initial(o1@, o1.initial_spec())
                    &&& o1.initial_spec() == o0.initial_spec()
                },
                (Observer::Plain(o0), Observer::Plain(o1)) => o1 == o0,
                _ => false,
            },
    {
        match self {
            Observer::MapObserver(o) => o.pre_exec(input),
            Observer::Plain(o) => o.pre_exec(input),
        }
    }

    /// Resets the member's state: a map observer clears its map to the
    /// initial value; a plain observer has nothing to reset.
    pub fn reset(&mut self) -> (r: Result<(), Error>)
        ensures
            final(self).name_of() == old(self).name_of(),
            r is Ok,
            match (*old(self), *final(self)) {
                (Observer::MapObserver(o0), Observer::MapObserver(o1)) => {
                    &&& o1@.len() == o0@.len()
                    &&& all_initial(o1@, o1.initial_spec())
                    &&& o1.initial_spec() == o0.initial_spec()
                },
                (Observer::Plain(o0), Observer::Plain(o1)) => o1 == o0,
                _ => false,
            },
    {
        match self {
            Observer::MapObserver(o) => o.reset_map(),
            Observer::Plain(_) => Ok(()),
        }
    }

    /// Applies one run's target writes; only map observers record them.
    pub fn apply_writes(&mut self, writes: &Vec<MapWrite>)
        ensures
            final(self).name_of() == old(self).name_of(),
            match (*old(self), *final(self)) {
                (Observer::MapObserver(o0), Observer::MapObserver(o1)) => {
                    &&& o1@ == crate::executors::spec_apply_writes(o0@, writes@)
                    &&& o1@.len() == o0@.len()
                    &&& o1.initial_spec() == o0.initial_spec()
                },
                (Observer::Plain(o0), Observer::Plain(o1)) => o1 == o0,
                _ => false,
            },
    {
        match self {
            Observer::MapObserver(o) => o.apply_writes(writes),
            Observer::Plain(_) => {},
        }
    }

    /// Post-execution hook: no observer in this list finalizes anything.
    pub fn post_exec(&mut self, input: &BytesInput, exit_kind: &ExitKind) -> (r: Result<
        (),
        Error,
    >)
        ensures
            *final(self) == *old(self),
            r is Ok,
    {
        match self {
            Observer::MapObserver(o) => o.post_exec(input, exit_kind),
            Observer::Plain(o) => o.post_exec(input, exit_kind),
        }
    }
}

} // verus!
