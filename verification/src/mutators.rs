//! Mutators: small input transformations scheduled at random.

use vstd::prelude::*;

use crate::inputs::BytesInput;
use crate::utils::{xorshift_step, StdRand};
use crate::Error;

verus! {

/// One mutation the scheduled mutator can apply.
#[derive(Clone, Copy, Debug, PartialEq, Eq, Structural)]
pub enum Mutation {
    /// Flip one randomly chosen bit.
    Bitflip,
}

/// Flips one randomly chosen bit of the input; an empty input is left
/// unchanged.  Draws the byte position and the bit position from `rand`,
/// in that order.
pub fn mutation_bitflip(rand: &mut StdRand, input: &mut BytesInput) -> (r: Result<(), Error>)
    ensures
        r is Ok,
        old(input)@.len() == 0 ==> *final(input) == *old(input) && *final(rand) == *old(rand),
        old(input)@.len() > 0 ==> ({
            let s1 = xorshift_step(old(rand).spec_seed());
            let s2 = xorshift_step(s1);
            let byte = (s1 % (old(input)@.len() as u64)) as int;
            let bit = s2 % 8;
            &&& final(input)@ == old(input)@.update(
                byte,
                old(input)@[byte] ^ (1u8 << bit as u8),
            )
            &&& final(rand).spec_seed() == s2
        }),
        final(input)@.len() == old(input)@.len(),
{
    let len = input.bytes.len();
    if len == 0 {
        return Ok(());
    }
    let byte = rand.below(len as u64) as usize;
    let bit = rand.below(8) as u8;
    let cur = input.bytes[byte];
    input.bytes.set(byte, cur ^ (1u8 << bit));
    Ok(())
}

/// A mutator that keeps a list of mutations and applies one of them,
/// chosen at random, per call.
#[derive(Clone, Debug)]
pub struct StdScheduledMutator {
    mutations: Vec<Mutation>,
}

impl StdScheduledMutator {
    /// The registered mutations.
    pub closed spec fn spec_mutations(&self) -> Seq<Mutation> {
        self.mutations@
    }

    /// Creates a mutator with no mutations registered.
    pub fn new() -> (r: Self)
        ensures
            r.spec_mutations() == Seq::<Mutation>::empty(),
    {
        StdScheduledMutator { mutations: Vec::new() }
    }

    /// Registers a mutation.
    pub fn add_mutation(&mut self, mutation: Mutation)
        ensures
            final(self).spec_mutations() == old(self).spec_mutations().push(mutation),
    {
        self.mutations.push(mutation);
    }

    /// Applies one randomly chosen registered mutation to `input`; with no
    /// mutations registered the input is left unchanged.  The input's
    /// length is always preserved.
    pub fn mutate(&mut self, rand: &mut StdRand, input: &mut BytesInput) -> (r: Result<(), Error>)
        ensures
            r is Ok,
            *final(self) == *old(self),
            final(input)@.len() == old(input)@.len(),
            old(self).spec_mutations().len() == 0 ==> *final(input) == *old(input) && *final(rand)
                == *old(rand),
    {
        let n = self.mutations.len();
        if n == 0 {
            return Ok(());
        }
        let idx = rand.below(n as u64) as usize;
        match self.mutations[idx] {
            Mutation::Bitflip => mutation_bitflip(rand, input),
        }
    }
}

} // verus!
