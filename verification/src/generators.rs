//! Generators: sources of fresh inputs for seeding a corpus.

use vstd::prelude::*;

use crate::inputs::BytesInput;
use crate::utils::{xorshift_iter, xorshift_step, StdRand};
use crate::Error;

verus! {

/// The contract the core consumes from input generators; embedders
/// implement it for their own input shapes.
pub trait Generator {
    /// Produces one fresh input.
    fn generate(&mut self, rand: &mut StdRand) -> Result<BytesInput, Error>;
}

/// The length bound the generator draws below: one past the configured
/// maximum, capped at the platform limit.
pub open spec fn spec_gen_bound(max_size: usize) -> u64 {
    if max_size < usize::MAX {
        (max_size + 1) as u64
    } else {
        usize::MAX as u64
    }
}

/// Generates byte buffers of random contents and random length up to a
/// bound.
#[derive(Clone, Copy, Debug)]
pub struct RandBytesGenerator {
    max_size: usize,
}

impl RandBytesGenerator {
    /// The longest input this generator produces.
    pub closed spec fn spec_max_size(&self) -> usize {
        self.max_size
    }

    /// Creates a generator bounded by `max_size` bytes.
    pub fn new(max_size: usize) -> (r: Self)
        ensures
            r.spec_max_size() == max_size,
    {
        RandBytesGenerator { max_size }
    }

    /// Produces one random input of at most the configured length: the
    /// first draw picks the length, one further draw fills each byte.
    pub fn generate_bytes(&self, rand: &mut StdRand) -> (r: BytesInput)
        ensures
            ({
                let s0 = old(rand).spec_seed();
                let len = xorshift_step(s0) % spec_gen_bound(self.spec_max_size());
                &&& r@.len() == len
                &&& (forall|k: int|
                    0 <= k < len ==> r@[k] == (xorshift_iter(s0, (k + 2) as nat) % 256) as u8)
                &&& final(rand).spec_seed() == xorshift_iter(s0, (len + 1) as nat)
            }),
            r@.len() <= self.spec_max_size(),
    {
        let ghost s0 = rand.spec_seed();
        let bound = if self.max_size < usize::MAX {
            self.max_size + 1
        } else {
            usize::MAX
        };
        let len = rand.below(bound as u64) as usize;
        proof {
            assert(xorshift_iter(s0, 1) == xorshift_step(s0)) by {
                reveal_with_fuel(xorshift_iter, 2);
            }
        }
        let mut bytes: Vec<u8> = Vec::new();
        while bytes.len() < len
            invariant
                bytes@.len() <= len,
                len < spec_gen_bound(self.spec_max_size()),
                len == xorshift_step(s0) % spec_gen_bound(self.spec_max_size()),
                len <= self.spec_max_size(),
                forall|k: int|
                    0 <= k < bytes@.len() ==> bytes@[k] == (xorshift_iter(s0, (k + 2) as nat)
                        % 256) as u8,
                rand.spec_seed() == xorshift_iter(s0, (bytes@.len() + 1) as nat),
            decreases len - bytes@.len(),
        {
            let b = rand.below(256) as u8;
            bytes.push(b);
        }
        BytesInput { bytes }
    }
}

impl Generator for RandBytesGenerator {
    fn generate(&mut self, rand: &mut StdRand) -> Result<BytesInput, Error> {
        Result::Ok(self.generate_bytes(rand))
    }
}

} // verus!
