//! Inputs fed to the target.
//!
//! An input is an opaque payload; the core only needs to clone it, hand a
//! byte view to mutators, and serialize it for persistence.

use vstd::prelude::*;

verus! {

/// A byte-buffer input, the canonical input type of the core.
#[derive(Debug, PartialEq, Eq)]
pub struct BytesInput {
    /// The raw bytes the target consumes.
    pub bytes: Vec<u8>,
}

impl Clone for BytesInput {
    /// Clones the input; the copy holds the same bytes.
    fn clone(&self) -> (r: Self)
        ensures
            r@ == self@,
    {
        let bytes = self.bytes.clone();
        proof {
            assert(bytes@ =~= self.bytes@);
        }
        BytesInput { bytes }
    }
}

impl View for BytesInput {
    type V = Seq<u8>;

    open spec fn view(&self) -> Seq<u8> {
        self.bytes@
    }
}

impl BytesInput {
    /// Wraps a byte buffer as an input.
    pub fn new(bytes: Vec<u8>) -> (r: Self)
        ensures
            r@ == bytes@,
    {
        BytesInput { bytes }
    }

    /// The number of bytes in the input.
    pub fn len(&self) -> (r: usize)
        ensures
            r == self@.len(),
    {
        self.bytes.len()
    }
}

} // verus!
