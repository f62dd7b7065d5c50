use vstd::prelude::*;
use vstd::string::StringSliceAdditionalSpecFns;

verus! {

/// The cost a stored value reports to the cache.
///
/// Any type stored as a value must expose a weight: a non-negative integer
/// cost used in place of a fixed per-slot count to decide fullness.  The
/// weight of a value must be stable for as long as the value sits unmodified
/// in the cache; this is expressed by tying the executable [`Weighted::weight`]
/// to the mathematical [`Weighted::spec_weight`] of the same value.
pub trait Weighted {
    /// The mathematical weight of this value.
    spec fn spec_weight(&self) -> usize;

    /// Report the weight of this value.
    fn weight(&self) -> (w: usize)
        ensures
            w == self.spec_weight(),
    ;
}

impl Weighted for String {
    open spec fn spec_weight(&self) -> usize {
        vstd::utf8::encode_utf8(self@).len() as usize
    }

    fn weight(&self) -> (w: usize) {
        self.as_str().len()
    }
}

impl Weighted for str {
    open spec fn spec_weight(&self) -> usize {
        self.spec_bytes().len() as usize
    }

    fn weight(&self) -> (w: usize) {
        self.len()
    }
}

impl<'a> Weighted for &'a str {
    open spec fn spec_weight(&self) -> usize {
        self.spec_bytes().len() as usize
    }

    fn weight(&self) -> (w: usize) {
        self.len()
    }
}

impl Weighted for Vec<u8> {
    open spec fn spec_weight(&self) -> usize {
        self@.len() as usize
    }

    fn weight(&self) -> (w: usize) {
        self.len()
    }
}

impl<'a> Weighted for &'a Vec<u8> {
    open spec fn spec_weight(&self) -> usize {
        self@.len() as usize
    }

    fn weight(&self) -> (w: usize) {
        self.len()
    }
}

} // verus!
