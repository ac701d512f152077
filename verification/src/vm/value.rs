use vstd::prelude::*;
use crate::vm::symbol::Symbol;

verus! {

/// A pool of string constants used by the VM.
pub struct StringPool {
    strings: Vec<String>,
}

/// The symbol of a string in a string pool.
#[derive(Debug, Clone, Copy, PartialEq, Eq, PartialOrd, Ord, Structural)]
pub struct StringSymbol(pub usize);

impl Symbol for StringSymbol {
    open spec fn rank(&self) -> int {
        self.0 as int
    }

    open spec fn spec_index(&self) -> int {
        self.0 as int
    }

    proof fn lemma_rank_injective(a: Self, b: Self) {
    }

    fn index(&self) -> (r: usize) {
        self.0
    }

    open spec fn has_next(&self) -> bool {
        self.0 < usize::MAX
    }

    open spec fn spec_next(&self) -> Self {
        StringSymbol((self.0 + 1) as usize)
    }

    proof fn lemma_next(a: Self) {
    }

    fn next(&self) -> (r: Self) {
        StringSymbol(self.0 + 1)
    }

    fn same(&self, other: &Self) -> (r: bool) {
        self.0 == other.0
    }

    fn before(&self, other: &Self) -> (r: bool) {
        self.0 < other.0
    }
}

} // verus!
