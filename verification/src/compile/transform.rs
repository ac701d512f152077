use vstd::prelude::*;

verus! {

/// A transformation that consumes itself and a value to make an output.
pub trait Transform<In> {
    type Out;

    fn transform(self, value: In) -> Self::Out;
}

} // verus!
