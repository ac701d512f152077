use vstd::prelude::*;

verus! {

/// A type expression, by the name it gives.
#[derive(Debug, Clone)]
pub struct TyExpr(pub String);

} // verus!
