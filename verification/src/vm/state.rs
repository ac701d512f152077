use vstd::prelude::*;
use crate::vm::mem::Alloc;
use crate::vm::mem::heap::{HeapRef, HeapStorage};

verus! {

/// The state of the VM: its heap.
pub struct State<A: Sized + Alloc<Ref = HeapRef>> {
    pub heap: HeapStorage<A>,
}

} // verus!
