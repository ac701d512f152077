use vstd::prelude::*;
use crate::vm::mem::{Addr, Alloc, VmRef};
use crate::vm::mem::array::{ArrayRef, array_align, array_block_bytes, array_fits};

verus! {

/// A reference to a block of the VM heap, with a mark for the garbage collector.
#[derive(Debug, Clone, Copy, PartialEq, Eq, Structural)]
pub struct HeapRef {
    pub addr: Addr,
    pub mark: bool,
}

impl HeapRef {
    /// An unmarked reference to the given address.
    pub fn new(addr: Addr) -> (r: Self)
        ensures
            r == (HeapRef { addr, mark: false }),
    {
        HeapRef { addr, mark: false }
    }
}

impl VmRef for HeapRef {
    open spec fn spec_addr(&self) -> nat {
        self.addr as nat
    }

    fn addr(&self) -> (r: Addr) {
        self.addr
    }
}

/// VM heap storage: a zeroed heap and the allocator that manages it.
pub struct HeapStorage<A: Sized + Alloc<Ref = HeapRef>> {
    allocator: A,
    heap: Vec<u8>,
}

impl<A: Sized + Alloc<Ref = HeapRef>> HeapStorage<A> {
    /// The allocator.
    pub closed spec fn allocator(&self) -> A {
        self.allocator
    }

    /// The allocator manages exactly the heap.
    pub closed spec fn wf(&self) -> bool {
        &&& self.allocator.wf()
        &&& self.allocator.capacity() == self.heap@.len()
    }

    /// The size of the heap.
    pub open spec fn heap_size(&self) -> nat {
        self.allocator().capacity()
    }

    /// A heap of `heap_size` zeroed bytes, with nothing allocated. Once it has at least sixteen
    /// bytes, its allocator serves any request for at most half of it.
    pub fn new(heap_size: usize) -> (r: Self)
        ensures
            r.wf(),
            r.heap_size() == heap_size,
            r.allocator().live() == Map::<nat, nat>::empty(),
            forall|s: nat, a: nat| 16 <= heap_size && 2 * s <= heap_size && 2 * a <= heap_size
                ==> #[trigger] r.allocator().can_serve(s, a),
    {
        let heap = vec![0u8; heap_size];
        let allocator = A::new(heap_size);
        HeapStorage { allocator, heap }
    }

    /// Allocates an array of `len` default values; `None` exactly when its size does not fit or
    /// no block is free for it.
    pub fn alloc_array<T: Default>(&mut self, len: usize) -> (r: Option<ArrayRef<T>>)
        requires
            old(self).wf(),
        ensures
            final(self).wf(),
            final(self).heap_size() == old(self).heap_size(),
            r is Some <==> array_fits::<T>(len as nat)
                && old(self).allocator().can_serve(array_block_bytes::<T>(len as nat), array_align()),
            match r {
                Some(a) => {
                    &&& a@.len() == len
                    &&& forall|i: int| 0 <= i < len ==> call_ensures(T::default, (), #[trigger] a@[i])
                    &&& !old(self).allocator().live().contains_key(a.heap_ref().spec_addr())
                    &&& final(self).allocator().live() == old(self).allocator().live().insert(
                        a.heap_ref().spec_addr(),
                        final(self).allocator().live()[a.heap_ref().spec_addr()],
                    )
                },
                None => final(self).allocator().live() == old(self).allocator().live(),
            },
    {
        ArrayRef::with_len(&mut self.allocator, len)
    }
}

} // verus!
