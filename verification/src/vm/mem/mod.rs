use vstd::prelude::*;

pub mod heap;
pub mod buddy;

pub mod array;

verus! {

/// An address in VM memory: an offset from the start of the heap.
pub type Addr = usize;

/// Every block lies inside a heap of `size` bytes.
pub open spec fn within(blocks: Map<nat, nat>, size: nat) -> bool {
    forall|a: nat| #[trigger] blocks.contains_key(a) ==> a + blocks[a] <= size
}

/// No two blocks overlap.
pub open spec fn disjoint_blocks(blocks: Map<nat, nat>) -> bool {
    forall|a: nat, b: nat|
        #[trigger] blocks.contains_key(a) && #[trigger] blocks.contains_key(b) && a != b
            ==> a + blocks[a] <= b || b + blocks[b] <= a
}

/// A reference to a location in VM memory.
pub trait VmRef {
    /// The address it refers to.
    spec fn spec_addr(&self) -> nat;

    fn addr(&self) -> (r: Addr)
        ensures
            r == self.spec_addr(),
    ;
}

/// An allocator of VM storage.
///
/// It hands out blocks of a heap of fixed size; the blocks it has handed out and not taken back
/// never overlap.
pub trait Alloc: Sized {
    type Ref: VmRef;

    /// The allocator's bookkeeping is consistent.
    spec fn wf(&self) -> bool;

    /// The size of the heap it manages.
    spec fn capacity(&self) -> nat;

    /// The blocks handed out and not freed: the address of each, and its size.
    spec fn live(&self) -> Map<nat, nat>;

    /// Whether a free block can serve a request for `size` bytes aligned to `align`.
    spec fn can_serve(&self, size: nat, align: nat) -> bool;

    /// Live blocks lie inside the heap and never overlap.
    proof fn lemma_live(&self)
        requires
            self.wf(),
        ensures
            within(self.live(), self.capacity()),
            disjoint_blocks(self.live()),
    ;

    /// Allocates a block of at least `size` bytes, and at least `align`; `None` exactly when no
    /// free block can serve the request.
    fn allocate(&mut self, size: usize, align: usize) -> (r: Option<Self::Ref>)
        requires
            old(self).wf(),
        ensures
            final(self).wf(),
            final(self).capacity() == old(self).capacity(),
            r is Some <==> old(self).can_serve(size as nat, align as nat),
            match r {
                Some(rf) => {
                    &&& !old(self).live().contains_key(rf.spec_addr())
                    &&& final(self).live().contains_key(rf.spec_addr())
                    &&& final(self).live()[rf.spec_addr()] >= size
                    &&& final(self).live()[rf.spec_addr()] >= align
                    &&& final(self).live() == old(self).live().insert(rf.spec_addr(), final(self).live()[rf.spec_addr()])
                },
                None => final(self).live() == old(self).live(),
            },
    ;

    /// Frees a block that this allocator handed out.
    fn free(&mut self, rf: Self::Ref)
        requires
            old(self).wf(),
            old(self).live().contains_key(rf.spec_addr()),
        ensures
            final(self).wf(),
            final(self).capacity() == old(self).capacity(),
            final(self).live() == old(self).live().remove(rf.spec_addr()),
    ;

    /// An allocator of a heap of `size` bytes, with nothing handed out. Once the heap has at
    /// least sixteen bytes, it serves any request for at most half of it.
    fn new(size: usize) -> (r: Self)
        ensures
            r.wf(),
            r.capacity() == size,
            r.live() == Map::<nat, nat>::empty(),
            forall|s: nat, a: nat| 16 <= size && 2 * s <= size && 2 * a <= size ==> #[trigger] r.can_serve(s, a),
    ;
}

/// A value that can be allocated by a VM allocator.
pub trait VmNew: Sized {
    fn new<A: Alloc<Ref = heap::HeapRef>>(allocator: &mut A) -> (r: Option<Self>)
        requires
            old(allocator).wf(),
        ensures
            final(allocator).wf(),
            final(allocator).capacity() == old(allocator).capacity(),
    ;
}

/// A value that knows how many bytes it takes up in VM memory.
pub trait VmSized {
    /// The number of bytes.
    spec fn spec_size(&self) -> nat;

    fn size_of(&self) -> (r: usize)
        requires
            self.spec_size() <= usize::MAX,
        ensures
            r == self.spec_size(),
    ;
}

} // verus!
