use vstd::prelude::*;
use crate::vm::mem::{Alloc, VmNew, VmRef, VmSized};
use crate::vm::mem::heap::HeapRef;

verus! {

/// The alignment of arrays in VM memory: that of a machine word.
pub open spec fn array_align() -> nat {
    vstd::layout::size_of::<usize>()
}

/// The number of bytes taken by the elements of an array of `len` values of `T`.
pub open spec fn array_bytes<T>(len: nat) -> nat {
    len * vstd::layout::size_of::<T>()
}

/// The number of bytes of the heap block of an array of `len` values of `T`: the elements and
/// the word that holds the length.
pub open spec fn array_block_bytes<T>(len: nat) -> nat {
    array_bytes::<T>(len) + array_align()
}

/// Whether the block of an array of `len` values of `T` has a size that a memory layout can
/// describe: it fits, rounded up to the alignment, below `isize::MAX`.
pub open spec fn array_fits<T>(len: nat) -> bool {
    array_block_bytes::<T>(len) <= isize::MAX - (array_align() - 1)
}

/// A fixed-size array of values with a block of the VM heap reserved for it. The block has room
/// for the elements and the length word; the values themselves are kept in a vector beside the
/// heap.
#[derive(Debug)]
pub struct ArrayRef<T> {
    heap_ref: HeapRef,
    cells: Vec<T>,
}

impl<T> View for ArrayRef<T> {
    type V = Seq<T>;

    closed spec fn view(&self) -> Seq<T> {
        self.cells@
    }
}

impl<T> ArrayRef<T> {
    /// The heap block the array lives in.
    pub closed spec fn heap_ref(&self) -> HeapRef {
        self.heap_ref
    }

    /// The number of values in the array.
    pub fn len(&self) -> (r: usize)
        ensures
            r == self@.len(),
    {
        self.cells.len()
    }

    /// Allocates an array of `len` default values in a block of `allocator`.
    ///
    /// `None` exactly when the array's size cannot be described as a memory layout, or when the
    /// allocator has no block for it.
    pub fn with_len<A: Alloc<Ref = HeapRef>>(allocator: &mut A, len: usize) -> (r: Option<Self>)
        where T: Default,
        requires
            old(allocator).wf(),
        ensures
            final(allocator).wf(),
            final(allocator).capacity() == old(allocator).capacity(),
            r is Some <==> array_fits::<T>(len as nat)
                && old(allocator).can_serve(array_block_bytes::<T>(len as nat), array_align()),
            match r {
                Some(a) => {
                    &&& a@.len() == len
                    &&& forall|i: int| 0 <= i < len ==> call_ensures(T::default, (), #[trigger] a@[i])
                    &&& !old(allocator).live().contains_key(a.heap_ref().spec_addr())
                    &&& final(allocator).live() == old(allocator).live().insert(
                        a.heap_ref().spec_addr(),
                        final(allocator).live()[a.heap_ref().spec_addr()],
                    )
                    &&& final(allocator).live()[a.heap_ref().spec_addr()] >= array_block_bytes::<T>(len as nat)
                    &&& final(allocator).live()[a.heap_ref().spec_addr()] >= a.spec_size()
                },
                None => final(allocator).live() == old(allocator).live(),
            },
    {
        let align = core::mem::size_of::<usize>();
        proof {
            broadcast use vstd::layout::layout_of_primitives;
            assert(vstd::layout::size_of::<usize>() * 8 == usize::BITS);
        }
        if align == 0 {
            return None;
        }
        let elems = match len.checked_mul(core::mem::size_of::<T>()) {
            Some(s) => s,
            None => {
                return None;
            },
        };
        let size = match elems.checked_add(align) {
            Some(s) => s,
            None => {
                return None;
            },
        };
        if size > (isize::MAX as usize) - (align - 1) {
            return None;
        }
        let heap_ref = match allocator.allocate(size, align) {
            Some(h) => h,
            None => {
                return None;
            },
        };
        let mut cells: Vec<T> = Vec::new();
        for i in 0..len
            invariant
                cells@.len() == i,
                forall|k: int| 0 <= k < i ==> call_ensures(T::default, (), #[trigger] cells@[k]),
        {
            cells.push(T::default());
        }
        Some(ArrayRef { heap_ref, cells })
    }

    /// The value at `index`.
    pub fn get(&self, index: usize) -> (r: &T)
        requires
            index < self@.len(),
        ensures
            *r == self@[index as int],
    {
        &self.cells[index]
    }

    /// A mutable reference to the value at `index`.
    pub fn get_mut(&mut self, index: usize) -> (r: &mut T)
        requires
            index < old(self)@.len(),
        ensures
            *r == old(self)@[index as int],
            final(self)@ == old(self)@.update(index as int, *final(r)),
            final(self).heap_ref() == old(self).heap_ref(),
    {
        &mut self.cells[index]
    }

    /// Stores `value` at `index`.
    pub fn set(&mut self, index: usize, value: T)
        requires
            index < old(self)@.len(),
        ensures
            final(self)@ == old(self)@.update(index as int, value),
            final(self).heap_ref() == old(self).heap_ref(),
    {
        self.cells.set(index, value);
    }
}

/// Half again the capacity `n`, and at least one cell more.
pub open spec fn grown_capacity(n: nat) -> nat {
    if n < 2 {
        n + 1
    } else {
        n + n / 2
    }
}

/// Whether `allocator` has a block for an array of `len` values of `T`.
pub open spec fn can_back<T, A: Alloc>(allocator: A, len: nat) -> bool {
    &&& len <= usize::MAX
    &&& array_fits::<T>(len)
    &&& allocator.can_serve(array_block_bytes::<T>(len), array_align())
}

/// `rf` is a block that `after` handed out and `before` did not hold, and nothing else changed
/// in what the allocator holds.
pub open spec fn fresh_block<A: Alloc<Ref = HeapRef>>(before: A, after: A, rf: HeapRef) -> bool {
    &&& !before.live().contains_key(rf.spec_addr())
    &&& after.live() == before.live().insert(rf.spec_addr(), after.live()[rf.spec_addr()])
}

/// The list `after` holds the values of `before` in a new backing array of `cap` cells, in a
/// fresh block of the allocator, the cells after them holding default values.
pub open spec fn moved<T: Default, A: Alloc<Ref = HeapRef>>(
    before: ArrayList<T>,
    after: ArrayList<T>,
    alloc_before: A,
    alloc_after: A,
    cap: nat,
) -> bool {
    &&& after.wf()
    &&& after.spec_capacity() == cap
    &&& after.cells().take(before@.len() as int) == before@
    &&& forall|k: int| before@.len() <= k < cap ==> call_ensures(T::default, (), #[trigger] after.cells()[k])
    &&& fresh_block(alloc_before, alloc_after, after.heap_ref())
    &&& alloc_after.live()[after.heap_ref().spec_addr()] >= array_block_bytes::<T>(cap)
}

/// A resizable list kept in a fixed-size array of the VM heap.
#[derive(Debug)]
pub struct ArrayList<T> {
    array_ref: ArrayRef<T>,
    len: usize,
}

impl<T> View for ArrayList<T> {
    type V = Seq<T>;

    /// The values in the list: the first `len` cells of its array.
    closed spec fn view(&self) -> Seq<T> {
        self.array_ref@.take(self.len as int)
    }
}

impl<T> ArrayList<T> {
    /// Every cell of the backing array, in use or not.
    pub closed spec fn cells(&self) -> Seq<T> {
        self.array_ref@
    }

    /// The backing array's heap block.
    pub closed spec fn heap_ref(&self) -> HeapRef {
        self.array_ref.heap_ref()
    }

    /// The list's length is within its array.
    pub closed spec fn wf(&self) -> bool {
        self.len <= self.array_ref@.len()
    }

    /// The number of cells of the backing array.
    pub open spec fn spec_capacity(&self) -> nat {
        self.cells().len()
    }

    /// Moves the list to a new backing array of `new_cap` cells, allocated from `allocator`.
    /// The values keep their places and the cells after them hold default values. Where the
    /// allocator has no block for the array, nothing changes and the result is `false`. The old
    /// block stays allocated.
    fn grow<A: Alloc<Ref = HeapRef>>(&mut self, allocator: &mut A, new_cap: usize) -> (r: bool)
        where T: Default,
        requires
            old(self).wf(),
            old(allocator).wf(),
            old(self)@.len() <= new_cap,
        ensures
            final(allocator).wf(),
            final(allocator).capacity() == old(allocator).capacity(),
            r == can_back::<T, A>(*old(allocator), new_cap as nat),
            r ==> moved(*old(self), *final(self), *old(allocator), *final(allocator), new_cap as nat),
            r ==> final(self)@ == old(self)@,
            !r ==> *final(self) == *old(self) && final(allocator).live() == old(allocator).live(),
    {
        let fresh: ArrayRef<T> = match ArrayRef::with_len(allocator, new_cap) {
            Some(a) => a,
            None => {
                return false;
            },
        };
        let ghost fresh_cells = fresh@;
        let ArrayRef { heap_ref, cells: defaults } = fresh;
        let len = self.len;
        let mut cells: Vec<T> = Vec::new();
        std::mem::swap(&mut cells, &mut self.array_ref.cells);
        cells.truncate(len);
        assert(cells@ =~= old(self)@);
        while cells.len() < new_cap
            invariant
                len <= cells@.len() <= new_cap,
                len == old(self)@.len(),
                cells@.take(len as int) == old(self)@,
                forall|k: int| len <= k < cells@.len() ==> call_ensures(T::default, (), #[trigger] cells@[k]),
            decreases new_cap - cells@.len(),
        {
            let ghost before = cells@;
            cells.push(T::default());
            assert(cells@.take(len as int) =~= before.take(len as int));
        }
        self.array_ref = ArrayRef { heap_ref, cells };
        assert(self@ =~= old(self)@);
        true
    }

    /// Pushes a value to the end of this list. A full list first moves to a new backing array,
    /// allocated from `allocator`, of half again its capacity and at least one cell more.
    ///
    /// `false`, with nothing changed, exactly when the list is full and the allocator has no
    /// block for the bigger array.
    pub fn push<A: Alloc<Ref = HeapRef>>(&mut self, allocator: &mut A, value: T) -> (r: bool)
        where T: Default,
        requires
            old(self).wf(),
            old(allocator).wf(),
        ensures
            final(allocator).wf(),
            final(allocator).capacity() == old(allocator).capacity(),
            final(self).wf(),
            r == (old(self)@.len() < old(self).spec_capacity()
                || can_back::<T, A>(*old(allocator), grown_capacity(old(self).spec_capacity()))),
            r ==> final(self)@ == old(self)@.push(value),
            !r ==> *final(self) == *old(self) && final(allocator).live() == old(allocator).live(),
            old(self)@.len() < old(self).spec_capacity() ==> {
                &&& *final(allocator) == *old(allocator)
                &&& final(self).heap_ref() == old(self).heap_ref()
                &&& final(self).spec_capacity() == old(self).spec_capacity()
            },
            old(self)@.len() == old(self).spec_capacity() && r ==> {
                &&& final(self).spec_capacity() == grown_capacity(old(self).spec_capacity())
                &&& fresh_block(*old(allocator), *final(allocator), final(self).heap_ref())
            },
    {
        let capacity = self.array_ref.len();
        if self.len == capacity {
            let grown = if capacity < 2 {
                capacity.checked_add(1)
            } else {
                capacity.checked_add(capacity / 2)
            };
            let new_cap = match grown {
                Some(n) => n,
                None => {
                    return false;
                },
            };
            if !self.grow(allocator, new_cap) {
                return false;
            }
        }
        let ghost mid = *self;
        let index = self.len;
        assert(index < self.array_ref@.len());
        self.array_ref.set(index, value);
        self.len = self.len + 1;
        assert(self@ =~= mid@.push(value));
        true
    }

    /// The value at `index`, or `None` past the end of the list.
    pub fn get(&self, index: usize) -> (r: Option<&T>)
        requires
            self.wf(),
        ensures
            r == if index < self@.len() {
                Some(&self@[index as int])
            } else {
                None
            },
    {
        if self.len <= index {
            None
        } else {
            Some(self.array_ref.get(index))
        }
    }

    /// The capacity of the array backing this list.
    pub fn capacity(&self) -> (r: usize)
        ensures
            r == self.spec_capacity(),
    {
        self.array_ref.len()
    }

    /// The length of this list.
    pub fn len(&self) -> (r: usize)
        requires
            self.wf(),
        ensures
            r == self@.len(),
    {
        self.len
    }

    /// Sets the length of the list. Where the new length passes the capacity, the list first
    /// moves to a new backing array of exactly that many cells, allocated from `allocator`,
    /// whose cells after the values hold default values; `false`, with nothing changed, exactly
    /// when the allocator has no block for it.
    ///
    /// Within the capacity, cells that come back into the list hold what they held before.
    pub fn resize<A: Alloc<Ref = HeapRef>>(&mut self, allocator: &mut A, new_size: usize) -> (r: bool)
        where T: Default,
        requires
            old(self).wf(),
            old(allocator).wf(),
        ensures
            final(allocator).wf(),
            final(allocator).capacity() == old(allocator).capacity(),
            final(self).wf(),
            new_size <= old(self).spec_capacity() ==> {
                &&& r
                &&& *final(allocator) == *old(allocator)
                &&& final(self).cells() == old(self).cells()
                &&& final(self).heap_ref() == old(self).heap_ref()
                &&& final(self)@ == old(self).cells().take(new_size as int)
            },
            new_size > old(self).spec_capacity() ==> {
                &&& r == can_back::<T, A>(*old(allocator), new_size as nat)
                &&& r ==> {
                    &&& moved(*old(self), *final(self), *old(allocator), *final(allocator), new_size as nat)
                    &&& final(self)@ == final(self).cells()
                }
                &&& !r ==> *final(self) == *old(self) && final(allocator).live() == old(allocator).live()
            },
            r ==> final(self)@.len() == new_size,
    {
        let capacity = self.array_ref.len();
        if new_size > capacity {
            if !self.grow(allocator, new_size) {
                return false;
            }
            self.len = new_size;
            assert(self@ =~= self.cells());
            return true;
        }
        if new_size != self.len {
            self.len = new_size;
        }
        true
    }

    /// The length of a list never exceeds its capacity.
    pub proof fn lemma_len_within(&self)
        requires
            self.wf(),
        ensures
            self@.len() <= self.spec_capacity(),
            forall|i: int| 0 <= i < self@.len() ==> #[trigger] self@[i] == self.cells()[i],
    {
    }

    /// Sets the length of the list, filling any new cells with clones of `value`. Where the new
    /// length passes the capacity, the list first moves to a new backing array of exactly that
    /// many cells, allocated from `allocator`; `false`, with nothing changed, exactly when the
    /// allocator has no block for it.
    pub fn resize_with<A: Alloc<Ref = HeapRef>>(
        &mut self,
        allocator: &mut A,
        new_size: usize,
        value: T,
    ) -> (r: bool)
        where T: Clone + Default,
        requires
            old(self).wf(),
            old(allocator).wf(),
        ensures
            final(allocator).wf(),
            final(allocator).capacity() == old(allocator).capacity(),
            final(self).wf(),
            r == (new_size <= old(self).spec_capacity() || can_back::<T, A>(*old(allocator), new_size as nat)),
            new_size <= old(self).spec_capacity() ==> {
                &&& *final(allocator) == *old(allocator)
                &&& final(self).heap_ref() == old(self).heap_ref()
                &&& final(self).spec_capacity() == old(self).spec_capacity()
            },
            new_size > old(self).spec_capacity() && r ==> {
                &&& final(self).spec_capacity() == new_size
                &&& fresh_block(*old(allocator), *final(allocator), final(self).heap_ref())
            },
            !r ==> *final(self) == *old(self) && final(allocator).live() == old(allocator).live(),
            r ==> {
                &&& final(self)@.len() == new_size
                &&& forall|i: int| 0 <= i < new_size && i < old(self)@.len() ==> #[trigger] final(self)@[i] == old(self)@[i]
                &&& forall|i: int| old(self)@.len() <= i < new_size ==> cloned(value, #[trigger] final(self)@[i])
            },
    {
        if new_size < self.len {
            let ok = self.resize(allocator, new_size);
            assert(ok);
            return true;
        }
        let start = self.len;
        if !self.resize(allocator, new_size) {
            return false;
        }
        let ghost mid = *self;
        assert(self.len == new_size);
        assert forall|k: int| 0 <= k < start implies #[trigger] self.array_ref@[k] == old(self)@[k] by {
            if new_size <= old(self).spec_capacity() {
                assert(self@ == old(self).cells().take(new_size as int));
            } else {
                assert(self.array_ref@.take(start as int) == old(self)@);
                assert(self.array_ref@[k] == self.array_ref@.take(start as int)[k]);
            }
        }
        let mut i = start;
        while i < new_size
            invariant
                start == old(self)@.len(),
                start <= i <= new_size,
                new_size <= self.array_ref@.len(),
                self.len == new_size,
                self.array_ref@.len() == mid.cells().len(),
                self.heap_ref() == mid.heap_ref(),
                forall|k: int| 0 <= k < start ==> #[trigger] self.array_ref@[k] == old(self)@[k],
                forall|k: int| start <= k < i ==> cloned(value, #[trigger] self.array_ref@[k]),
            decreases new_size - i,
        {
            let v = value.clone();
            self.array_ref.set(i, v);
            i = i + 1;
        }
        true
    }

    /// Creates an empty list backed by a new array of `len` cells.
    pub fn with_capacity<A: Alloc<Ref = HeapRef>>(allocator: &mut A, len: usize) -> (r: Option<Self>)
        where T: Default,
        requires
            old(allocator).wf(),
        ensures
            final(allocator).wf(),
            final(allocator).capacity() == old(allocator).capacity(),
            r is Some <==> array_fits::<T>(len as nat)
                && old(allocator).can_serve(array_block_bytes::<T>(len as nat), array_align()),
            match r {
                Some(l) => {
                    &&& l.wf()
                    &&& l@.len() == 0
                    &&& l.spec_capacity() == len
                    &&& !old(allocator).live().contains_key(l.heap_ref().spec_addr())
                    &&& final(allocator).live() == old(allocator).live().insert(
                        l.heap_ref().spec_addr(),
                        final(allocator).live()[l.heap_ref().spec_addr()],
                    )
                },
                None => final(allocator).live() == old(allocator).live(),
            },
    {
        match ArrayRef::with_len(allocator, len) {
            Some(array_ref) => Some(ArrayList { array_ref, len: 0 }),
            None => None,
        }
    }
}

impl<T: Default> VmNew for ArrayList<T> {
    fn new<A: Alloc<Ref = HeapRef>>(allocator: &mut A) -> (r: Option<Self>)
        ensures
            r matches Some(l) ==> l.wf() && l@.len() == 0 && l.spec_capacity() == 0,
            r is Some <==> old(allocator).can_serve(array_align(), array_align()),
    {
        Self::with_capacity(allocator, 0)
    }
}

impl<T: Default> VmNew for ArrayRef<T> {
    /// Creates a new, empty array.
    fn new<A: Alloc<Ref = HeapRef>>(allocator: &mut A) -> (r: Option<Self>)
        ensures
            r matches Some(a) ==> a@.len() == 0,
            r is Some <==> old(allocator).can_serve(array_align(), array_align()),
    {
        ArrayRef::with_len(allocator, 0)
    }
}

impl<T> VmSized for ArrayRef<T> {
    /// The elements, and the word that holds the length.
    open spec fn spec_size(&self) -> nat {
        array_bytes::<T>(self@.len()) + vstd::layout::size_of::<usize>()
    }

    fn size_of(&self) -> (r: usize) {
        let n = self.cells.len();
        let elem = core::mem::size_of::<T>();
        assert(n * elem <= self.spec_size()) by (nonlinear_arith)
            requires
                n * elem + vstd::layout::size_of::<usize>() == self.spec_size(),
        ;
        n * elem + core::mem::size_of::<usize>()
    }
}

} // verus!
