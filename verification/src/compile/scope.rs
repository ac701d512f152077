use vstd::prelude::*;
use crate::common::scope::{ReadOnlyScope, rank_of};
use crate::compile::allocator::{Alloc, BlockSymbolAlloc};
use crate::vm::label::Label;
use crate::vm::symbol::{Symbol, Symbolic};

verus! {

/// A scope that is paired with a symbol allocator, for the compiler functions that create new
/// symbols.
pub struct AllocScope<T: Symbolic, A: Alloc<T::Symbol>> {
    scope: ReadOnlyScope<T>,
    alloc: A,
}

impl<T: Symbolic, A: Alloc<T::Symbol>> AllocScope<T, A> {
    /// The scope of values.
    pub closed spec fn scope_spec(&self) -> ReadOnlyScope<T> {
        self.scope
    }

    /// The symbol allocator.
    pub closed spec fn allocator(&self) -> A {
        self.alloc
    }

    /// The scope and the allocator are each consistent.
    pub open spec fn wf(&self) -> bool {
        &&& self.scope_spec().wf()
        &&& self.allocator().wf()
    }

    /// An empty scope with the given allocator.
    pub fn new(alloc: A) -> (r: Self)
        requires
            alloc.wf(),
        ensures
            r.wf(),
            r.allocator() == alloc,
            r.scope_spec().layers() == Seq::<Seq<T::Symbol>>::empty(),
            r.scope_spec().values() == Seq::<T>::empty(),
    {
        AllocScope { scope: ReadOnlyScope::new(), alloc }
    }

    /// The scope of values.
    pub fn scope(&self) -> (r: &ReadOnlyScope<T>)
        ensures
            *r == self.scope_spec(),
    {
        &self.scope
    }

    /// Reserves a symbol in this scope.
    pub fn reserve_symbol(&mut self) -> (r: T::Symbol)
        requires
            old(self).wf(),
            old(self).allocator().can_reserve(),
        ensures
            final(self).wf(),
            final(self).scope_spec() == old(self).scope_spec(),
            r == old(self).allocator().upcoming(),
            final(self).allocator().upcoming() == old(self).allocator().upcoming().spec_next(),
            final(self).allocator().can_pop() == old(self).allocator().can_pop(),
            !old(self).allocator().spent().contains(r.rank()),
            final(self).allocator().spent() == old(self).allocator().spent().insert(r.rank()),
            old(self).allocator().reserves_into(final(self).allocator()),
    {
        let r = self.alloc.reserve();
        r
    }

    /// Inserts a value, whose symbol is not yet registered, into the most local layer.
    pub fn insert(&mut self, value: T)
        requires
            old(self).wf(),
            old(self).scope_spec().layers().len() > 0,
            !old(self).scope_spec().contains_symbol(value.spec_symbol()),
        ensures
            final(self).wf(),
            final(self).allocator() == old(self).allocator(),
            forall|s: T::Symbol| #[trigger] final(self).scope_spec().get(s) == if s.rank() == rank_of(value) {
                Some(value)
            } else {
                old(self).scope_spec().get(s)
            },
            final(self).scope_spec().layers() == old(self).scope_spec().layers().update(
                old(self).scope_spec().layers().len() - 1,
                old(self).scope_spec().layers().last().push(value.spec_symbol()),
            ),
    {
        self.scope.insert(value);
    }

    /// Replaces the registered value with the same symbol as `value`, returning the value it
    /// replaces.
    pub fn replace(&mut self, value: T) -> (r: T)
        requires
            old(self).wf(),
            old(self).scope_spec().contains_symbol(value.spec_symbol()),
        ensures
            final(self).wf(),
            final(self).allocator() == old(self).allocator(),
            Some(r) == old(self).scope_spec().get(value.spec_symbol()),
            forall|s: T::Symbol| #[trigger] final(self).scope_spec().get(s) == if s.rank() == rank_of(value) {
                Some(value)
            } else {
                old(self).scope_spec().get(s)
            },
            final(self).scope_spec().layers() == old(self).scope_spec().layers(),
    {
        let r = self.scope.replace(value);
        r
    }

    /// Pushes a layer holding the given values, in order, onto the scope.
    pub fn push_scope(&mut self, layer: Vec<T>)
        requires
            old(self).wf(),
            old(self).allocator().can_push(),
            forall|i: int| 0 <= i < layer@.len() ==> !old(self).scope_spec().contains_symbol((#[trigger] layer@[i]).spec_symbol()),
            forall|i: int, j: int| 0 <= i < j < layer@.len() ==> rank_of(#[trigger] layer@[i]) != rank_of(#[trigger] layer@[j]),
        ensures
            final(self).wf(),
            final(self).allocator().can_pop(),
            final(self).allocator().spent() == old(self).allocator().spent(),
            final(self).allocator().upcoming() == old(self).allocator().upcoming_on_push(),
            final(self).scope_spec().layers() == old(self).scope_spec().layers().push(
                layer@.map_values(|v: T| v.spec_symbol()),
            ),
    {
        self.alloc.on_push_scope();
        self.scope.push_layer();
        let ghost layers0 = self.scope.layers();
        let ghost layer_view = layer@;
        let mut layer = layer;
        let ghost n = layer_view.len();
        let mut k: usize = 0;
        let len0 = layer.len();
        assert(layer_view.subrange(0, 0).map_values(|v: T| v.spec_symbol()) =~= Seq::<T::Symbol>::empty());
        assert(layers0.drop_last().push(Seq::<T::Symbol>::empty()) =~= layers0);
        assert(layer@ =~= layer_view.subrange(0, n as int));
        while layer.len() > 0
            invariant
                self.wf(),
                self.alloc.spent() == old(self).alloc.spent(),
                self.alloc.upcoming() == old(self).alloc.upcoming_on_push(),
                self.alloc.can_pop(),
                n == layer_view.len(),
                n <= usize::MAX,
                k + layer@.len() == n,
                layer@ =~= layer_view.subrange(k as int, n as int),
                forall|i: int, j: int| 0 <= i < j < layer_view.len() ==> rank_of(#[trigger] layer_view[i]) != rank_of(#[trigger] layer_view[j]),
                forall|s: T::Symbol| #[trigger] self.scope.contains_symbol(s) ==> old(self).scope.contains_symbol(s)
                    || exists|i: int| 0 <= i < k && rank_of(#[trigger] layer_view[i]) == s.rank(),
                forall|i: int| k <= i < n ==> !old(self).scope.contains_symbol((#[trigger] layer_view[i]).spec_symbol()),
                self.scope.layers() == layers0.drop_last().push(layer_view.subrange(0, k as int).map_values(|v: T| v.spec_symbol())),
                layers0.len() > 0,
            decreases layer@.len(),
        {
            assert(layer@[0] == layer_view[k as int]);
            let value = layer.remove(0);
            assert(layer@ =~= layer_view.subrange(k + 1, n as int));
            proof {
                if self.scope.contains_symbol(value.spec_symbol()) {
                    if !old(self).scope.contains_symbol(value.spec_symbol()) {
                        let i = choose|i: int| 0 <= i < k && rank_of(#[trigger] layer_view[i]) == value.spec_symbol().rank();
                        assert(rank_of(layer_view[i]) != rank_of(layer_view[k as int]));
                    }
                }
            }
            let ghost pre = self.scope;
            self.scope.insert(value);
            proof {
                assert forall|s: T::Symbol| #[trigger] self.scope.contains_symbol(s) implies old(self).scope.contains_symbol(s)
                    || exists|i: int| 0 <= i < k + 1 && rank_of(#[trigger] layer_view[i]) == s.rank() by {
                    if s.rank() == rank_of(value) {
                        assert(rank_of(layer_view[k as int]) == s.rank());
                    } else {
                        assert(self.scope.get(s) == pre.get(s));
                        assert(pre.contains_symbol(s));
                        if !old(self).scope.contains_symbol(s) {
                            let i = choose|i: int| 0 <= i < k && rank_of(#[trigger] layer_view[i]) == s.rank();
                            assert(0 <= i < k + 1 && rank_of(layer_view[i]) == s.rank());
                        }
                    }
                }
                assert(layer_view.subrange(0, k + 1).map_values(|v: T| v.spec_symbol())
                    =~= layer_view.subrange(0, k as int).map_values(|v: T| v.spec_symbol()).push(value.spec_symbol()));
            }
            k = k + 1;
        }
        assert(layer_view.subrange(0, n as int) =~= layer_view);
    }

    /// Pushes an empty layer onto the scope.
    pub fn push_empty_scope(&mut self)
        requires
            old(self).wf(),
            old(self).allocator().can_push(),
        ensures
            final(self).wf(),
            final(self).allocator().can_pop(),
            final(self).allocator().spent() == old(self).allocator().spent(),
            final(self).allocator().upcoming() == old(self).allocator().upcoming_on_push(),
            old(self).allocator().pushes_into(final(self).allocator()),
            final(self).scope_spec().values() == old(self).scope_spec().values(),
            final(self).scope_spec().layers() == old(self).scope_spec().layers().push(Seq::empty()),
    {
        self.alloc.on_push_scope();
        self.scope.push_layer();
    }

    /// Pops the top layer of the scope, yielding its symbols; the values stay registered.
    pub fn pop_scope(&mut self) -> (r: Vec<T::Symbol>)
        requires
            old(self).wf(),
            old(self).allocator().can_pop(),
            old(self).scope_spec().layers().len() > 0,
        ensures
            final(self).wf(),
            final(self).allocator().can_pop(),
            final(self).allocator().spent() == old(self).allocator().spent(),
            final(self).allocator().upcoming() == old(self).allocator().upcoming_on_pop(),
            old(self).allocator().pops_into(final(self).allocator()),
            final(self).scope_spec().values() == old(self).scope_spec().values(),
            final(self).scope_spec().layers() == old(self).scope_spec().layers().drop_last(),
            r@ == old(self).scope_spec().layers().last(),
    {
        self.alloc.on_pop_scope();
        let r = self.scope.pop_layer();
        r
    }
}

impl<T: Symbolic, A: Alloc<T::Symbol> + Default> Default for AllocScope<T, A> {
    fn default() -> (r: Self)
        ensures
            call_ensures(A::default, (), r.allocator()),
            r.scope_spec().wf(),
            r.scope_spec().layers() == Seq::<Seq<T::Symbol>>::empty(),
            r.scope_spec().values() == Seq::<T>::empty(),
    {
        AllocScope { scope: ReadOnlyScope::new(), alloc: A::default() }
    }
}

/// A scope of labels.
pub type LabelScope = AllocScope<Label, BlockSymbolAlloc>;

} // verus!
