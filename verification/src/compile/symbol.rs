use vstd::prelude::*;
use crate::vm::symbol::{Symbol, Symbolic, TySymbol, VariableSymbol};
use crate::vm::ty::Ty;

verus! {

/// Behavior definition for symbols that will give the next ordinal symbol.
pub trait NextSymbol {
    type Symbol: Symbol;

    /// Whether the next symbol fits the machine.
    spec fn has_next_symbol(&self) -> bool;

    /// The next symbol after this one.
    spec fn spec_next_symbol(&self) -> Self::Symbol;

    /// Gets the next symbol after this one.
    fn next_symbol(&self) -> (r: Self::Symbol)
        requires
            self.has_next_symbol(),
        ensures
            r == self.spec_next_symbol(),
    ;
}

impl NextSymbol for TySymbol {
    type Symbol = TySymbol;

    open spec fn has_next_symbol(&self) -> bool {
        self.0 < usize::MAX
    }

    open spec fn spec_next_symbol(&self) -> TySymbol {
        TySymbol((self.0 + 1) as usize)
    }

    fn next_symbol(&self) -> (r: TySymbol) {
        let TySymbol(sym) = *self;
        TySymbol(sym + 1)
    }
}

impl NextSymbol for VariableSymbol {
    type Symbol = VariableSymbol;

    open spec fn has_next_symbol(&self) -> bool {
        self.global < usize::MAX && self.local < usize::MAX
    }

    /// Both the global and the local index move on by one.
    open spec fn spec_next_symbol(&self) -> VariableSymbol {
        VariableSymbol { global: (self.global + 1) as usize, local: (self.local + 1) as usize }
    }

    fn next_symbol(&self) -> (r: VariableSymbol) {
        let VariableSymbol { global, local } = *self;
        VariableSymbol { global: global + 1, local: local + 1 }
    }
}

impl NextSymbol for Ty {
    type Symbol = TySymbol;

    open spec fn has_next_symbol(&self) -> bool {
        self.spec_symbol().has_next_symbol()
    }

    /// The symbol after this type's own.
    open spec fn spec_next_symbol(&self) -> TySymbol {
        self.spec_symbol().spec_next_symbol()
    }

    fn next_symbol(&self) -> (r: TySymbol) {
        self.symbol().next_symbol()
    }
}

/// Behavior for reserving symbols in the compiler.
pub trait ReserveSymbol {
    type Symbol: Symbol;

    /// The symbol that the next reservation hands out.
    spec fn spec_reserve_next(&self) -> Self::Symbol;

    /// Whether a symbol can be reserved without overflowing.
    spec fn can_reserve(&self) -> bool;

    /// Whether a scope can be left.
    spec fn can_exit(&self) -> bool;

    /// Reserves a symbol for the scope.
    fn reserve_symbol(&mut self) -> (r: Self::Symbol)
        requires
            old(self).can_reserve(),
        ensures
            r == old(self).spec_reserve_next(),
    ;

    /// Called by the parent scope right before a new scope layer is added.
    fn enter_scope(&mut self) {
    }

    /// Called by the parent scope right after a scope layer is removed.
    fn exit_scope(&mut self)
        requires
            old(self).can_exit(),
    {
    }
}

/// A generic symbol allocator that reserves symbols in order, ignoring scopes.
#[derive(Debug)]
pub struct SymbolAlloc<T> where T: NextSymbol, T::Symbol: NextSymbol<Symbol = T::Symbol> {
    reserve_next: T::Symbol,
}

impl<T> SymbolAlloc<T> where T: NextSymbol, T::Symbol: NextSymbol<Symbol = T::Symbol> {
    /// Gets the symbol after the one this allocator hands out next.
    pub fn next_symbol(&self) -> (r: T::Symbol)
        requires
            self.spec_reserve_next().has_next_symbol(),
        ensures
            r == self.spec_reserve_next().spec_next_symbol(),
    {
        self.reserve_next.next_symbol()
    }
}

impl<T> ReserveSymbol for SymbolAlloc<T> where T: NextSymbol, T::Symbol: NextSymbol<Symbol = T::Symbol> {
    type Symbol = T::Symbol;

    closed spec fn spec_reserve_next(&self) -> T::Symbol {
        self.reserve_next
    }

    open spec fn can_reserve(&self) -> bool {
        self.spec_reserve_next().has_next_symbol()
    }

    open spec fn can_exit(&self) -> bool {
        true
    }

    fn reserve_symbol(&mut self) -> (r: T::Symbol)
        ensures
            final(self).spec_reserve_next() == old(self).spec_reserve_next().spec_next_symbol(),
    {
        let next = self.next_symbol();
        let r = self.reserve_next;
        self.reserve_next = next;
        r
    }
}

impl<T> SymbolAlloc<T> where T: NextSymbol, T::Symbol: NextSymbol<Symbol = T::Symbol> + Default {
    /// Creates an empty symbol allocator, starting from the default symbol.
    pub fn new() -> (r: Self)
        ensures
            call_ensures(T::Symbol::default, (), r.spec_reserve_next()),
    {
        SymbolAlloc { reserve_next: T::Symbol::default() }
    }
}

/// A symbol allocator for variables, which restarts the local index in every scope.
#[derive(Debug)]
pub struct VariableSymbolAlloc {
    reserve_next: VariableSymbol,
    locals: Vec<usize>,
}

/// The state of a variable symbol allocator: the symbol it hands out next, and the local
/// indices saved by the scopes it has entered, outermost first.
pub struct VariableAllocView {
    pub next: VariableSymbol,
    pub saved: Seq<usize>,
}

/// The state after entering a scope: the local index is saved, and restarts at zero.
pub open spec fn entered(s: VariableAllocView) -> VariableAllocView {
    VariableAllocView {
        next: VariableSymbol { global: s.next.global, local: 0 },
        saved: s.saved.push(s.next.local),
    }
}

/// The state after leaving a scope: the most recently saved local index is restored.
pub open spec fn exited(s: VariableAllocView) -> VariableAllocView {
    VariableAllocView {
        next: VariableSymbol { global: s.next.global, local: s.saved.last() },
        saved: s.saved.drop_last(),
    }
}

impl View for VariableSymbolAlloc {
    type V = VariableAllocView;

    closed spec fn view(&self) -> VariableAllocView {
        VariableAllocView { next: self.reserve_next, saved: self.locals@ }
    }
}

impl NextSymbol for VariableSymbolAlloc {
    type Symbol = VariableSymbol;

    open spec fn has_next_symbol(&self) -> bool {
        self@.next.has_next_symbol()
    }

    open spec fn spec_next_symbol(&self) -> VariableSymbol {
        self@.next.spec_next_symbol()
    }

    fn next_symbol(&self) -> (r: VariableSymbol) {
        self.reserve_next.next_symbol()
    }
}

impl ReserveSymbol for VariableSymbolAlloc {
    type Symbol = VariableSymbol;

    open spec fn spec_reserve_next(&self) -> VariableSymbol {
        self@.next
    }

    open spec fn can_reserve(&self) -> bool {
        self@.next.has_next_symbol()
    }

    open spec fn can_exit(&self) -> bool {
        self@.saved.len() > 0
    }

    fn reserve_symbol(&mut self) -> (r: VariableSymbol)
        ensures
            final(self)@ == (VariableAllocView { next: old(self)@.next.spec_next_symbol(), saved: old(self)@.saved }),
    {
        let next = self.next_symbol();
        let r = self.reserve_next;
        self.reserve_next = next;
        r
    }

    fn enter_scope(&mut self)
        ensures
            final(self)@ == entered(old(self)@),
    {
        self.locals.push(self.reserve_next.local);
        self.reserve_next.local = 0;
    }

    fn exit_scope(&mut self)
        ensures
            final(self)@ == exited(old(self)@),
    {
        let local = match self.locals.pop() {
            Some(l) => l,
            None => {
                proof {
                    assert(false);
                }
                0
            },
        };
        self.reserve_next.local = local;
    }
}

impl Default for VariableSymbolAlloc {
    fn default() -> (r: Self)
        ensures
            r@ == (VariableAllocView { next: VariableSymbol { global: 0, local: 0 }, saved: Seq::empty() }),
    {
        VariableSymbolAlloc { reserve_next: VariableSymbol { global: 0, local: 0 }, locals: Vec::new() }
    }
}

/// A symbol allocator for VM types.
pub type TySymbolAlloc = SymbolAlloc<Ty>;

/// Leaving a scope undoes entering it: the allocator hands out the same symbol it would have
/// before, with the same saved indices.
pub proof fn lemma_exit_undoes_enter(s: VariableAllocView)
    ensures
        exited(entered(s)) == s,
{
    assert(s.saved.push(s.next.local).drop_last() =~= s.saved);
}

} // verus!
