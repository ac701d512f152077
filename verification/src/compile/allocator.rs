use vstd::prelude::*;
use crate::vm::symbol::{BlockSymbol, FunSymbol, RegSymbol, Symbol, SymbolIndex, TySymbol, pair_rank};

verus! {

/// A symbol allocator for a VM symbol type.
///
/// The ranks it has spent are never handed out again.
pub trait Alloc<T: Symbol>: Sized {
    /// The allocator's internal state is consistent.
    spec fn wf(&self) -> bool;

    /// The ranks of symbols that can no longer be handed out.
    spec fn spent(&self) -> Set<int>;

    /// Whether another symbol can be reserved without overflowing.
    spec fn can_reserve(&self) -> bool;

    /// The symbol that the next reservation hands out.
    spec fn upcoming(&self) -> T;

    /// The symbol that the next reservation hands out once a scope layer has been entered.
    spec fn upcoming_on_push(&self) -> T;

    /// The symbol that the next reservation hands out once the innermost scope layer has been
    /// left.
    spec fn upcoming_on_pop(&self) -> T;

    /// Whether another scope layer can be entered without overflowing.
    spec fn can_push(&self) -> bool;

    /// Whether a scope layer can be left.
    spec fn can_pop(&self) -> bool;

    /// `next` is this allocator after it reserved a symbol.
    spec fn reserves_into(&self, next: Self) -> bool;

    /// `next` is this allocator after a scope layer was entered.
    spec fn pushes_into(&self, next: Self) -> bool;

    /// `next` is this allocator after the innermost scope layer was left.
    spec fn pops_into(&self, next: Self) -> bool;

    /// Reserves the next symbol available.
    fn reserve(&mut self) -> (r: T)
        requires
            old(self).wf(),
            old(self).can_reserve(),
        ensures
            final(self).wf(),
            r == old(self).upcoming(),
            final(self).upcoming() == old(self).upcoming().spec_next(),
            final(self).can_pop() == old(self).can_pop(),
            !old(self).spent().contains(r.rank()),
            final(self).spent() == old(self).spent().insert(r.rank()),
            old(self).reserves_into(*final(self));

    /// Called when a scope layer is entered.
    fn on_push_scope(&mut self)
        requires
            old(self).wf(),
            old(self).can_push(),
        ensures
            final(self).wf(),
            final(self).can_pop(),
            final(self).spent() == old(self).spent(),
            final(self).upcoming() == old(self).upcoming_on_push(),
            old(self).pushes_into(*final(self)),
    ;

    /// Called when a scope layer is left.
    fn on_pop_scope(&mut self)
        requires
            old(self).wf(),
            old(self).can_pop(),
        ensures
            final(self).wf(),
            final(self).can_pop(),
            final(self).spent() == old(self).spent(),
            final(self).upcoming() == old(self).upcoming_on_pop(),
            old(self).pops_into(*final(self)),
    ;
}

/// An allocator that hands out symbols in order.
#[derive(Debug)]
pub struct SymbolAlloc<T: Symbol> {
    next: T,
}

impl<T: Symbol> SymbolAlloc<T> {
    /// The next symbol this allocator will hand out.
    pub closed spec fn next_symbol(&self) -> T {
        self.next
    }
}

impl<T: Symbol + Default> Default for SymbolAlloc<T> {
    fn default() -> (r: Self)
        ensures
            call_ensures(T::default, (), r.next_symbol()),
    {
        SymbolAlloc { next: T::default() }
    }
}

impl<T: Symbol> Alloc<T> for SymbolAlloc<T> {
    open spec fn wf(&self) -> bool {
        true
    }

    /// Every rank below the next symbol's.
    closed spec fn spent(&self) -> Set<int> {
        Set::new(|r: int| r < self.next.rank())
    }

    open spec fn can_reserve(&self) -> bool {
        self.next_symbol().has_next()
    }

    open spec fn upcoming(&self) -> T {
        self.next_symbol()
    }

    /// Scopes do not affect the numbering.
    open spec fn upcoming_on_push(&self) -> T {
        self.next_symbol()
    }

    /// Scopes do not affect the numbering.
    open spec fn upcoming_on_pop(&self) -> T {
        self.next_symbol()
    }

    open spec fn can_push(&self) -> bool {
        true
    }

    open spec fn can_pop(&self) -> bool {
        true
    }

    open spec fn reserves_into(&self, next: Self) -> bool {
        next.next_symbol() == self.next_symbol().spec_next()
    }

    open spec fn pushes_into(&self, next: Self) -> bool {
        next.next_symbol() == self.next_symbol()
    }

    open spec fn pops_into(&self, next: Self) -> bool {
        next.next_symbol() == self.next_symbol()
    }

    fn reserve(&mut self) -> (r: T)
        ensures
            r == old(self).next_symbol(),
            final(self).next_symbol() == old(self).next_symbol().spec_next(),
    {
        let next = self.next.next();
        proof {
            T::lemma_next(self.next);
        }
        let r = self.next;
        self.next = next;
        assert(self.spent() =~= old(self).spent().insert(r.rank()));
        r
    }

    fn on_push_scope(&mut self) {
    }

    fn on_pop_scope(&mut self) {
    }
}

/// An allocator of function symbols.
pub type FunSymbolAlloc = SymbolAlloc<FunSymbol>;

/// An allocator of type symbols.
pub type TySymbolAlloc = SymbolAlloc<TySymbol>;

/// An allocator of block symbols.
pub type BlockSymbolAlloc = SymbolAlloc<BlockSymbol>;

/// A register symbol allocator for a single scope layer.
#[derive(Debug)]
pub struct RegSymbolLayer {
    next: RegSymbol,
}

impl RegSymbolLayer {
    /// The layer with the given global index, whose first register is local slot 0.
    pub fn new(global: SymbolIndex) -> (r: Self)
        ensures
            r.next_symbol() == (RegSymbol { global, local: 0 }),
    {
        RegSymbolLayer { next: RegSymbol { global, local: 0 } }
    }

    /// The next register this layer will hand out.
    pub closed spec fn next_symbol(&self) -> RegSymbol {
        self.next
    }
}

impl Alloc<RegSymbol> for RegSymbolLayer {
    open spec fn wf(&self) -> bool {
        true
    }

    /// The registers of this layer's slots below the next one.
    closed spec fn spent(&self) -> Set<int> {
        Set::new(|r: int| pair_rank(self.next.global, 0) <= r < pair_rank(self.next.global, self.next.local))
    }

    open spec fn can_reserve(&self) -> bool {
        self.next_symbol().local < usize::MAX
    }

    open spec fn upcoming(&self) -> RegSymbol {
        self.next_symbol()
    }

    /// A single layer does not change with scopes.
    open spec fn upcoming_on_push(&self) -> RegSymbol {
        self.next_symbol()
    }

    /// A single layer does not change with scopes.
    open spec fn upcoming_on_pop(&self) -> RegSymbol {
        self.next_symbol()
    }

    open spec fn can_push(&self) -> bool {
        true
    }

    open spec fn can_pop(&self) -> bool {
        true
    }

    open spec fn reserves_into(&self, next: Self) -> bool {
        next.next_symbol() == (RegSymbol { global: self.next_symbol().global, local: (self.next_symbol().local + 1) as usize })
    }

    open spec fn pushes_into(&self, next: Self) -> bool {
        next.next_symbol() == self.next_symbol()
    }

    open spec fn pops_into(&self, next: Self) -> bool {
        next.next_symbol() == self.next_symbol()
    }

    fn reserve(&mut self) -> (r: RegSymbol)
        ensures
            r == old(self).next_symbol(),
            final(self).next_symbol() == (RegSymbol { global: r.global, local: (r.local + 1) as usize }),
    {
        let next = self.next.next();
        let r = self.next;
        self.next = next;
        assert(self.spent() =~= old(self).spent().insert(r.rank()));
        r
    }

    fn on_push_scope(&mut self) {
    }

    fn on_pop_scope(&mut self) {
    }
}

/// Ranks of different layers never meet: a rank in the span of one layer's slots belongs to
/// that layer alone.
proof fn lemma_rank_in_layer(g1: usize, l1: usize, g2: usize, l2: usize)
    requires
        pair_rank(g2, 0) <= pair_rank(g1, l1) < pair_rank(g2, l2),
    ensures
        g1 == g2,
{
    assert(g1 == g2) by (nonlinear_arith)
        requires
            g2 * 0x1_0000_0000_0000_0000 <= g1 * 0x1_0000_0000_0000_0000 + l1,
            g1 * 0x1_0000_0000_0000_0000 + l1 < g2 * 0x1_0000_0000_0000_0000 + l2,
            0 <= l1 < 0x1_0000_0000_0000_0000,
            0 <= l2 < 0x1_0000_0000_0000_0000,
            g1 >= 0,
            g2 >= 0,
    ;
}

/// A register symbol allocator: a stack of layers, one per scope entered.
///
/// Leaving a scope moves its layer to the bottom of the stack rather than dropping it, so
/// every layer ever entered keeps a global index of its own.
#[derive(Debug)]
pub struct RegSymbolAlloc {
    scope_stack: Vec<RegSymbolLayer>,
}

impl RegSymbolAlloc {
    /// The next register of each layer, bottom first.
    pub closed spec fn layers(&self) -> Seq<RegSymbol> {
        self.scope_stack@.map_values(|l: RegSymbolLayer| l.next)
    }

    /// Gets the topmost register symbol layer.
    fn active_mut(&mut self) -> (r: &mut RegSymbolLayer)
        requires
            old(self).scope_stack@.len() > 0,
        ensures
            *r == old(self).scope_stack@.last(),
            final(self).scope_stack@ == old(self).scope_stack@.update(
                old(self).scope_stack@.len() - 1,
                *final(r),
            ),
    {
        let n = self.scope_stack.len();
        &mut self.scope_stack[n - 1]
    }
}

impl Alloc<RegSymbol> for RegSymbolAlloc {
    /// Every layer has a distinct global index below the number of layers.
    closed spec fn wf(&self) -> bool {
        &&& forall|i: int| 0 <= i < self.scope_stack@.len() ==> (#[trigger] self.scope_stack@[i]).next.global < self.scope_stack@.len()
        &&& forall|i: int, j: int| 0 <= i < j < self.scope_stack@.len()
            ==> (#[trigger] self.scope_stack@[i]).next.global != (#[trigger] self.scope_stack@[j]).next.global
    }

    /// The registers below the next one of every layer.
    closed spec fn spent(&self) -> Set<int> {
        Set::new(|r: int| exists|i: int| 0 <= i < self.scope_stack@.len()
            && pair_rank((#[trigger] self.scope_stack@[i]).next.global, 0) <= r < pair_rank(self.scope_stack@[i].next.global, self.scope_stack@[i].next.local))
    }

    open spec fn can_reserve(&self) -> bool {
        self.layers().len() > 0 && self.layers().last().local < usize::MAX
    }

    open spec fn upcoming(&self) -> RegSymbol {
        self.layers().last()
    }

    /// A new layer, with the next global index, starts at local slot 0.
    open spec fn upcoming_on_push(&self) -> RegSymbol {
        RegSymbol { global: self.layers().len() as usize, local: 0 }
    }

    /// The enclosing layer's numbering goes on; the last layer left stays the active one.
    open spec fn upcoming_on_pop(&self) -> RegSymbol {
        if self.layers().len() > 1 {
            self.layers()[self.layers().len() - 2]
        } else {
            self.layers().last()
        }
    }

    open spec fn can_push(&self) -> bool {
        true
    }

    open spec fn can_pop(&self) -> bool {
        self.layers().len() > 0
    }

    /// The active layer's next register moves one slot on.
    open spec fn reserves_into(&self, next: Self) -> bool {
        next.layers() == self.layers().update(
            self.layers().len() - 1,
            RegSymbol { global: self.layers().last().global, local: (self.layers().last().local + 1) as usize },
        )
    }

    /// A new layer, with the next global index, goes on top.
    open spec fn pushes_into(&self, next: Self) -> bool {
        next.layers() == self.layers().push(RegSymbol { global: self.layers().len() as usize, local: 0 })
    }

    /// The active layer moves to the bottom of the stack.
    open spec fn pops_into(&self, next: Self) -> bool {
        next.layers() == seq![self.layers().last()] + self.layers().drop_last()
    }

    fn reserve(&mut self) -> (r: RegSymbol)
        ensures
            r == old(self).layers().last(),
            final(self).layers() == old(self).layers().update(
                old(self).layers().len() - 1,
                RegSymbol { global: r.global, local: (r.local + 1) as usize },
            ),
    {
        let ghost old_stack = self.scope_stack@;
        let ghost n = old_stack.len() - 1;
        let r = {
            let active = self.active_mut();
            active.reserve()
        };
        proof {
            let st = self.scope_stack@;
            assert(st.len() == old_stack.len());
            assert(st[n].next == RegSymbol { global: r.global, local: (r.local + 1) as usize });
            assert(r.global == old_stack[n].next.global && r.local == old_stack[n].next.local);
            assert forall|x: int| #[trigger] self.spent().contains(x) == old(self).spent().insert(r.rank()).contains(x) by {
                if x == r.rank() {
                    assert(pair_rank(st[n].next.global, 0) <= x < pair_rank(st[n].next.global, st[n].next.local));
                }
                if self.spent().contains(x) && x != r.rank() {
                    let i = choose|i: int| 0 <= i < st.len()
                        && pair_rank((#[trigger] st[i]).next.global, 0) <= x < pair_rank(st[i].next.global, st[i].next.local);
                    if i != n {
                        assert(st[i] == old_stack[i]);
                    }
                    assert(pair_rank(old_stack[i].next.global, 0) <= x < pair_rank(old_stack[i].next.global, old_stack[i].next.local));
                }
                if old(self).spent().contains(x) {
                    let i = choose|i: int| 0 <= i < old_stack.len()
                        && pair_rank((#[trigger] old_stack[i]).next.global, 0) <= x < pair_rank(old_stack[i].next.global, old_stack[i].next.local);
                    if i != n {
                        assert(st[i] == old_stack[i]);
                    }
                    assert(pair_rank(st[i].next.global, 0) <= x < pair_rank(st[i].next.global, st[i].next.local));
                }
            }
            assert(self.spent() =~= old(self).spent().insert(r.rank()));
            assert(self.layers() =~= old(self).layers().update(n, RegSymbol { global: r.global, local: (r.local + 1) as usize }));
            if old(self).spent().contains(r.rank()) {
                let i = choose|i: int| 0 <= i < old_stack.len()
                    && pair_rank((#[trigger] old_stack[i]).next.global, 0) <= r.rank() < pair_rank(old_stack[i].next.global, old_stack[i].next.local);
                lemma_rank_in_layer(r.global, r.local, old_stack[i].next.global, old_stack[i].next.local);
                if i != n {
                    if i < n {
                        assert(old_stack[i].next.global != old_stack[n].next.global);
                    } else {
                        assert(false);
                    }
                }
                assert(false);
            }
            assert forall|i: int| 0 <= i < st.len() implies (#[trigger] st[i]).next.global < st.len() by {
                if i != n {
                    assert(st[i] == old_stack[i]);
                }
            }
            assert forall|i: int, j: int| 0 <= i < j < st.len() implies (#[trigger] st[i]).next.global != (#[trigger] st[j]).next.global by {
                if i != n {
                    assert(st[i] == old_stack[i]);
                }
                if j != n {
                    assert(st[j] == old_stack[j]);
                }
            }
        }
        r
    }

    fn on_push_scope(&mut self)
        ensures
            final(self).layers() == old(self).layers().push(
                RegSymbol { global: old(self).layers().len() as usize, local: 0 },
            ),
    {
        let global = self.scope_stack.len();
        self.scope_stack.push(RegSymbolLayer::new(global));
        proof {
            let st = self.scope_stack@;
            let old_stack = old(self).scope_stack@;
            assert forall|i: int| 0 <= i < st.len() implies (#[trigger] st[i]).next.global < st.len() by {
                if i < old_stack.len() {
                    assert(st[i] == old_stack[i]);
                }
            }
            assert forall|i: int, j: int| 0 <= i < j < st.len() implies (#[trigger] st[i]).next.global != (#[trigger] st[j]).next.global by {
                assert(st[i] == old_stack[i]);
                if j < old_stack.len() {
                    assert(st[j] == old_stack[j]);
                }
            }
            assert forall|x: int| #[trigger] self.spent().contains(x) == old(self).spent().contains(x) by {
                if self.spent().contains(x) {
                    let i = choose|i: int| 0 <= i < st.len()
                        && pair_rank((#[trigger] st[i]).next.global, 0) <= x < pair_rank(st[i].next.global, st[i].next.local);
                    assert(i < old_stack.len());
                    assert(st[i] == old_stack[i]);
                }
                if old(self).spent().contains(x) {
                    let i = choose|i: int| 0 <= i < old_stack.len()
                        && pair_rank((#[trigger] old_stack[i]).next.global, 0) <= x < pair_rank(old_stack[i].next.global, old_stack[i].next.local);
                    assert(st[i] == old_stack[i]);
                }
            }
            assert(self.spent() =~= old(self).spent());
            assert(self.layers() =~= old(self).layers().push(RegSymbol { global: old(self).layers().len() as usize, local: 0 }));
        }
    }

    fn on_pop_scope(&mut self)
        ensures
            final(self).layers() == seq![old(self).layers().last()] + old(self).layers().drop_last(),
    {
        let back = match self.scope_stack.pop() {
            Some(b) => b,
            None => {
                proof {
                    assert(false);
                }
                return;
            },
        };
        self.scope_stack.insert(0, back);
        proof {
            let st = self.scope_stack@;
            let old_stack = old(self).scope_stack@;
            let n = old_stack.len() - 1;
            assert(st.len() == old_stack.len());
            assert(st[0] == old_stack[n]);
            assert forall|i: int| 1 <= i < st.len() implies #[trigger] st[i] == old_stack[i - 1] by {
            }
            assert forall|i: int| 0 <= i < st.len() implies (#[trigger] st[i]).next.global < st.len() by {
                if i > 0 {
                    assert(st[i] == old_stack[i - 1]);
                }
            }
            assert forall|i: int, j: int| 0 <= i < j < st.len() implies (#[trigger] st[i]).next.global != (#[trigger] st[j]).next.global by {
                assert(st[j] == old_stack[j - 1]);
                if i == 0 {
                    assert(old_stack[j - 1].next.global != old_stack[n].next.global);
                } else {
                    assert(st[i] == old_stack[i - 1]);
                }
            }
            assert forall|x: int| #[trigger] self.spent().contains(x) == old(self).spent().contains(x) by {
                if self.spent().contains(x) {
                    let i = choose|i: int| 0 <= i < st.len()
                        && pair_rank((#[trigger] st[i]).next.global, 0) <= x < pair_rank(st[i].next.global, st[i].next.local);
                    let oi = if i == 0 { n } else { i - 1 };
                    assert(st[i] == old_stack[oi]);
                }
                if old(self).spent().contains(x) {
                    let i = choose|i: int| 0 <= i < old_stack.len()
                        && pair_rank((#[trigger] old_stack[i]).next.global, 0) <= x < pair_rank(old_stack[i].next.global, old_stack[i].next.local);
                    let ni = if i == n { 0 } else { i + 1 };
                    assert(st[ni] == old_stack[i]);
                }
            }
            assert(self.spent() =~= old(self).spent());
            assert(self.layers() =~= seq![old(self).layers().last()] + old(self).layers().drop_last());
        }
    }
}

/// Every scope layer entered gets a global index that no layer had before: the index a push
/// hands out is held by no existing layer, popped ones included.
pub proof fn lemma_pushed_layer_is_fresh(a: RegSymbolAlloc)
    requires
        a.wf(),
    ensures
        forall|i: int| 0 <= i < a.layers().len() ==> (#[trigger] a.layers()[i]).global != a.layers().len(),
{
    assert forall|i: int| 0 <= i < a.layers().len() implies (#[trigger] a.layers()[i]).global != a.layers().len() by {
        assert(a.layers()[i] == a.scope_stack@[i].next);
    }
}

impl Default for RegSymbolAlloc {
    fn default() -> (r: Self)
        ensures
            r.wf(),
            r.spent() == Set::<int>::empty(),
            r.layers() == Seq::<RegSymbol>::empty(),
    {
        let r = RegSymbolAlloc { scope_stack: Vec::new() };
        assert(r.spent() =~= Set::<int>::empty());
        assert(r.layers() =~= Seq::<RegSymbol>::empty());
        r
    }
}

} // verus!
