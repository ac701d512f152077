use vstd::prelude::*;
use crate::common::scope::{ReadOnlyScope, rank_of, lemma_insert_keeps_visible};
use crate::compile::allocator::{Alloc, RegSymbolAlloc};
use crate::compile::scope::AllocScope;
use crate::util::{hex_text, owned, push_hex};
use crate::vm::symbol::{RegSymbol, Symbol, Symbolic};

verus! {

/// A named register variable.
#[derive(Debug, Clone)]
pub struct Var {
    pub name: String,
    pub symbol: RegSymbol,
}

impl Var {
    pub fn new(name: String, symbol: RegSymbol) -> (r: Self)
        ensures
            r.name@ == name@,
            r.symbol == symbol,
    {
        Var { name, symbol }
    }
}

impl Symbolic for Var {
    type Symbol = RegSymbol;

    open spec fn spec_symbol(&self) -> RegSymbol {
        self.symbol
    }

    open spec fn spec_name(&self) -> Seq<char> {
        self.name@
    }

    fn symbol(&self) -> (r: RegSymbol) {
        self.symbol
    }

    fn name(&self) -> (r: &str) {
        self.name.as_str()
    }
}

/// The name given to the anonymous variable held in the given register.
pub open spec fn anon_name(sym: RegSymbol) -> Seq<char> {
    "anonvalue#"@ + hex_text(sym.local as nat)
}

/// The unused anonymous registers of each layer, fitted to `depth` layers: missing layers are
/// added empty on top, and layers above `depth` are dropped.
pub open spec fn fitted(unused: Seq<Set<RegSymbol>>, depth: nat) -> Seq<Set<RegSymbol>> {
    if unused.len() < depth {
        unused + Seq::new((depth - unused.len()) as nat, |i: int| Set::<RegSymbol>::empty())
    } else {
        unused.take(depth as int)
    }
}

/// The unused registers after `sym` is freed in the top layer of a scope `depth` deep.
pub open spec fn freed(unused: Seq<Set<RegSymbol>>, depth: nat, sym: RegSymbol) -> Seq<Set<RegSymbol>> {
    let u = fitted(unused, depth);
    u.update(depth - 1, u.last().insert(sym))
}

/// No register occurs twice.
pub open spec fn no_dups(s: Seq<RegSymbol>) -> bool {
    forall|i: int, j: int| 0 <= i < j < s.len() ==> #[trigger] s[i] != #[trigger] s[j]
}

/// `sym` is a register of `set` with the smallest rank.
pub open spec fn is_least(set: Set<RegSymbol>, sym: RegSymbol) -> bool {
    &&& set.contains(sym)
    &&& forall|other: RegSymbol| #[trigger] set.contains(other) ==> sym.rank() <= other.rank()
}

/// Whether a variable of the given name is visible in a scope.
pub open spec fn has_var(s: AllocScope<Var, RegSymbolAlloc>, n: Seq<char>) -> bool {
    exists|i: int| 0 <= i < s.scope_spec().visible().len() && (#[trigger] s.scope_spec().visible()[i]).name@ == n
}

/// The scope of register variables, with a pool of anonymous registers per layer that are free
/// to be used again.
pub struct VarScope {
    scope: AllocScope<Var, RegSymbolAlloc>,
    unused_anon: Vec<Vec<RegSymbol>>,
}

impl VarScope {
    /// The scope of variables and its allocator.
    pub closed spec fn inner(&self) -> AllocScope<Var, RegSymbolAlloc> {
        self.scope
    }

    /// The unused anonymous registers of each layer, outermost first.
    pub closed spec fn unused(&self) -> Seq<Set<RegSymbol>> {
        self.unused_anon@.map_values(|v: Vec<RegSymbol>| v@.to_set())
    }

    /// The number of layers of the scope.
    pub open spec fn depth(&self) -> nat {
        self.inner().scope_spec().layers().len()
    }

    /// The scope is consistent, every registered register was reserved by its allocator, and
    /// each pool holds a register at most once.
    pub closed spec fn wf(&self) -> bool {
        &&& self.scope.wf()
        &&& reserved_only(self.scope)
        &&& self.depth() > 0 ==> self.scope.allocator().can_pop()
        &&& forall|i: int| 0 <= i < self.unused_anon@.len() ==> no_dups(#[trigger] self.unused_anon@[i]@)
    }

    /// The scope of variables.
    pub fn scope(&self) -> (r: &AllocScope<Var, RegSymbolAlloc>)
        ensures
            *r == self.inner(),
    {
        &self.scope
    }

    /// Reserves a register in the current layer.
    pub fn reserve_symbol(&mut self) -> (r: RegSymbol)
        requires
            old(self).wf(),
            old(self).inner().allocator().can_reserve(),
        ensures
            final(self).wf(),
            final(self).unused() == old(self).unused(),
            final(self).inner().scope_spec() == old(self).inner().scope_spec(),
            r == old(self).inner().allocator().upcoming(),
            final(self).inner().allocator().upcoming() == old(self).inner().allocator().upcoming().spec_next(),
            final(self).inner().allocator().can_pop() == old(self).inner().allocator().can_pop(),
            !old(self).inner().allocator().spent().contains(r.rank()),
            final(self).inner().allocator().spent() == old(self).inner().allocator().spent().insert(r.rank()),
            old(self).inner().allocator().reserves_into(final(self).inner().allocator()),
            !final(self).inner().scope_spec().contains_symbol(r),
    {
        self.scope.reserve_symbol()
    }

    /// Inserts a variable, whose register this scope has reserved and not yet used, into the
    /// current layer.
    pub fn insert(&mut self, value: Var)
        requires
            old(self).wf(),
            old(self).depth() > 0,
            old(self).inner().allocator().spent().contains(value.symbol.rank()),
            !old(self).inner().scope_spec().contains_symbol(value.symbol),
        ensures
            final(self).wf(),
            final(self).unused() == old(self).unused(),
            final(self).inner().allocator() == old(self).inner().allocator(),
            forall|s: RegSymbol| #[trigger] final(self).inner().scope_spec().get(s) == if s.rank() == value.symbol.rank() {
                Some(value)
            } else {
                old(self).inner().scope_spec().get(s)
            },
            final(self).inner().scope_spec().layers() == old(self).inner().scope_spec().layers().update(
                old(self).depth() - 1,
                old(self).inner().scope_spec().layers().last().push(value.symbol),
            ),
    {
        let ghost before = self.scope;
        self.scope.insert(value);
        proof {
            lemma_reserved_kept(before, self.scope, value);
        }
    }

    /// Pushes an empty layer onto the scope.
    pub fn push_empty_scope(&mut self)
        requires
            old(self).wf(),
            old(self).inner().allocator().can_push(),
        ensures
            final(self).wf(),
            final(self).unused() == old(self).unused(),
            final(self).inner().allocator().spent() == old(self).inner().allocator().spent(),
            final(self).inner().allocator().upcoming() == old(self).inner().allocator().upcoming_on_push(),
            old(self).inner().allocator().pushes_into(final(self).inner().allocator()),
            final(self).inner().allocator().can_pop(),
            final(self).inner().scope_spec().values() == old(self).inner().scope_spec().values(),
            final(self).inner().scope_spec().layers() == old(self).inner().scope_spec().layers().push(Seq::empty()),
    {
        self.scope.push_empty_scope();
        proof {
            assert forall|s: RegSymbol| #[trigger] self.scope.scope_spec().contains_symbol(s)
                implies self.scope.allocator().spent().contains(s.rank()) by {
                assert(old(self).scope.scope_spec().contains_symbol(s));
            }
        }
    }

    /// Pops the top layer of the scope, yielding its registers; the variables stay registered.
    pub fn pop_scope(&mut self) -> (r: Vec<RegSymbol>)
        requires
            old(self).wf(),
            old(self).depth() > 0,
        ensures
            final(self).wf(),
            final(self).unused() == old(self).unused(),
            final(self).inner().allocator().spent() == old(self).inner().allocator().spent(),
            final(self).inner().allocator().upcoming() == old(self).inner().allocator().upcoming_on_pop(),
            old(self).inner().allocator().pops_into(final(self).inner().allocator()),
            final(self).inner().scope_spec().values() == old(self).inner().scope_spec().values(),
            final(self).inner().scope_spec().layers() == old(self).inner().scope_spec().layers().drop_last(),
            r@ == old(self).inner().scope_spec().layers().last(),
    {
        let r = self.scope.pop_scope();
        proof {
            assert forall|s: RegSymbol| #[trigger] self.scope.scope_spec().contains_symbol(s)
                implies self.scope.allocator().spent().contains(s.rank()) by {
                assert(old(self).scope.scope_spec().contains_symbol(s));
            }
        }
        r
    }

    /// The most local visible variable with the given name.
    pub fn get_by_name(&self, name: &str) -> (r: Option<&Var>)
        requires
            self.wf(),
        ensures
            match r {
                Some(v) => exists|i: int| {
                    &&& 0 <= i < self.inner().scope_spec().visible().len()
                    &&& *v == self.inner().scope_spec().visible()[i]
                    &&& v.spec_name() == name@
                    &&& forall|j: int| 0 <= j < i ==> (#[trigger] self.inner().scope_spec().visible()[j]).spec_name() != name@
                },
                None => forall|i: int| 0 <= i < self.inner().scope_spec().visible().len()
                    ==> (#[trigger] self.inner().scope_spec().visible()[i]).spec_name() != name@,
            },
    {
        self.scope.scope().get_by_name(name)
    }

    /// Makes the stack of unused anonymous registers as deep as the scope.
    fn ensure_unused_anon_size(&mut self)
        requires
            old(self).wf(),
        ensures
            final(self).wf(),
            final(self).inner() == old(self).inner(),
            final(self).unused() == fitted(old(self).unused(), old(self).depth()),
            final(self).unused_anon@.len() == old(self).depth(),
    {
        let depth = self.scope.scope().depth();
        let n = self.unused_anon.len();
        if n < depth {
            while self.unused_anon.len() < depth
                invariant
                    self.scope == old(self).scope,
                    depth == old(self).depth(),
                    n == old(self).unused_anon@.len(),
                    n <= self.unused_anon@.len() <= depth,
                    self.unused_anon@.subrange(0, n as int) == old(self).unused_anon@,
                    forall|i: int| n <= i < self.unused_anon@.len() ==> (#[trigger] self.unused_anon@[i])@ == Seq::<RegSymbol>::empty(),
                decreases depth - self.unused_anon@.len(),
            {
                self.unused_anon.push(Vec::new());
            }
            proof {
                let u = fitted(old(self).unused(), depth as nat);
                assert(self.unused().len() == u.len());
                assert forall|i: int| 0 <= i < u.len() implies #[trigger] self.unused()[i] == u[i] by {
                    if i < n {
                        assert(self.unused_anon@[i] == old(self).unused_anon@[i]);
                    } else {
                        assert(self.unused_anon@[i]@.to_set() =~= Set::<RegSymbol>::empty());
                    }
                }
                assert(self.unused() =~= u);
                assert forall|i: int| 0 <= i < self.unused_anon@.len() implies no_dups(#[trigger] self.unused_anon@[i]@) by {
                    if i < n {
                        assert(self.unused_anon@[i] == old(self).unused_anon@[i]);
                    }
                }
            }
        } else if n > depth {
            self.unused_anon.truncate(depth);
            proof {
                assert(self.unused() =~= fitted(old(self).unused(), depth as nat));
                assert forall|i: int| 0 <= i < self.unused_anon@.len() implies no_dups(#[trigger] self.unused_anon@[i]@) by {
                    assert(self.unused_anon@[i] == old(self).unused_anon@[i]);
                }
            }
        } else {
            assert(self.unused() =~= fitted(old(self).unused(), depth as nat));
        }
    }
}

impl VarScope {
    /// Inserts an anonymous variable into the current layer.
    ///
    /// A register that was freed in this layer is used again, the least one first; otherwise a
    /// new register is reserved and registered under a name of its own.
    pub fn insert_anonymous_var(&mut self) -> (r: RegSymbol)
        requires
            old(self).wf(),
            old(self).depth() > 0,
            fitted(old(self).unused(), old(self).depth()).last() == Set::<RegSymbol>::empty()
                ==> old(self).inner().allocator().can_reserve(),
        ensures
            final(self).wf(),
            ({
                let u = fitted(old(self).unused(), old(self).depth());
                let top = old(self).depth() - 1;
                if u.last() != Set::<RegSymbol>::empty() {
                    &&& is_least(u.last(), r)
                    &&& final(self).unused() == u.update(top, u.last().remove(r))
                    &&& final(self).inner() == old(self).inner()
                } else {
                    &&& r == old(self).inner().allocator().upcoming()
                    &&& final(self).unused() == u
                    &&& !old(self).inner().scope_spec().contains_symbol(r)
                    &&& final(self).inner().allocator().spent() == old(self).inner().allocator().spent().insert(r.rank())
                    &&& (final(self).inner().scope_spec().get(r) matches Some(v) && v.name@ == anon_name(r) && v.symbol == r)
                    &&& forall|s: RegSymbol| s.rank() != r.rank()
                        ==> #[trigger] final(self).inner().scope_spec().get(s) == old(self).inner().scope_spec().get(s)
                    &&& final(self).inner().scope_spec().layers() == old(self).inner().scope_spec().layers().update(
                        top,
                        old(self).inner().scope_spec().layers().last().push(r),
                    )
                    &&& final(self).inner().allocator().upcoming() == old(self).inner().allocator().upcoming().spec_next()
                }
            }),
            final(self).inner().allocator().can_pop() == old(self).inner().allocator().can_pop(),
            final(self).depth() == old(self).depth(),
            forall|n: Seq<char>| has_var(old(self).inner(), n) ==> #[trigger] has_var(final(self).inner(), n),
    {
        self.ensure_unused_anon_size();
        let ghost u = self.unused();
        let ghost stack = self.unused_anon@;
        let ghost top = stack.len() - 1;
        let mut active = match self.unused_anon.pop() {
            Some(a) => a,
            None => {
                proof {
                    assert(false);
                }
                Vec::new()
            },
        };
        assert(active == stack[top]);
        assert(u.last() == active@.to_set());
        if active.len() > 0 {
            let ghost before = active@;
            let idx = least_index(&active);
            let sym = active.remove(idx);
            self.unused_anon.push(active);
            proof {
                assert(no_dups(stack[top]@));
                assert(before.to_set().contains(sym));
                assert forall|other: RegSymbol| #[trigger] before.to_set().contains(other) implies sym.rank() <= other.rank() by {
                    let k = choose|k: int| 0 <= k < before.len() && before[k] == other;
                    assert(before[idx as int].rank() <= before[k].rank());
                }
                assert forall|x: RegSymbol| #[trigger] active@.to_set().contains(x) == before.to_set().remove(sym).contains(x) by {
                    if active@.to_set().contains(x) {
                        let k = choose|k: int| 0 <= k < active@.len() && active@[k] == x;
                        let ok = if k < idx { k } else { k + 1 };
                        assert(before[ok] == x);
                        assert(ok != idx);
                        if ok < idx {
                            assert(before[ok] != before[idx as int]);
                        } else {
                            assert(before[idx as int] != before[ok]);
                        }
                    }
                    if before.to_set().remove(sym).contains(x) {
                        let k = choose|k: int| 0 <= k < before.len() && before[k] == x;
                        assert(k != idx);
                        if k < idx {
                            assert(active@[k] == x);
                        } else {
                            assert(active@[k - 1] == x);
                        }
                    }
                }
                assert(active@.to_set() =~= before.to_set().remove(sym));
                assert(self.unused() =~= u.update(top, u.last().remove(sym)));
                assert forall|i: int, j: int| 0 <= i < j < active@.len() implies #[trigger] active@[i] != #[trigger] active@[j] by {
                    let oi = if i < idx { i } else { i + 1 };
                    let oj = if j < idx { j } else { j + 1 };
                    assert(active@[i] == before[oi]);
                    assert(active@[j] == before[oj]);
                }
                assert forall|i: int| 0 <= i < self.unused_anon@.len() implies no_dups(#[trigger] self.unused_anon@[i]@) by {
                    if i < top {
                        assert(self.unused_anon@[i] == stack[i]);
                    }
                }
            }
            sym
        } else {
            self.unused_anon.push(active);
            proof {
                assert(active@.to_set() =~= Set::<RegSymbol>::empty());
                assert(self.unused_anon@ =~= stack);
            }
            let ghost pre = self.scope;
            let sym = self.scope.reserve_symbol();
            proof {
                if pre.scope_spec().contains_symbol(sym) {
                    assert(pre.allocator().spent().contains(sym.rank()));
                }
            }
            let ghost mid = self.scope;
            let mut name = owned("anonvalue#");
            push_hex(&mut name, sym.index());
            let var = Var::new(name, sym);
            self.scope.insert(var);
            proof {
                lemma_reserved_kept(mid, self.scope, var);
                lemma_insert_keeps_visible(mid.scope_spec(), self.scope.scope_spec(), var);
                let ov = old(self).inner().scope_spec().visible();
                let nv = self.scope.scope_spec().visible();
                let k = mid.scope_spec().layers().last().len();
                assert(mid.scope_spec() == old(self).inner().scope_spec());
                assert forall|n: Seq<char>| has_var(old(self).inner(), n) implies #[trigger] has_var(self.inner(), n) by {
                    let i = choose|i: int| 0 <= i < ov.len() && (#[trigger] ov[i]).name@ == n;
                    if i < k {
                        assert(nv[i] == ov[i]);
                    } else {
                        assert(nv[i + 1] == ov[i]);
                    }
                }
            }
            sym
        }
    }

    /// Frees an anonymous register of the current layer, so that it can be used again.
    ///
    /// That the register belongs to an anonymous variable is up to the caller.
    pub fn free_anonymous_var(&mut self, sym: RegSymbol)
        requires
            old(self).wf(),
            old(self).depth() > 0,
        ensures
            final(self).wf(),
            final(self).inner() == old(self).inner(),
            final(self).unused() == freed(old(self).unused(), old(self).depth(), sym),
    {
        self.ensure_unused_anon_size();
        let ghost u = self.unused();
        let ghost stack = self.unused_anon@;
        let ghost top = stack.len() - 1;
        let mut active = match self.unused_anon.pop() {
            Some(a) => a,
            None => {
                proof {
                    assert(false);
                }
                Vec::new()
            },
        };
        assert(active == stack[top]);
        assert(u.last() == active@.to_set());
        if contains_reg(&active, sym) {
            self.unused_anon.push(active);
            proof {
                assert(active@.to_set().insert(sym) =~= active@.to_set());
                assert(self.unused_anon@ =~= stack);
                assert(self.unused() =~= u.update(top, u.last().insert(sym)));
            }
            return;
        }
        let ghost before = active@;
        active.push(sym);
        self.unused_anon.push(active);
        proof {
            assert(!before.contains(sym));
            assert(active@ == before.push(sym));
            assert forall|x: RegSymbol| #[trigger] active@.to_set().contains(x) == before.to_set().insert(sym).contains(x) by {
                if active@.contains(x) {
                    let k = choose|k: int| 0 <= k < active@.len() && active@[k] == x;
                    if k < before.len() {
                        assert(before[k] == x);
                    }
                }
                if before.contains(x) {
                    let k = choose|k: int| 0 <= k < before.len() && before[k] == x;
                    assert(active@[k] == x);
                }
                if x == sym {
                    assert(active@[before.len() as int] == x);
                }
            }
            assert(active@.to_set() =~= before.to_set().insert(sym));
            assert(self.unused() =~= u.update(top, u.last().insert(sym)));
            assert(self.unused() == freed(old(self).unused(), old(self).depth(), sym));
            assert(no_dups(before));
            assert forall|i: int, j: int| 0 <= i < j < active@.len() implies #[trigger] active@[i] != #[trigger] active@[j] by {
                if j == before.len() {
                    assert(before.contains(active@[i]));
                } else {
                    assert(before[i] != before[j]);
                }
            }
            assert forall|i: int| 0 <= i < self.unused_anon@.len() implies no_dups(#[trigger] self.unused_anon@[i]@) by {
                if i < top {
                    assert(self.unused_anon@[i] == stack[i]);
                }
            }
        }
    }
}

/// `vars[i]` is the first of `vars` with the given name.
pub open spec fn first_named(vars: Seq<Var>, name: Seq<char>, i: int) -> bool {
    &&& 0 <= i < vars.len()
    &&& vars[i].name@ == name
    &&& forall|j: int| 0 <= j < i ==> (#[trigger] vars[j]).name@ != name
}

impl VarScope {
    /// Gets the register of the most local visible variable with the given name, or inserts a
    /// variable of that name into the current layer if none is visible.
    pub fn get_or_insert(&mut self, name: &str) -> (r: RegSymbol)
        requires
            old(self).wf(),
            old(self).depth() > 0,
            (forall|i: int| 0 <= i < old(self).inner().scope_spec().visible().len()
                ==> (#[trigger] old(self).inner().scope_spec().visible()[i]).name@ != name@)
                ==> old(self).inner().allocator().can_reserve(),
        ensures
            final(self).wf(),
            final(self).unused() == old(self).unused(),
            ({
                let vis = old(self).inner().scope_spec().visible();
                if exists|i: int| first_named(vis, name@, i) {
                    &&& exists|i: int| first_named(vis, name@, i) && r == vis[i].symbol
                    &&& final(self).inner() == old(self).inner()
                } else {
                    &&& r == old(self).inner().allocator().upcoming()
                    &&& !old(self).inner().scope_spec().contains_symbol(r)
                    &&& final(self).inner().allocator().spent() == old(self).inner().allocator().spent().insert(r.rank())
                    &&& (final(self).inner().scope_spec().get(r) matches Some(v) && v.name@ == name@ && v.symbol == r)
                    &&& forall|s: RegSymbol| s.rank() != r.rank()
                        ==> #[trigger] final(self).inner().scope_spec().get(s) == old(self).inner().scope_spec().get(s)
                    &&& final(self).inner().scope_spec().layers() == old(self).inner().scope_spec().layers().update(
                        old(self).depth() - 1,
                        old(self).inner().scope_spec().layers().last().push(r),
                    )
                    &&& final(self).inner().allocator().upcoming() == old(self).inner().allocator().upcoming().spec_next()
                }
            }),
            final(self).inner().allocator().can_pop() == old(self).inner().allocator().can_pop(),
            final(self).depth() == old(self).depth(),
            forall|n: Seq<char>| has_var(old(self).inner(), n) ==> #[trigger] has_var(final(self).inner(), n),
            has_var(final(self).inner(), name@),
    {
        let ghost vis = self.scope.scope_spec().visible();
        match self.get_by_name(name) {
            Some(var) => {
                let sym = var.symbol();
                proof {
                    let i = choose|i: int| {
                        &&& 0 <= i < vis.len()
                        &&& *var == vis[i]
                        &&& var.spec_name() == name@
                        &&& forall|j: int| 0 <= j < i ==> (#[trigger] vis[j]).spec_name() != name@
                    };
                    assert(first_named(vis, name@, i));
                    assert(vis[i].name@ == name@);
                }
                return sym;
            },
            None => {
                proof {
                    assert forall|i: int| !first_named(vis, name@, i) by {
                        if 0 <= i < vis.len() {
                            assert(vis[i].spec_name() != name@);
                        }
                    }
                }
            },
        }
        let ghost pre = self.scope;
        let sym = self.scope.reserve_symbol();
        proof {
            if pre.scope_spec().contains_symbol(sym) {
                assert(pre.allocator().spent().contains(sym.rank()));
            }
        }
        let ghost mid = self.scope;
        let var = Var::new(owned(name), sym);
        self.scope.insert(var);
        proof {
            lemma_reserved_kept(mid, self.scope, var);
            lemma_insert_keeps_visible(mid.scope_spec(), self.scope.scope_spec(), var);
            let ov = old(self).inner().scope_spec().visible();
            let nv = self.scope.scope_spec().visible();
            let k = mid.scope_spec().layers().last().len();
            assert(mid.scope_spec() == old(self).inner().scope_spec());
            assert forall|n: Seq<char>| has_var(old(self).inner(), n) implies #[trigger] has_var(self.inner(), n) by {
                let i = choose|i: int| 0 <= i < ov.len() && (#[trigger] ov[i]).name@ == n;
                if i < k {
                    assert(nv[i] == ov[i]);
                } else {
                    assert(nv[i + 1] == ov[i]);
                }
            }
            assert(nv[k as int] == var);
        }
        sym
    }
}

impl Default for VarScope {
    fn default() -> (r: Self)
        ensures
            r.wf(),
            r.depth() == 0,
            r.unused() == Seq::<Set<RegSymbol>>::empty(),
            r.inner().scope_spec().values() == Seq::<Var>::empty(),
            r.inner().allocator().layers() == Seq::<RegSymbol>::empty(),
            r.inner().allocator().spent() == Set::<int>::empty(),
    {
        let scope = AllocScope::new(RegSymbolAlloc::default());
        let r = VarScope { scope, unused_anon: Vec::new() };
        assert(r.unused() =~= Seq::<Set<RegSymbol>>::empty());
        r
    }
}

/// Whether a register occurs in a list.
fn contains_reg(v: &Vec<RegSymbol>, sym: RegSymbol) -> (r: bool)
    ensures
        r == v@.contains(sym),
{
    let mut i: usize = 0;
    while i < v.len()
        invariant
            i <= v@.len(),
            forall|j: int| 0 <= j < i ==> v@[j] != sym,
        decreases v@.len() - i,
    {
        if v[i] == sym {
            return true;
        }
        i += 1;
    }
    false
}

/// The index of a register of least rank in a non-empty sequence.
fn least_index(v: &Vec<RegSymbol>) -> (r: usize)
    requires
        v@.len() > 0,
    ensures
        r < v@.len(),
        forall|i: int| 0 <= i < v@.len() ==> v@[r as int].rank() <= (#[trigger] v@[i]).rank(),
{
    let mut best: usize = 0;
    let n = v.len();
    for i in 1..n
        invariant
            n == v@.len(),
            best < n,
            forall|k: int| 0 <= k < i ==> v@[best as int].rank() <= (#[trigger] v@[k]).rank(),
    {
        if v[i].before(&v[best]) {
            best = i;
        }
    }
    best
}

/// A freed anonymous register is the next one handed out, when the layer's pool holds no
/// register below it: an `insert_anonymous_var` right after `free_anonymous_var(sym)` gives
/// back `sym`.
pub proof fn lemma_freed_register_is_reused(unused: Seq<Set<RegSymbol>>, depth: nat, sym: RegSymbol, r: RegSymbol)
    requires
        depth > 0,
        forall|o: RegSymbol| #[trigger] fitted(unused, depth).last().contains(o) ==> sym.rank() < o.rank(),
        is_least(fitted(freed(unused, depth, sym), depth).last(), r),
    ensures
        r == sym,
{
    let u = fitted(unused, depth);
    let v = freed(unused, depth, sym);
    assert(u.len() == depth);
    assert(fitted(v, depth) =~= v);
    assert(v.last() == u.last().insert(sym));
    assert(v.last().contains(sym));
    assert(r.rank() <= sym.rank());
    if r != sym {
        assert(u.last().contains(r));
        assert(false);
    }
}


/// Every register registered in the scope was reserved by its allocator.
pub open spec fn reserved_only(sc: AllocScope<Var, RegSymbolAlloc>) -> bool {
    forall|s: RegSymbol| #[trigger] sc.scope_spec().contains_symbol(s) ==> sc.allocator().spent().contains(s.rank())
}

/// A scope whose registrations change only at the rank of `v`, a reserved register, registers
/// only reserved registers still.
proof fn lemma_reserved_kept(a: AllocScope<Var, RegSymbolAlloc>, b: AllocScope<Var, RegSymbolAlloc>, v: Var)
    requires
        reserved_only(a),
        b.allocator().spent().contains(v.symbol.rank()),
        a.allocator().spent().subset_of(b.allocator().spent()),
        forall|s: RegSymbol| s.rank() != v.symbol.rank() ==> #[trigger] b.scope_spec().get(s) == a.scope_spec().get(s),
    ensures
        reserved_only(b),
{
    assert forall|s: RegSymbol| #[trigger] b.scope_spec().contains_symbol(s) implies b.allocator().spent().contains(s.rank()) by {
        if s.rank() != v.symbol.rank() {
            assert(b.scope_spec().get(s) == a.scope_spec().get(s));
            assert(a.scope_spec().contains_symbol(s));
        }
    }
}

} // verus!
