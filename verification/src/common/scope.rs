use vstd::prelude::*;
use crate::vm::symbol::{Symbol, Symbolic};
use crate::util::str_eq;

verus! {

/// The rank of a value's symbol.
pub open spec fn rank_of<T: Symbolic>(v: T) -> int {
    v.spec_symbol().rank()
}

/// The values are ordered by the ranks of their symbols, with no rank twice.
pub open spec fn sorted_by_rank<T: Symbolic>(vals: Seq<T>) -> bool {
    forall|i: int, j: int| 0 <= i < j < vals.len() ==> rank_of(#[trigger] vals[i]) < rank_of(#[trigger] vals[j])
}

/// Some value has a symbol of rank `r`.
pub open spec fn has_rank<T: Symbolic>(vals: Seq<T>, r: int) -> bool {
    exists|i: int| 0 <= i < vals.len() && rank_of(#[trigger] vals[i]) == r
}

/// The value whose symbol has rank `r`, if there is one.
pub open spec fn entry<T: Symbolic>(vals: Seq<T>, r: int) -> Option<T> {
    if has_rank(vals, r) {
        Some(vals[choose|i: int| 0 <= i < vals.len() && rank_of(#[trigger] vals[i]) == r])
    } else {
        None
    }
}

/// The symbols of the layers, most local layer first, each layer in the order of insertion.
pub open spec fn visible_symbols<S>(layers: Seq<Seq<S>>) -> Seq<S>
    decreases layers.len(),
{
    if layers.len() == 0 {
        Seq::empty()
    } else {
        layers.last() + visible_symbols(layers.drop_last())
    }
}

/// A run of layers read from the innermost: adding an outer layer puts its symbols last.
pub proof fn lemma_visible_symbols_prepend<S>(x: Seq<S>, rest: Seq<Seq<S>>)
    ensures
        visible_symbols(seq![x] + rest) == visible_symbols(rest) + x,
    decreases rest.len(),
{
    if rest.len() == 0 {
        assert(seq![x] + rest =~= seq![x]);
        assert(seq![x].drop_last() =~= Seq::<Seq<S>>::empty());
        assert(visible_symbols(rest) + x =~= x);
        assert(x + visible_symbols(Seq::<Seq<S>>::empty()) =~= x);
    } else {
        lemma_visible_symbols_prepend(x, rest.drop_last());
        assert((seq![x] + rest).drop_last() =~= seq![x] + rest.drop_last());
        assert((seq![x] + rest).last() == rest.last());
        assert(rest.last() + (visible_symbols(rest.drop_last()) + x) =~= (rest.last() + visible_symbols(rest.drop_last())) + x);
    }
}

/// Every visible symbol belongs to some layer.
pub proof fn lemma_visible_symbols_member<S>(layers: Seq<Seq<S>>, k: int)
    requires
        0 <= k < visible_symbols(layers).len(),
    ensures
        exists|i: int, j: int| 0 <= i < layers.len() && 0 <= j < layers[i].len()
            && #[trigger] layers[i][j] == visible_symbols(layers)[k],
    decreases layers.len(),
{
    if layers.len() > 0 {
        let top = layers.len() - 1;
        if k < layers.last().len() {
            assert(layers[top][k] == visible_symbols(layers)[k]);
        } else {
            let rest = layers.drop_last();
            lemma_visible_symbols_member(rest, k - layers.last().len());
            let (i, j) = choose|i: int, j: int| 0 <= i < rest.len() && 0 <= j < rest[i].len()
                && #[trigger] rest[i][j] == visible_symbols(rest)[k - layers.last().len()];
            assert(layers[i][j] == visible_symbols(layers)[k]);
        }
    }
}

/// In values ordered by symbol, the value at an index is the one for its symbol's rank.
pub proof fn lemma_entry<T: Symbolic>(vals: Seq<T>, i: int)
    requires
        sorted_by_rank(vals),
        0 <= i < vals.len(),
    ensures
        has_rank(vals, rank_of(vals[i])),
        entry(vals, rank_of(vals[i])) == Some(vals[i]),
{
    let r = rank_of(vals[i]);
    assert(has_rank(vals, r));
    let j = choose|j: int| 0 <= j < vals.len() && rank_of(#[trigger] vals[j]) == r;
    if j < i {
        assert(rank_of(vals[j]) < rank_of(vals[i]));
    } else if j > i {
        assert(rank_of(vals[i]) < rank_of(vals[j]));
    }
}

/// `r` is the first item of `list` on which `pred` answers true, every item before it answered
/// false; or nothing, where `pred` answered false on every item.
pub open spec fn first_found<T, P: Fn(&T) -> bool>(list: Seq<&T>, pred: P, r: Option<&T>) -> bool {
    match r {
        Some(v) => exists|i: int| {
            &&& 0 <= i < list.len()
            &&& list[i] == v
            &&& pred.ensures((list[i],), true)
            &&& forall|j: int| 0 <= j < i ==> pred.ensures((#[trigger] list[j],), false)
        },
        None => forall|i: int| 0 <= i < list.len() ==> pred.ensures((#[trigger] list[i],), false),
    }
}

/// A generic scope over a symbolic value: a stack of layers of symbols, and every value
/// registered over the scope's lifetime.
#[derive(Debug)]
pub struct ReadOnlyScope<T: Symbolic> {
    pub(crate) scope_stack: Vec<Vec<T::Symbol>>,
    pub(crate) all: Vec<T>,
}

impl<T: Symbolic> ReadOnlyScope<T> {
    /// The symbols of each layer, outermost layer first.
    pub closed spec fn layers(&self) -> Seq<Seq<T::Symbol>> {
        self.scope_stack@.map_values(|l: Vec<T::Symbol>| l@)
    }

    /// Every value registered, ordered by symbol.
    pub closed spec fn values(&self) -> Seq<T> {
        self.all@
    }

    /// The registered values come in ascending order of symbol, each symbol once; each is the
    /// value registered under its symbol.
    pub proof fn lemma_values_sorted(&self)
        requires
            self.wf(),
        ensures
            sorted_by_rank(self.values()),
            forall|i: int| 0 <= i < self.values().len()
                ==> #[trigger] self.get(self.values()[i].spec_symbol()) == Some(self.values()[i]),
    {
        assert forall|i: int| 0 <= i < self.values().len()
            implies #[trigger] self.get(self.values()[i].spec_symbol()) == Some(self.values()[i]) by {
            lemma_entry(self.values(), i);
        }
    }

    /// The registered value with the given symbol, if any.
    pub open spec fn get(&self, s: T::Symbol) -> Option<T> {
        entry(self.values(), s.rank())
    }

    /// Whether a value with the given symbol is registered.
    pub open spec fn contains_symbol(&self, s: T::Symbol) -> bool {
        has_rank(self.values(), s.rank())
    }

    /// The values visible in the current scope, most local first.
    pub open spec fn visible(&self) -> Seq<T> {
        visible_symbols(self.layers()).map_values(|s: T::Symbol| self.get(s).unwrap())
    }

    /// The values visible in the most local layer, in the order of insertion.
    pub open spec fn local(&self) -> Seq<T> {
        if self.layers().len() == 0 {
            Seq::empty()
        } else {
            self.layers().last().map_values(|s: T::Symbol| self.get(s).unwrap())
        }
    }

    /// Values are ordered by symbol, and every symbol in a layer is registered.
    pub closed spec fn wf(&self) -> bool {
        &&& sorted_by_rank(self.all@)
        &&& forall|i: int, j: int|
            0 <= i < self.scope_stack@.len() && 0 <= j < self.scope_stack@[i]@.len()
                ==> has_rank(self.all@, (#[trigger] self.scope_stack@[i]@[j]).rank())
    }

    /// An empty scope, with no layers.
    pub fn new() -> (r: Self)
        ensures
            r.wf(),
            r.layers() == Seq::<Seq<T::Symbol>>::empty(),
            r.values() == Seq::<T>::empty(),
    {
        let r = ReadOnlyScope { scope_stack: Vec::new(), all: Vec::new() };
        assert(r.layers() =~= Seq::<Seq<T::Symbol>>::empty());
        r
    }

    /// The index of the value with the given symbol, if it is registered.
    fn find(&self, sym: &T::Symbol) -> (r: Option<usize>)
        requires
            self.wf(),
        ensures
            match r {
                Some(i) => i < self.values().len() && rank_of(self.values()[i as int]) == sym.rank(),
                None => !self.contains_symbol(*sym),
            },
    {
        let n = self.all.len();
        for i in 0..n
            invariant
                n == self.all@.len(),
                forall|k: int| 0 <= k < i ==> rank_of(#[trigger] self.all@[k]) != sym.rank(),
        {
            let s = self.all[i].symbol();
            if s.same(sym) {
                return Some(i);
            }
        }
        None
    }

    /// Inserts the given value into the most local layer of this scope.
    ///
    /// Its symbol must not be registered yet, and the scope must have a layer.
    pub fn insert(&mut self, value: T)
        requires
            old(self).wf(),
            old(self).layers().len() > 0,
            !old(self).contains_symbol(value.spec_symbol()),
        ensures
            final(self).wf(),
            forall|s: T::Symbol| #[trigger] final(self).get(s) == if s.rank() == rank_of(value) {
                Some(value)
            } else {
                old(self).get(s)
            },
            final(self).layers() == old(self).layers().update(
                old(self).layers().len() - 1,
                old(self).layers().last().push(value.spec_symbol()),
            ),
    {
        let sym = value.symbol();
        let n = self.all.len();
        let mut pos: usize = 0;
        while pos < n
            invariant
                n == self.all@.len(),
                pos <= n,
                self.wf(),
                sym == value.spec_symbol(),
                !has_rank(self.all@, sym.rank()),
                forall|k: int| 0 <= k < pos ==> rank_of(#[trigger] self.all@[k]) < sym.rank(),
            ensures
                pos <= n,
                forall|k: int| 0 <= k < pos ==> rank_of(#[trigger] self.all@[k]) < sym.rank(),
                pos < n ==> rank_of(self.all@[pos as int]) > sym.rank(),
            decreases n - pos,
        {
            let s = self.all[pos].symbol();
            if sym.before(&s) {
                break;
            }
            assert(rank_of(self.all@[pos as int]) != sym.rank());
            pos = pos + 1;
        }
        assert(forall|k: int| pos <= k < n ==> rank_of(#[trigger] self.all@[k]) > sym.rank()) by {
            assert forall|k: int| pos <= k < n implies rank_of(#[trigger] self.all@[k]) > sym.rank() by {
                if pos < n {
                    if k > pos {
                        assert(rank_of(self.all@[pos as int]) < rank_of(self.all@[k]));
                    }
                }
            }
        }
        let ghost old_all = self.all@;
        let ghost old_stack = self.scope_stack@;
        self.all.insert(pos, value);
        let mut top = self.scope_stack.pop().unwrap();
        top.push(sym);
        self.scope_stack.push(top);
        proof {
            let new_all = self.all@;
            assert(new_all == old_all.insert(pos as int, value));
            assert forall|i: int, j: int| 0 <= i < j < new_all.len() implies rank_of(#[trigger] new_all[i])
                < rank_of(#[trigger] new_all[j]) by {
                if j < pos {
                } else if i < pos && j == pos {
                } else if i < pos {
                    assert(new_all[j] == old_all[j - 1]);
                } else if i == pos {
                    assert(new_all[j] == old_all[j - 1]);
                } else {
                    assert(new_all[i] == old_all[i - 1]);
                    assert(new_all[j] == old_all[j - 1]);
                }
            }
            assert forall|r: int| has_rank(old_all, r) implies has_rank(new_all, r) by {
                let i = choose|i: int| 0 <= i < old_all.len() && rank_of(#[trigger] old_all[i]) == r;
                if i < pos {
                    assert(new_all[i] == old_all[i]);
                } else {
                    assert(new_all[i + 1] == old_all[i]);
                }
            }
            assert(new_all[pos as int] == value);
            assert(has_rank(new_all, rank_of(value)));
            assert forall|s: T::Symbol| #[trigger] self.get(s) == if s.rank() == rank_of(value) {
                Some(value)
            } else {
                old(self).get(s)
            } by {
                let r = s.rank();
                if r == rank_of(value) {
                    let i = choose|i: int| 0 <= i < new_all.len() && rank_of(#[trigger] new_all[i]) == r;
                    if i != pos {
                        if i < pos {
                            assert(rank_of(new_all[i]) < rank_of(new_all[pos as int]));
                        } else {
                            assert(rank_of(new_all[pos as int]) < rank_of(new_all[i]));
                        }
                    }
                } else {
                    if has_rank(new_all, r) {
                        let i = choose|i: int| 0 <= i < new_all.len() && rank_of(#[trigger] new_all[i]) == r;
                        assert(i != pos);
                        let oi = if i < pos { i } else { i - 1 };
                        assert(new_all[i] == old_all[oi]);
                        assert(has_rank(old_all, r));
                        let j = choose|j: int| 0 <= j < old_all.len() && rank_of(#[trigger] old_all[j]) == r;
                        if j != oi {
                            if j < oi {
                                assert(rank_of(old_all[j]) < rank_of(old_all[oi]));
                            } else {
                                assert(rank_of(old_all[oi]) < rank_of(old_all[j]));
                            }
                        }
                    } else {
                        assert forall|j: int| 0 <= j < old_all.len() implies rank_of(#[trigger] old_all[j]) != r by {
                            if j < pos {
                                assert(new_all[j] == old_all[j]);
                            } else {
                                assert(new_all[j + 1] == old_all[j]);
                            }
                        }
                    }
                }
            }
            let new_stack = self.scope_stack@;
            let last = (old_stack.len() - 1) as int;
            assert forall|i: int, j: int| 0 <= i < new_stack.len() && 0 <= j < new_stack[i]@.len()
                implies has_rank(new_all, (#[trigger] new_stack[i]@[j]).rank()) by {
                if i < last {
                    assert(new_stack[i] == old_stack[i]);
                } else if j < old_stack[last]@.len() {
                    assert(new_stack[i]@[j] == old_stack[last]@[j]);
                } else {
                    assert(new_stack[i]@[j] == sym);
                }
            }
            assert(self.layers() =~= old(self).layers().update(last, old(self).layers().last().push(sym)));
        }
    }

    /// The values visible in the current scope, most local first.
    pub fn iter(&self) -> (r: Vec<&T>)
        requires
            self.wf(),
        ensures
            r@.len() == self.visible().len(),
            forall|i: int| 0 <= i < r@.len() ==> *r@[i] == self.visible()[i],
            self.lists_visible(r@),
    {
        let mut out: Vec<&T> = Vec::new();
        let mut k = self.scope_stack.len();
        let ghost layers = self.layers();
        assert(layers.subrange(k as int, layers.len() as int) =~= Seq::<Seq<T::Symbol>>::empty());
        while k > 0
            invariant
                self.wf(),
                layers == self.layers(),
                k <= layers.len(),
                out@.len() == visible_symbols(layers.subrange(k as int, layers.len() as int)).len(),
                forall|i: int| 0 <= i < out@.len() ==> *out@[i] == self.get(
                    visible_symbols(layers.subrange(k as int, layers.len() as int))[i],
                ).unwrap(),
            decreases k,
        {
            k = k - 1;
            let layer = &self.scope_stack[k];
            let ghost before = out@;
            let ghost upper = visible_symbols(layers.subrange(k + 1, layers.len() as int));
            assert(layer@ == layers[k as int]);
            for j in 0..layer.len()
                invariant
                    self.wf(),
                    layers == self.layers(),
                    k < layers.len(),
                    layer@ == layers[k as int],
                    layer == &self.scope_stack@[k as int],
                    before.len() == upper.len(),
                    forall|i: int| 0 <= i < before.len() ==> *before[i] == self.get(upper[i]).unwrap(),
                    out@.len() == before.len() + j,
                    forall|i: int| 0 <= i < before.len() ==> out@[i] == before[i],
                    forall|i: int| 0 <= i < j ==> *out@[before.len() + i] == self.get(layer@[i]).unwrap(),
            {
                let sym = &layer[j];
                assert(has_rank(self.all@, sym.rank()));
                let i = match self.find(sym) {
                    Some(i) => i,
                    None => {
                        proof {
                            assert(false);
                        }
                        0
                    },
                };
                proof {
                    lemma_entry(self.all@, i as int);
                }
                out.push(&self.all[i]);
            }
            proof {
                let sub = layers.subrange(k as int, layers.len() as int);
                assert(sub =~= seq![layers[k as int]] + layers.subrange(k + 1, layers.len() as int));
                lemma_visible_symbols_prepend(layers[k as int], layers.subrange(k + 1, layers.len() as int));
                let vis = visible_symbols(sub);
                assert(vis == upper + layer@);
                assert(out@.len() == before.len() + layer@.len());
                assert forall|i: int| 0 <= i < out@.len() implies *out@[i] == self.get(vis[i]).unwrap() by {
                    if i < before.len() {
                        assert(out@[i] == before[i]);
                        assert(vis[i] == upper[i]);
                    } else {
                        let jj = i - before.len();
                        assert(vis[i] == layer@[jj]);
                        assert(*out@[before.len() + jj] == self.get(layer@[jj]).unwrap());
                    }
                }
            }
        }
        assert(layers.subrange(0, layers.len() as int) =~= layers);
        out
    }

    /// Every value registered over the lifetime of this scope, ordered by symbol.
    pub fn iter_all(&self) -> (r: Vec<&T>)
        ensures
            r@.len() == self.values().len(),
            forall|i: int| 0 <= i < r@.len() ==> *r@[i] == self.values()[i],
    {
        let mut out: Vec<&T> = Vec::new();
        for i in 0..self.all.len()
            invariant
                out@.len() == i,
                forall|k: int| 0 <= k < i ==> *out@[k] == self.all@[k],
        {
            out.push(&self.all[i]);
        }
        out
    }

    /// Consumes this scope, yielding every value registered over its lifetime, ordered by
    /// symbol.
    pub fn into_all(self) -> (r: Vec<T>)
        ensures
            r@ == self.values(),
            self.wf() ==> sorted_by_rank(r@),
    {
        self.all
    }

    /// Replaces the registered value with the same symbol as `value`, returning the value it
    /// replaces. The symbol must be registered; it need not be visible.
    pub fn replace(&mut self, value: T) -> (r: T)
        requires
            old(self).wf(),
            old(self).contains_symbol(value.spec_symbol()),
        ensures
            final(self).wf(),
            Some(r) == old(self).get(value.spec_symbol()),
            forall|s: T::Symbol| #[trigger] final(self).get(s) == if s.rank() == rank_of(value) {
                Some(value)
            } else {
                old(self).get(s)
            },
            final(self).layers() == old(self).layers(),
    {
        let sym = value.symbol();
        let i = match self.find(&sym) {
            Some(i) => i,
            None => {
                proof {
                    assert(false);
                }
                0
            },
        };
        proof {
            lemma_entry(self.all@, i as int);
        }
        let ghost old_all = self.all@;
        let replaced = self.all.remove(i);
        self.all.insert(i, value);
        proof {
            let new_all = self.all@;
            assert(new_all =~= old_all.update(i as int, value));
            assert(sorted_by_rank(new_all)) by {
                assert forall|a: int, b: int| 0 <= a < b < new_all.len() implies rank_of(#[trigger] new_all[a])
                    < rank_of(#[trigger] new_all[b]) by {
                    assert(rank_of(new_all[a]) == rank_of(old_all[a]));
                    assert(rank_of(new_all[b]) == rank_of(old_all[b]));
                }
            }
            assert forall|r: int| has_rank(old_all, r) <==> has_rank(new_all, r) by {
                if has_rank(old_all, r) {
                    let j = choose|j: int| 0 <= j < old_all.len() && rank_of(#[trigger] old_all[j]) == r;
                    assert(rank_of(new_all[j]) == r);
                }
                if has_rank(new_all, r) {
                    let j = choose|j: int| 0 <= j < new_all.len() && rank_of(#[trigger] new_all[j]) == r;
                    assert(rank_of(old_all[j]) == r);
                }
            }
            assert forall|s: T::Symbol| #[trigger] self.get(s) == if s.rank() == rank_of(value) {
                Some(value)
            } else {
                old(self).get(s)
            } by {
                let r = s.rank();
                if has_rank(new_all, r) {
                    let j = choose|j: int| 0 <= j < new_all.len() && rank_of(#[trigger] new_all[j]) == r;
                    lemma_entry(new_all, j);
                    lemma_entry(old_all, j);
                }
            }
        }
        replaced
    }

    /// Gets the first value, in the order of `iter`, that has the given name.
    pub fn get_by_name(&self, name: &str) -> (r: Option<&T>)
        requires
            self.wf(),
        ensures
            match r {
                Some(v) => exists|i: int| {
                    &&& 0 <= i < self.visible().len()
                    &&& *v == self.visible()[i]
                    &&& v.spec_name() == name@
                    &&& forall|j: int| 0 <= j < i ==> (#[trigger] self.visible()[j]).spec_name() != name@
                },
                None => forall|i: int| 0 <= i < self.visible().len() ==> (#[trigger] self.visible()[i]).spec_name() != name@,
            },
    {
        let vis = self.iter();
        for i in 0..vis.len()
            invariant
                vis@.len() == self.visible().len(),
                forall|k: int| 0 <= k < vis@.len() ==> *vis@[k] == self.visible()[k],
                forall|k: int| 0 <= k < i ==> (#[trigger] self.visible()[k]).spec_name() != name@,
        {
            let v = vis[i];
            if str_eq(v.name(), name) {
                return Some(v);
            }
        }
        None
    }

    /// Gets the first value, in the order of `iter`, that has the given symbol.
    pub fn get_by_symbol(&self, symbol: T::Symbol) -> (r: Option<&T>)
        requires
            self.wf(),
        ensures
            match r {
                Some(v) => exists|i: int| {
                    &&& 0 <= i < self.visible().len()
                    &&& *v == self.visible()[i]
                    &&& rank_of(*v) == symbol.rank()
                    &&& forall|j: int| 0 <= j < i ==> rank_of(#[trigger] self.visible()[j]) != symbol.rank()
                },
                None => forall|i: int| 0 <= i < self.visible().len() ==> rank_of(#[trigger] self.visible()[i]) != symbol.rank(),
            },
    {
        let vis = self.iter();
        for i in 0..vis.len()
            invariant
                vis@.len() == self.visible().len(),
                forall|k: int| 0 <= k < vis@.len() ==> *vis@[k] == self.visible()[k],
                forall|k: int| 0 <= k < i ==> rank_of(#[trigger] self.visible()[k]) != symbol.rank(),
        {
            let v = vis[i];
            if v.symbol().same(&symbol) {
                return Some(v);
            }
        }
        None
    }

    /// Gets the first value, in the order of `iter`, on which `pred` holds.
    pub fn get_by<P: Fn(&T) -> bool>(&self, pred: P) -> (r: Option<&T>)
        requires
            self.wf(),
            forall|t: &T| #[trigger] pred.requires((t,)),
        ensures
            match r {
                Some(v) => exists|i: int| {
                    &&& 0 <= i < self.visible().len()
                    &&& *v == self.visible()[i]
                    &&& pred.ensures((&self.visible()[i],), true)
                    &&& forall|j: int| 0 <= j < i ==> pred.ensures((&(#[trigger] self.visible()[j]),), false)
                },
                None => forall|i: int| 0 <= i < self.visible().len() ==> pred.ensures((&(#[trigger] self.visible()[i]),), false),
            },
            self.found_by(pred, r),
    {
        let vis = self.iter();
        for i in 0..vis.len()
            invariant
                vis@.len() == self.visible().len(),
                forall|k: int| 0 <= k < vis@.len() ==> *vis@[k] == self.visible()[k],
                forall|t: &T| #[trigger] pred.requires((t,)),
                forall|k: int| 0 <= k < i ==> pred.ensures((&(#[trigger] self.visible()[k]),), false),
        {
            let v = vis[i];
            if pred(v) {
                return Some(v);
            }
        }
        None
    }

    /// `r` lists the visible values, most local first.
    pub open spec fn lists_visible(&self, r: Seq<&T>) -> bool {
        &&& r.len() == self.visible().len()
        &&& forall|i: int| 0 <= i < r.len() ==> *r[i] == self.visible()[i]
    }

    /// `r` is the first visible value, most local first, on which `pred` answers true, every
    /// value before it answered false; or nothing, where `pred` answered false on every one.
    pub open spec fn found_by<P: Fn(&T) -> bool>(&self, pred: P, r: Option<&T>) -> bool {
        match r {
            Some(v) => exists|i: int| {
                &&& 0 <= i < self.visible().len()
                &&& *v == self.visible()[i]
                &&& pred.ensures((&self.visible()[i],), true)
                &&& forall|j: int| 0 <= j < i ==> pred.ensures((&(#[trigger] self.visible()[j]),), false)
            },
            None => forall|i: int| 0 <= i < self.visible().len() ==> pred.ensures((&(#[trigger] self.visible()[i]),), false),
        }
    }

    /// A lookup by a predicate finds what a search of the listed visible values, in the order
    /// in which they are listed, finds: the first match, so that a match in a more local layer
    /// shadows any in outer layers, and nothing where no listed value matches.
    pub proof fn lemma_get_by_agrees_with_iter<P: Fn(&T) -> bool>(
        &self,
        pred: P,
        listed: Seq<&T>,
        found: Option<&T>,
    )
        requires
            self.wf(),
            self.lists_visible(listed),
            self.found_by(pred, found),
        ensures
            first_found(listed, pred, found),
    {
        match found {
            Some(v) => {
                let i = choose|i: int| {
                    &&& 0 <= i < self.visible().len()
                    &&& *v == self.visible()[i]
                    &&& pred.ensures((&self.visible()[i],), true)
                    &&& forall|j: int| 0 <= j < i ==> pred.ensures((&(#[trigger] self.visible()[j]),), false)
                };
                assert(*listed[i] == *v);
                assert forall|j: int| 0 <= j < i implies pred.ensures((#[trigger] listed[j],), false) by {
                    assert(*listed[j] == self.visible()[j]);
                }
            },
            None => {
                assert forall|i: int| 0 <= i < listed.len() implies pred.ensures((#[trigger] listed[i],), false) by {
                    assert(*listed[i] == self.visible()[i]);
                }
            },
        }
    }

    /// The values of the most local layer, in the order of insertion.
    fn local_refs(&self) -> (r: Vec<&T>)
        requires
            self.wf(),
        ensures
            r@.len() == self.local().len(),
            forall|i: int| 0 <= i < r@.len() ==> *r@[i] == self.local()[i],
    {
        let mut out: Vec<&T> = Vec::new();
        let n = self.scope_stack.len();
        if n == 0 {
            return out;
        }
        let layer = &self.scope_stack[n - 1];
        assert(layer@ == self.layers().last());
        for j in 0..layer.len()
            invariant
                self.wf(),
                n == self.scope_stack@.len(),
                n > 0,
                layer == &self.scope_stack@[n - 1],
                layer@ == self.layers().last(),
                out@.len() == j,
                forall|i: int| 0 <= i < j ==> *out@[i] == self.get(layer@[i]).unwrap(),
        {
            let sym = &layer[j];
            assert(has_rank(self.all@, sym.rank()));
            let i = match self.find(sym) {
                Some(i) => i,
                None => {
                    proof {
                        assert(false);
                    }
                    0
                },
            };
            proof {
                lemma_entry(self.all@, i as int);
            }
            out.push(&self.all[i]);
        }
        out
    }

    /// Gets the first value of the most local layer on which `pred` holds.
    pub fn get_local_by<P: Fn(&T) -> bool>(&self, pred: P) -> (r: Option<&T>)
        requires
            self.wf(),
            forall|t: &T| #[trigger] pred.requires((t,)),
        ensures
            match r {
                Some(v) => exists|i: int| {
                    &&& 0 <= i < self.local().len()
                    &&& *v == self.local()[i]
                    &&& pred.ensures((&self.local()[i],), true)
                    &&& forall|j: int| 0 <= j < i ==> pred.ensures((&(#[trigger] self.local()[j]),), false)
                },
                None => forall|i: int| 0 <= i < self.local().len() ==> pred.ensures((&(#[trigger] self.local()[i]),), false),
            },
    {
        let vis = self.local_refs();
        for i in 0..vis.len()
            invariant
                vis@.len() == self.local().len(),
                forall|k: int| 0 <= k < vis@.len() ==> *vis@[k] == self.local()[k],
                forall|t: &T| #[trigger] pred.requires((t,)),
                forall|k: int| 0 <= k < i ==> pred.ensures((&(#[trigger] self.local()[k]),), false),
        {
            let v = vis[i];
            if pred(v) {
                return Some(v);
            }
        }
        None
    }

    /// Gets the first value of the most local layer that has the given name.
    pub fn get_local_by_name(&self, name: &str) -> (r: Option<&T>)
        requires
            self.wf(),
        ensures
            match r {
                Some(v) => exists|i: int| {
                    &&& 0 <= i < self.local().len()
                    &&& *v == self.local()[i]
                    &&& v.spec_name() == name@
                    &&& forall|j: int| 0 <= j < i ==> (#[trigger] self.local()[j]).spec_name() != name@
                },
                None => forall|i: int| 0 <= i < self.local().len() ==> (#[trigger] self.local()[i]).spec_name() != name@,
            },
    {
        let vis = self.local_refs();
        for i in 0..vis.len()
            invariant
                vis@.len() == self.local().len(),
                forall|k: int| 0 <= k < vis@.len() ==> *vis@[k] == self.local()[k],
                forall|k: int| 0 <= k < i ==> (#[trigger] self.local()[k]).spec_name() != name@,
        {
            let v = vis[i];
            if str_eq(v.name(), name) {
                return Some(v);
            }
        }
        None
    }

    /// Gets the first value of the most local layer that has the given symbol.
    pub fn get_local_by_symbol(&self, symbol: T::Symbol) -> (r: Option<&T>)
        requires
            self.wf(),
        ensures
            match r {
                Some(v) => exists|i: int| {
                    &&& 0 <= i < self.local().len()
                    &&& *v == self.local()[i]
                    &&& rank_of(*v) == symbol.rank()
                    &&& forall|j: int| 0 <= j < i ==> rank_of(#[trigger] self.local()[j]) != symbol.rank()
                },
                None => forall|i: int| 0 <= i < self.local().len() ==> rank_of(#[trigger] self.local()[i]) != symbol.rank(),
            },
    {
        let vis = self.local_refs();
        for i in 0..vis.len()
            invariant
                vis@.len() == self.local().len(),
                forall|k: int| 0 <= k < vis@.len() ==> *vis@[k] == self.local()[k],
                forall|k: int| 0 <= k < i ==> rank_of(#[trigger] self.local()[k]) != symbol.rank(),
        {
            let v = vis[i];
            if v.symbol().same(&symbol) {
                return Some(v);
            }
        }
        None
    }

    /// The number of layers in the scope.
    pub fn depth(&self) -> (r: usize)
        ensures
            r == self.layers().len(),
    {
        self.scope_stack.len()
    }

    /// Adds an empty layer on top of the scope.
    pub fn push_layer(&mut self)
        requires
            old(self).wf(),
        ensures
            final(self).wf(),
            final(self).values() == old(self).values(),
            final(self).layers() == old(self).layers().push(Seq::empty()),
    {
        self.scope_stack.push(Vec::new());
        proof {
            assert forall|i: int, j: int|
                0 <= i < self.scope_stack@.len() && 0 <= j < self.scope_stack@[i]@.len()
                    implies has_rank(self.all@, (#[trigger] self.scope_stack@[i]@[j]).rank()) by {
                assert(i < old(self).scope_stack@.len());
                assert(self.scope_stack@[i] == old(self).scope_stack@[i]);
            }
            assert(self.layers() =~= old(self).layers().push(Seq::empty()));
        }
    }

    /// Removes the top layer of the scope, yielding its symbols; the values stay registered.
    pub fn pop_layer(&mut self) -> (r: Vec<T::Symbol>)
        requires
            old(self).wf(),
            old(self).layers().len() > 0,
        ensures
            final(self).wf(),
            final(self).values() == old(self).values(),
            final(self).layers() == old(self).layers().drop_last(),
            r@ == old(self).layers().last(),
    {
        let r = match self.scope_stack.pop() {
            Some(top) => top,
            None => {
                proof {
                    assert(false);
                }
                Vec::new()
            },
        };
        proof {
            assert forall|i: int, j: int|
                0 <= i < self.scope_stack@.len() && 0 <= j < self.scope_stack@[i]@.len()
                    implies has_rank(self.all@, (#[trigger] self.scope_stack@[i]@[j]).rank()) by {
                assert(self.scope_stack@[i] == old(self).scope_stack@[i]);
            }
            assert(self.layers() =~= old(self).layers().drop_last());
        }
        r
    }
}

/// Shedding the layers entered since an earlier state shows again what that state showed: a
/// scope whose layers are back to an earlier scope's, and whose registrations have only grown,
/// has the same visible values, in the same order.
pub proof fn lemma_visible_restored<T: Symbolic>(a: ReadOnlyScope<T>, b: ReadOnlyScope<T>)
    requires
        a.wf(),
        b.wf(),
        b.layers() == a.layers(),
        forall|s: T::Symbol| #[trigger] a.contains_symbol(s) ==> b.get(s) == a.get(s),
    ensures
        b.visible() == a.visible(),
{
    let syms = visible_symbols(a.layers());
    assert forall|k: int| 0 <= k < syms.len() implies #[trigger] b.get(syms[k]) == a.get(syms[k]) by {
        lemma_visible_symbols_member(a.layers(), k);
        let (i, j) = choose|i: int, j: int| 0 <= i < a.layers().len() && 0 <= j < a.layers()[i].len()
            && #[trigger] a.layers()[i][j] == syms[k];
        assert(a.layers()[i] == a.scope_stack@[i]@);
        assert(has_rank(a.all@, a.scope_stack@[i]@[j].rank()));
        assert(a.contains_symbol(syms[k]));
    }
    assert(b.visible() =~= a.visible());
}

/// A value inserted into the most local layer shadows every outer value of the same name: in
/// the visible values it comes right after the layer's earlier values, so where none of those
/// has its name, it is the first visible value with that name.
pub proof fn lemma_insert_shadows<T: Symbolic>(a: ReadOnlyScope<T>, b: ReadOnlyScope<T>, v: T)
    requires
        a.wf(),
        b.wf(),
        a.layers().len() > 0,
        !a.contains_symbol(v.spec_symbol()),
        forall|s: T::Symbol| #[trigger] b.get(s) == if s.rank() == rank_of(v) {
            Some(v)
        } else {
            a.get(s)
        },
        b.layers() == a.layers().update(a.layers().len() - 1, a.layers().last().push(v.spec_symbol())),
        forall|i: int| 0 <= i < a.local().len() ==> (#[trigger] a.local()[i]).spec_name() != v.spec_name(),
    ensures
        a.layers().last().len() < b.visible().len(),
        b.visible()[a.layers().last().len() as int] == v,
        forall|j: int| 0 <= j < a.layers().last().len() ==> (#[trigger] b.visible()[j]).spec_name() != v.spec_name(),
{
    let top = a.layers().len() - 1;
    let k = a.layers().last().len() as int;
    assert(b.layers().drop_last() =~= a.layers().drop_last());
    assert(b.layers().last() == a.layers().last().push(v.spec_symbol()));
    let vis = visible_symbols(b.layers());
    assert(vis == b.layers().last() + visible_symbols(b.layers().drop_last()));
    assert(vis[k] == v.spec_symbol());
    assert(b.get(v.spec_symbol()) == Some(v));
    assert forall|j: int| 0 <= j < k implies (#[trigger] b.visible()[j]).spec_name() != v.spec_name() by {
        let s = a.layers().last()[j];
        assert(vis[j] == s);
        assert(a.layers()[top] == a.scope_stack@[top]@);
        assert(has_rank(a.all@, a.scope_stack@[top]@[j].rank()));
        assert(a.contains_symbol(s));
        assert(s.rank() != rank_of(v));
        assert(b.get(s) == a.get(s));
        assert(a.local()[j] == a.get(s).unwrap());
    }
}

/// A value inserted into the most local layer hides nothing that was visible: every value
/// visible before stays visible, one place further on where it comes after the layer's earlier
/// values.
pub proof fn lemma_insert_keeps_visible<T: Symbolic>(a: ReadOnlyScope<T>, b: ReadOnlyScope<T>, v: T)
    requires
        a.wf(),
        a.layers().len() > 0,
        !a.contains_symbol(v.spec_symbol()),
        forall|s: T::Symbol| #[trigger] b.get(s) == if s.rank() == rank_of(v) {
            Some(v)
        } else {
            a.get(s)
        },
        b.layers() == a.layers().update(a.layers().len() - 1, a.layers().last().push(v.spec_symbol())),
    ensures
        forall|i: int| 0 <= i < a.visible().len() && i < a.layers().last().len()
            ==> b.visible()[i] == #[trigger] a.visible()[i],
        forall|i: int| 0 <= i < a.visible().len() && i >= a.layers().last().len()
            ==> b.visible()[i + 1] == #[trigger] a.visible()[i],
        b.visible().len() == a.visible().len() + 1,
        b.visible()[a.layers().last().len() as int] == v,
{
    let top = a.layers().len() - 1;
    let k = a.layers().last().len() as int;
    assert(b.layers().drop_last() =~= a.layers().drop_last());
    let va = visible_symbols(a.layers());
    let vb = visible_symbols(b.layers());
    assert(va == a.layers().last() + visible_symbols(a.layers().drop_last()));
    assert(vb == b.layers().last() + visible_symbols(b.layers().drop_last()));
    assert forall|i: int| 0 <= i < a.visible().len() implies b.visible()[
        if i < a.layers().last().len() { i } else { i + 1 }
    ] == #[trigger] a.visible()[i] by {
        let j = if i < k { i } else { i + 1 };
        assert(vb[j] == va[i]);
        let s = va[i];
        lemma_visible_symbols_member(a.layers(), i);
        let (li, lj) = choose|li: int, lj: int| 0 <= li < a.layers().len() && 0 <= lj < a.layers()[li].len()
            && a.layers()[li][lj] == s;
        assert(a.layers()[li] == a.scope_stack@[li]@);
        assert(has_rank(a.all@, a.scope_stack@[li]@[lj].rank()));
        assert(a.contains_symbol(s));
        assert(s.rank() != rank_of(v));
        assert(b.get(s) == a.get(s));
    }
    assert(vb[k] == v.spec_symbol());
    assert(b.get(v.spec_symbol()) == Some(v));
}

impl<T: Symbolic> Default for ReadOnlyScope<T> {
    fn default() -> (r: Self)
        ensures
            r.wf(),
            r.layers() == Seq::<Seq<T::Symbol>>::empty(),
            r.values() == Seq::<T>::empty(),
    {
        ReadOnlyScope::new()
    }
}

} // verus!
