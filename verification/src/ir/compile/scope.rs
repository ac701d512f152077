use vstd::prelude::*;
use crate::common::scope::{visible_symbols, lemma_visible_symbols_prepend};
use crate::util::{dec_text, owned, push_dec, str_eq};
use crate::vm::symbol::{Symbol, VariableSymbol};

verus! {

/// A generic scope that keeps track of layers of items, and of the name of every symbol it has
/// registered.
#[derive(Debug)]
pub struct Scope<T, SymbolT: Symbol> {
    symbols: Vec<SymbolT>,
    names: Vec<String>,
    scope: Vec<Vec<T>>,
}

impl<T, SymbolT: Symbol> Scope<T, SymbolT> {
    /// The symbols registered, in order.
    pub closed spec fn symbols_spec(&self) -> Seq<SymbolT> {
        self.symbols@
    }

    /// The names registered, in order.
    pub closed spec fn name_strings(&self) -> Seq<String> {
        self.names@
    }

    /// The texts of the names registered, in order.
    pub open spec fn names_spec(&self) -> Seq<Seq<char>> {
        self.name_strings().map_values(|n: String| n@)
    }

    /// The items of each layer, outermost layer first.
    pub closed spec fn layers(&self) -> Seq<Seq<T>> {
        self.scope@.map_values(|l: Vec<T>| l@)
    }

    /// The items in the order they are searched: the innermost layer first, each layer in the
    /// order of insertion.
    pub open spec fn visible(&self) -> Seq<T> {
        visible_symbols(self.layers())
    }

    /// An empty scope, with no layers.
    pub fn new() -> (r: Self)
        ensures
            r.symbols_spec() == Seq::<SymbolT>::empty(),
            r.name_strings() == Seq::<String>::empty(),
            r.layers() == Seq::<Seq<T>>::empty(),
    {
        let r = Scope { symbols: Vec::new(), names: Vec::new(), scope: Vec::new() };
        assert(r.layers() =~= Seq::<Seq<T>>::empty());
        r
    }

    /// The names registered, in order.
    pub fn names(&self) -> (r: &[String])
        ensures
            r@ == self.name_strings(),
    {
        self.names.as_slice()
    }

    /// The names registered, in order.
    pub fn into_names(self) -> (r: Vec<String>)
        ensures
            r@ == self.name_strings(),
    {
        self.names
    }

    /// The items of the innermost layer.
    pub fn top(&self) -> (r: &[T])
        requires
            self.layers().len() > 0,
        ensures
            r@ == self.layers().last(),
    {
        let n = self.scope.len();
        self.scope[n - 1].as_slice()
    }

    /// The symbols registered, in order.
    pub fn symbols(&self) -> (r: &[SymbolT])
        ensures
            r@ == self.symbols_spec(),
    {
        self.symbols.as_slice()
    }

    /// Adds an empty layer.
    pub fn add_scope(&mut self)
        ensures
            final(self).layers() == old(self).layers().push(Seq::empty()),
            final(self).symbols_spec() == old(self).symbols_spec(),
            final(self).name_strings() == old(self).name_strings(),
    {
        self.scope.push(Vec::new());
        assert(self.layers() =~= old(self).layers().push(Seq::empty()));
    }

    /// Removes the innermost layer, yielding its items.
    pub fn shed_scope(&mut self) -> (r: Vec<T>)
        requires
            old(self).layers().len() > 0,
        ensures
            r@ == old(self).layers().last(),
            final(self).layers() == old(self).layers().drop_last(),
            final(self).symbols_spec() == old(self).symbols_spec(),
            final(self).name_strings() == old(self).name_strings(),
    {
        let r = match self.scope.pop() {
            Some(layer) => layer,
            None => {
                proof {
                    assert(false);
                }
                Vec::new()
            },
        };
        assert(self.layers() =~= old(self).layers().drop_last());
        r
    }

    /// The name registered at the given symbol's index.
    pub fn lookup_name(&self, symbol: SymbolT) -> (r: &str)
        requires
            0 <= symbol.spec_index() < self.name_strings().len(),
        ensures
            r@ == self.names_spec()[symbol.spec_index()],
    {
        self.names[symbol.index()].as_str()
    }

    /// References to the items in the order they are searched.
    fn search_order(&self) -> (r: Vec<&T>)
        ensures
            r@.len() == self.visible().len(),
            forall|i: int| 0 <= i < r@.len() ==> *r@[i] == self.visible()[i],
    {
        let mut out: Vec<&T> = Vec::new();
        let mut k = self.scope.len();
        let ghost layers = self.layers();
        assert(layers.subrange(k as int, layers.len() as int) =~= Seq::<Seq<T>>::empty());
        while k > 0
            invariant
                layers == self.layers(),
                k <= layers.len(),
                out@.len() == visible_symbols(layers.subrange(k as int, layers.len() as int)).len(),
                forall|i: int| 0 <= i < out@.len()
                    ==> *out@[i] == visible_symbols(layers.subrange(k as int, layers.len() as int))[i],
            decreases k,
        {
            k = k - 1;
            let layer = &self.scope[k];
            let ghost before = out@;
            let ghost upper = visible_symbols(layers.subrange(k + 1, layers.len() as int));
            assert(layer@ == layers[k as int]);
            for j in 0..layer.len()
                invariant
                    k < layers.len(),
                    layer@ == layers[k as int],
                    before.len() == upper.len(),
                    forall|i: int| 0 <= i < before.len() ==> *before[i] == upper[i],
                    out@.len() == before.len() + j,
                    forall|i: int| 0 <= i < before.len() ==> out@[i] == before[i],
                    forall|i: int| 0 <= i < j ==> *out@[before.len() + i] == layer@[i],
            {
                out.push(&layer[j]);
            }
            proof {
                let sub = layers.subrange(k as int, layers.len() as int);
                assert(sub =~= seq![layers[k as int]] + layers.subrange(k + 1, layers.len() as int));
                lemma_visible_symbols_prepend(layers[k as int], layers.subrange(k + 1, layers.len() as int));
                let vis = visible_symbols(sub);
                assert(vis == upper + layer@);
                assert forall|i: int| 0 <= i < out@.len() implies *out@[i] == vis[i] by {
                    if i < before.len() {
                        assert(out@[i] == before[i]);
                    } else {
                        let jj = i - before.len();
                        assert(*out@[before.len() + jj] == layer@[jj]);
                    }
                }
            }
        }
        assert(layers.subrange(0, layers.len() as int) =~= layers);
        out
    }

    /// The first item, searching from the innermost layer out, on which `predicate` holds.
    pub fn lookup<P: Fn(&T) -> bool>(&self, predicate: P) -> (r: Option<&T>)
        requires
            forall|t: &T| #[trigger] predicate.requires((t,)),
        ensures
            match r {
                Some(v) => exists|i: int| {
                    &&& 0 <= i < self.visible().len()
                    &&& *v == self.visible()[i]
                    &&& predicate.ensures((&self.visible()[i],), true)
                    &&& forall|j: int| 0 <= j < i ==> predicate.ensures((&(#[trigger] self.visible()[j]),), false)
                },
                None => forall|i: int| 0 <= i < self.visible().len()
                    ==> predicate.ensures((&(#[trigger] self.visible()[i]),), false),
            },
    {
        let items = self.search_order();
        for i in 0..items.len()
            invariant
                items@.len() == self.visible().len(),
                forall|k: int| 0 <= k < items@.len() ==> *items@[k] == self.visible()[k],
                forall|t: &T| #[trigger] predicate.requires((t,)),
                forall|k: int| 0 <= k < i ==> predicate.ensures((&(#[trigger] self.visible()[k]),), false),
        {
            let v = items[i];
            if predicate(v) {
                return Some(v);
            }
        }
        None
    }

    /// The first item of the innermost layer on which `predicate` holds.
    pub fn lookup_one<P: Fn(&T) -> bool>(&self, predicate: P) -> (r: Option<&T>)
        requires
            self.layers().len() > 0,
            forall|t: &T| #[trigger] predicate.requires((t,)),
        ensures
            match r {
                Some(v) => exists|i: int| {
                    &&& 0 <= i < self.layers().last().len()
                    &&& *v == self.layers().last()[i]
                    &&& predicate.ensures((&self.layers().last()[i],), true)
                    &&& forall|j: int| 0 <= j < i ==> predicate.ensures((&(#[trigger] self.layers().last()[j]),), false)
                },
                None => forall|i: int| 0 <= i < self.layers().last().len()
                    ==> predicate.ensures((&(#[trigger] self.layers().last()[i]),), false),
            },
    {
        let top = self.top();
        for i in 0..top.len()
            invariant
                top@ == self.layers().last(),
                forall|t: &T| #[trigger] predicate.requires((t,)),
                forall|k: int| 0 <= k < i ==> predicate.ensures((&(#[trigger] self.layers().last()[k]),), false),
        {
            let v = &top[i];
            if predicate(v) {
                return Some(v);
            }
        }
        None
    }

    /// Registers a symbol with its name.
    pub fn insert_symbol(&mut self, symbol: SymbolT, name: String)
        ensures
            final(self).symbols_spec() == old(self).symbols_spec().push(symbol),
            final(self).name_strings() == old(self).name_strings().push(name),
            final(self).layers() == old(self).layers(),
    {
        self.names.push(name);
        self.symbols.push(symbol);
    }

    /// Adds an item to the innermost layer.
    pub fn insert_value(&mut self, value: T) -> (r: &T)
        requires
            old(self).layers().len() > 0,
        ensures
            *r == value,
            final(self).layers() == old(self).layers().update(
                old(self).layers().len() - 1,
                old(self).layers().last().push(value),
            ),
            final(self).symbols_spec() == old(self).symbols_spec(),
            final(self).name_strings() == old(self).name_strings(),
    {
        let n = self.scope.len();
        self.scope[n - 1].push(value);
        proof {
            assert(self.layers() =~= old(self).layers().update(n - 1, old(self).layers().last().push(value)));
        }
        let layer = &self.scope[n - 1];
        &layer[layer.len() - 1]
    }

    /// Adds items, in order, to the innermost layer.
    pub fn insert_values(&mut self, values: Vec<T>)
        requires
            old(self).layers().len() > 0,
        ensures
            final(self).layers() == old(self).layers().update(
                old(self).layers().len() - 1,
                old(self).layers().last() + values@,
            ),
            final(self).symbols_spec() == old(self).symbols_spec(),
            final(self).name_strings() == old(self).name_strings(),
    {
        let ghost added = values@;
        let mut values = values;
        let n = self.scope.len();
        self.scope[n - 1].append(&mut values);
        proof {
            assert(self.layers() =~= old(self).layers().update(n - 1, old(self).layers().last() + added));
        }
    }
}

/// `top[i]` is the first symbol of `top` whose name is `name`.
pub open spec fn first_local(top: Seq<VariableSymbol>, names: Seq<Seq<char>>, name: Seq<char>, i: int) -> bool {
    &&& 0 <= i < top.len()
    &&& names[top[i].global as int] == name
    &&& forall|j: int| 0 <= j < i ==> names[(#[trigger] top[j]).global as int] != name
}

/// At most one position is the first with a given name: a lookup by name finds the very
/// symbol that `lookup_or_insert_local` gave for that name.
pub proof fn lemma_first_local_unique(top: Seq<VariableSymbol>, names: Seq<Seq<char>>, name: Seq<char>, i: int, j: int)
    requires
        first_local(top, names, name, i),
        first_local(top, names, name, j),
    ensures
        i == j,
{
    if i < j {
        assert(names[top[i].global as int] != name);
    } else if j < i {
        assert(names[top[j].global as int] != name);
    }
}

/// The name given to the anonymous symbol registered `count` symbols in.
pub open spec fn anonymous_name(count: nat) -> Seq<char> {
    "anonymous symbol #"@ + dec_text(count)
}

/// The variables of a function: each registered under a name, with a global index that is its
/// place among all variables registered, and a local index that is its place in its layer.
#[derive(Debug)]
pub struct VariableScope {
    scope: Scope<VariableSymbol, VariableSymbol>,
}

impl VariableScope {
    /// The scope of variable symbols.
    pub closed spec fn inner(&self) -> Scope<VariableSymbol, VariableSymbol> {
        self.scope
    }

    /// The variables of the innermost layer, in the order of insertion.
    pub open spec fn top_spec(&self) -> Seq<VariableSymbol> {
        self.inner().layers().last()
    }

    /// Whether no variable of the innermost layer has the given name.
    pub open spec fn lacks_local(&self, name: Seq<char>) -> bool {
        forall|i: int| 0 <= i < self.top_spec().len()
            ==> self.inner().names_spec()[(#[trigger] self.top_spec()[i]).global as int] != name
    }

    /// Every symbol is registered at its global index, once per name, and every variable of a
    /// layer is registered.
    pub closed spec fn wf(&self) -> bool {
        &&& self.scope.symbols@.len() == self.scope.names@.len()
        &&& forall|j: int| 0 <= j < self.scope.symbols@.len() ==> (#[trigger] self.scope.symbols@[j]).global == j
        &&& forall|k: int, i: int| 0 <= k < self.scope.layers().len() && 0 <= i < self.scope.layers()[k].len()
            ==> (#[trigger] self.scope.layers()[k][i]).global < self.scope.symbols@.len()
    }

    /// A scope with no variables and no layers.
    pub fn new() -> (r: Self)
        ensures
            r.wf(),
            r.inner().layers() == Seq::<Seq<VariableSymbol>>::empty(),
            r.inner().name_strings() == Seq::<String>::empty(),
    {
        VariableScope { scope: Scope::new() }
    }

    /// The scope of variable symbols.
    pub fn scope(&self) -> (r: &Scope<VariableSymbol, VariableSymbol>)
        ensures
            *r == self.inner(),
    {
        &self.scope
    }

    /// Adds an empty layer.
    pub fn add_scope(&mut self)
        requires
            old(self).wf(),
        ensures
            final(self).wf(),
            final(self).inner().layers() == old(self).inner().layers().push(Seq::empty()),
            final(self).inner().name_strings() == old(self).inner().name_strings(),
    {
        self.scope.add_scope();
        proof {
            assert forall|k: int, i: int| 0 <= k < self.scope.layers().len() && 0 <= i < self.scope.layers()[k].len()
                implies (#[trigger] self.scope.layers()[k][i]).global < self.scope.symbols@.len() by {
                assert(self.scope.layers()[k] == old(self).scope.layers()[k]);
            }
        }
    }

    /// Removes the innermost layer, yielding its variables.
    pub fn shed_scope(&mut self) -> (r: Vec<VariableSymbol>)
        requires
            old(self).wf(),
            old(self).inner().layers().len() > 0,
        ensures
            final(self).wf(),
            r@ == old(self).top_spec(),
            final(self).inner().layers() == old(self).inner().layers().drop_last(),
            final(self).inner().name_strings() == old(self).inner().name_strings(),
    {
        let r = self.scope.shed_scope();
        proof {
            assert forall|k: int, i: int| 0 <= k < self.scope.layers().len() && 0 <= i < self.scope.layers()[k].len()
                implies (#[trigger] self.scope.layers()[k][i]).global < self.scope.symbols@.len() by {
                assert(self.scope.layers()[k] == old(self).scope.layers()[k]);
            }
        }
        r
    }

    /// The names of all variables, by global index.
    pub fn into_names(self) -> (r: Vec<String>)
        ensures
            r@ == self.inner().name_strings(),
    {
        self.scope.into_names()
    }

    /// Registers a new variable in the innermost layer.
    fn next_symbol(&mut self, name: String) -> (r: VariableSymbol)
        requires
            old(self).wf(),
            old(self).inner().layers().len() > 0,
        ensures
            final(self).wf(),
            r.global == old(self).inner().name_strings().len(),
            r.local == old(self).top_spec().len(),
            final(self).inner().name_strings() == old(self).inner().name_strings().push(name),
            final(self).inner().layers() == old(self).inner().layers().update(
                old(self).inner().layers().len() - 1,
                old(self).top_spec().push(r),
            ),
    {
        let global = self.scope.symbols().len();
        let n = self.scope.scope.len();
        let local = self.scope.scope[n - 1].len();
        let sym = VariableSymbol { global, local };
        self.scope.insert_symbol(sym, name);
        self.scope.insert_value(sym);
        proof {
            let old_layers = old(self).scope.layers();
            assert forall|k: int, i: int| 0 <= k < self.scope.layers().len() && 0 <= i < self.scope.layers()[k].len()
                implies (#[trigger] self.scope.layers()[k][i]).global < self.scope.symbols@.len() by {
                if k < n - 1 || i < old_layers[k].len() {
                    assert(self.scope.layers()[k][i] == old_layers[k][i]);
                }
            }
        }
        sym
    }

    /// Registers a variable with the given name in the innermost layer, which must hold no
    /// variable of that name yet.
    pub fn insert_local_variable(&mut self, symbol_name: String) -> (r: VariableSymbol)
        requires
            old(self).wf(),
            old(self).inner().layers().len() > 0,
            old(self).lacks_local(symbol_name@),
        ensures
            final(self).wf(),
            r.global == old(self).inner().name_strings().len(),
            r.local == old(self).top_spec().len(),
            final(self).inner().name_strings() == old(self).inner().name_strings().push(symbol_name),
            final(self).inner().layers() == old(self).inner().layers().update(
                old(self).inner().layers().len() - 1,
                old(self).top_spec().push(r),
            ),
            first_local(final(self).top_spec(), final(self).inner().names_spec(), symbol_name@, old(self).top_spec().len() as int),
    {
        let ghost old_top = self.top_spec();
        let ghost old_names = self.inner().names_spec();
        let r = self.next_symbol(symbol_name);
        proof {
            let top = self.top_spec();
            let names = self.inner().names_spec();
            assert(top == old_top.push(r));
            assert(names == old_names.push(symbol_name@));
            assert(top[old_top.len() as int] == r);
            assert(old_names.len() == old(self).inner().name_strings().len());
            assert(names[old_names.len() as int] == symbol_name@);
            assert(names[r.global as int] == symbol_name@);
            assert forall|j: int| 0 <= j < old_top.len() implies names[(#[trigger] top[j]).global as int] != symbol_name@ by {
                assert(top[j] == old_top[j]);
                assert(old_top[j].global < old_names.len()) by {
                    let k = old(self).scope.layers().len() - 1;
                    assert(old(self).scope.layers()[k][j] == old_top[j]);
                }
                assert(names[top[j].global as int] == old_names[top[j].global as int]);
            }
        }
        r
    }

    /// The first variable of the innermost layer with the given name.
    pub fn lookup_local(&self, symbol_name: &str) -> (r: Option<VariableSymbol>)
        requires
            self.wf(),
            self.inner().layers().len() > 0,
        ensures
            match r {
                Some(s) => exists|i: int| first_local(self.top_spec(), self.inner().names_spec(), symbol_name@, i)
                    && self.top_spec()[i] == s,
                None => self.lacks_local(symbol_name@),
            },
    {
        let names = self.scope.names();
        let pred = |local: &VariableSymbol| -> (b: bool)
            ensures
                b == (local.global < names@.len() && names@[local.global as int]@ == symbol_name@),
            {
                if local.global < names.len() {
                    str_eq(names[local.global].as_str(), symbol_name)
                } else {
                    false
                }
            };
        let found = self.scope.lookup_one(pred);
        proof {
            let top = self.top_spec();
            let k = self.scope.layers().len() - 1;
            assert forall|i: int| 0 <= i < top.len() implies (#[trigger] top[i]).global < names@.len() by {
                assert(self.scope.layers()[k][i] == top[i]);
            }
            assert(names@.map_values(|n: String| n@) == self.inner().names_spec());
        }
        match found {
            Some(s) => Some(*s),
            None => None,
        }
    }

    /// The variable of the innermost layer with the given name, registering one if there is
    /// none.
    pub fn lookup_or_insert_local(&mut self, symbol_name: &str) -> (r: VariableSymbol)
        requires
            old(self).wf(),
            old(self).inner().layers().len() > 0,
        ensures
            final(self).wf(),
            exists|i: int| first_local(final(self).top_spec(), final(self).inner().names_spec(), symbol_name@, i)
                && final(self).top_spec()[i] == r,
            old(self).lacks_local(symbol_name@) ==> final(self).inner().name_strings().len()
                == old(self).inner().name_strings().len() + 1,
            !old(self).lacks_local(symbol_name@) ==> final(self).inner() == old(self).inner(),
    {
        match self.lookup_local(symbol_name) {
            Some(sym) => sym,
            None => {
                let r = self.insert_local_variable(owned(symbol_name));
                proof {
                    let k = old(self).top_spec().len() as int;
                    assert(self.top_spec()[k] == r);
                }
                r
            },
        }
    }

    /// The name of the given variable, if a variable of the innermost layer goes by it.
    pub fn lookup_local_name(&self, symbol: VariableSymbol) -> (r: Option<&str>)
        requires
            self.wf(),
            self.inner().layers().len() > 0,
            symbol.global < self.inner().name_strings().len(),
        ensures
            match r {
                Some(n) => n@ == self.inner().names_spec()[symbol.global as int]
                    && !self.lacks_local(n@),
                None => self.lacks_local(self.inner().names_spec()[symbol.global as int]),
            },
    {
        let name = self.scope.lookup_name(symbol);
        match self.lookup_local(name) {
            Some(v) => {
                proof {
                    let i = choose|i: int| first_local(self.top_spec(), self.inner().names_spec(), name@, i)
                        && self.top_spec()[i] == v;
                    let k = self.scope.layers().len() - 1;
                    assert(self.scope.layers()[k][i] == self.top_spec()[i]);
                    assert(self.scope.symbols@[v.global as int].global == v.global);
                }
                Some(self.scope.lookup_name(v))
            },
            None => None,
        }
    }

    /// Registers a variable with a name of its own in the innermost layer.
    pub fn insert_anonymous_symbol(&mut self) -> (r: VariableSymbol)
        requires
            old(self).wf(),
            old(self).inner().layers().len() > 0,
            old(self).lacks_local(anonymous_name(old(self).inner().name_strings().len())),
        ensures
            final(self).wf(),
            r.global == old(self).inner().name_strings().len(),
            r.local == old(self).top_spec().len(),
            final(self).inner().names_spec() == old(self).inner().names_spec().push(
                anonymous_name(old(self).inner().name_strings().len()),
            ),
    {
        let count = self.scope.symbols().len();
        let mut symbol_name = owned("anonymous symbol #");
        push_dec(&mut symbol_name, count);
        let r = self.insert_local_variable(symbol_name);
        proof {
            assert(self.inner().names_spec() =~= old(self).inner().names_spec().push(
                anonymous_name(old(self).inner().name_strings().len()),
            ));
        }
        r
    }
}

} // verus!
