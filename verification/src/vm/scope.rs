use vstd::prelude::*;
use crate::vm::symbol::VariableSymbol;

verus! {

/// The values of a function's variables, each at its variable's local index.
#[derive(Debug)]
pub struct Scope<V> {
    symbols: Vec<VariableSymbol>,
    values: Vec<V>,
}

/// The values after storing each value of `vals` at the local index of the matching symbol of
/// `syms`, in order.
pub open spec fn stored<V>(values: Seq<V>, syms: Seq<VariableSymbol>, vals: Seq<V>) -> Seq<V>
    decreases syms.len(),
{
    if syms.len() == 0 || vals.len() == 0 {
        values
    } else {
        stored(values, syms.drop_last(), vals.drop_last()).update(syms.last().local as int, vals.last())
    }
}

impl<V> Scope<V> {
    /// The symbols of the scope's variables, by local index.
    pub closed spec fn symbols_spec(&self) -> Seq<VariableSymbol> {
        self.symbols@
    }

    /// The values of the scope's variables, by local index.
    pub closed spec fn values_spec(&self) -> Seq<V> {
        self.values@
    }

    /// There is a value for every symbol.
    pub closed spec fn wf(&self) -> bool {
        self.symbols@.len() == self.values@.len()
    }

    /// The scope holds the given symbol, at its local index.
    pub open spec fn holds(&self, sym: VariableSymbol) -> bool {
        sym.local < self.symbols_spec().len() && self.symbols_spec()[sym.local as int] == sym
    }

    /// A scope of the given symbols and their values, which must be as many.
    pub fn new(symbols: Vec<VariableSymbol>, values: Vec<V>) -> (r: Self)
        requires
            symbols@.len() == values@.len(),
        ensures
            r.wf(),
            r.symbols_spec() == symbols@,
            r.values_spec() == values@,
    {
        Scope { symbols, values }
    }

    /// The value of the given variable, if the scope holds it.
    pub fn try_get(&self, sym: VariableSymbol) -> (r: Option<&V>)
        requires
            self.wf(),
        ensures
            r == if self.holds(sym) {
                Some(&self.values_spec()[sym.local as int])
            } else {
                None
            },
    {
        let idx = sym.local;
        if self.values.len() <= idx || self.symbols[idx] != sym {
            None
        } else {
            Some(&self.values[idx])
        }
    }

    /// The value of the given variable, which the scope must hold.
    pub fn get(&self, sym: VariableSymbol) -> (r: &V)
        requires
            self.wf(),
            self.holds(sym),
        ensures
            *r == self.values_spec()[sym.local as int],
    {
        match self.try_get(sym) {
            Some(value) => value,
            None => {
                proof {
                    assert(false);
                }
                &self.values[0]
            },
        }
    }

    /// Stores a value for the given variable, if the scope holds it; whether it did.
    pub fn try_set(&mut self, sym: VariableSymbol, val: V) -> (r: bool)
        requires
            old(self).wf(),
        ensures
            final(self).wf(),
            r == old(self).holds(sym),
            final(self).symbols_spec() == old(self).symbols_spec(),
            final(self).values_spec() == if r {
                old(self).values_spec().update(sym.local as int, val)
            } else {
                old(self).values_spec()
            },
    {
        let idx = sym.local;
        if self.symbols.len() <= idx || self.symbols[idx] != sym {
            false
        } else {
            self.values.set(idx, val);
            true
        }
    }

    /// Stores a value for the given variable, which the scope must hold.
    pub fn set(&mut self, sym: VariableSymbol, val: V)
        requires
            old(self).wf(),
            old(self).holds(sym),
        ensures
            final(self).wf(),
            final(self).symbols_spec() == old(self).symbols_spec(),
            final(self).values_spec() == old(self).values_spec().update(sym.local as int, val),
    {
        let stored = self.try_set(sym, val);
        assert(stored);
    }

    /// Whether the scope holds no variables.
    pub fn is_empty(&self) -> (r: bool)
        ensures
            r == (self.symbols_spec().len() == 0),
    {
        self.symbols.len() == 0
    }

    /// Stores every value of another scope, in order, over this one's; this scope must hold
    /// every symbol of the other.
    pub fn update(&mut self, other: Self)
        requires
            old(self).wf(),
            other.wf(),
            forall|i: int| 0 <= i < other.symbols_spec().len() ==> old(self).holds(#[trigger] other.symbols_spec()[i]),
        ensures
            final(self).wf(),
            final(self).symbols_spec() == old(self).symbols_spec(),
            final(self).values_spec() == stored(old(self).values_spec(), other.symbols_spec(), other.values_spec()),
    {
        let Scope { symbols, values } = other;
        let ghost syms = symbols@;
        let ghost vals = values@;
        assert(syms == other.symbols_spec());
        assert forall|k: int| 0 <= k < syms.len() implies old(self).holds(#[trigger] syms[k]) by {
            assert(old(self).holds(other.symbols_spec()[k]));
        }
        let mut symbols = symbols;
        let mut values = values;
        let n = symbols.len();
        let mut i: usize = 0;
        assert(syms.subrange(0, 0) =~= Seq::<VariableSymbol>::empty());
        while i < n
            invariant
                self.wf(),
                self.symbols_spec() == old(self).symbols_spec(),
                n == syms.len(),
                syms.len() == vals.len(),
                i <= n,
                symbols@ == syms.subrange(i as int, n as int),
                values@ == vals.subrange(i as int, n as int),
                forall|k: int| 0 <= k < syms.len() ==> old(self).holds(#[trigger] syms[k]),
                self.values_spec() == stored(old(self).values_spec(), syms.subrange(0, i as int), vals.subrange(0, i as int)),
            decreases n - i,
        {
            let sym = symbols.remove(0);
            let value = values.remove(0);
            proof {
                assert(sym == syms[i as int]);
                assert(syms.subrange(0, i + 1).drop_last() =~= syms.subrange(0, i as int));
                assert(vals.subrange(0, i + 1).drop_last() =~= vals.subrange(0, i as int));
            }
            self.set(sym, value);
            proof {
                assert(symbols@ =~= syms.subrange(i + 1, n as int));
                assert(values@ =~= vals.subrange(i + 1, n as int));
            }
            i = i + 1;
        }
        assert(syms.subrange(0, n as int) =~= syms);
        assert(vals.subrange(0, n as int) =~= vals);
    }
}

} // verus!
