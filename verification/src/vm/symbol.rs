use vstd::prelude::*;

verus! {

/// The index of a symbol within its table.
pub type SymbolIndex = usize;

/// A symbol that is used to index something at runtime in the VM.
pub trait Symbol: Sized + Copy {
    /// An integer that orders symbols: distinct symbols have distinct ranks.
    spec fn rank(&self) -> int;

    /// The index of this symbol within its table.
    spec fn spec_index(&self) -> int;

    /// Distinct symbols have distinct ranks.
    proof fn lemma_rank_injective(a: Self, b: Self)
        requires
            a.rank() == b.rank(),
        ensures
            a == b;

    /// The index of this symbol within its table.
    fn index(&self) -> (r: usize)
        ensures
            r == self.spec_index();

    /// Whether this symbol has a successor that fits the machine.
    spec fn has_next(&self) -> bool;

    /// The symbol after this one.
    spec fn spec_next(&self) -> Self;

    /// The symbol after this one is the next by rank.
    proof fn lemma_next(a: Self)
        requires
            a.has_next(),
        ensures
            a.spec_next().rank() == a.rank() + 1;

    /// The symbol after this one.
    fn next(&self) -> (r: Self)
        requires
            self.has_next(),
        ensures
            r == self.spec_next();

    /// Whether two symbols are the same.
    fn same(&self, other: &Self) -> (r: bool)
        ensures
            r == (self.rank() == other.rank());

    /// Whether this symbol orders before the other.
    fn before(&self, other: &Self) -> (r: bool)
        ensures
            r == (self.rank() < other.rank());
}

/// A thing that has a symbol and also a name.
pub trait Symbolic {
    type Symbol: Symbol;

    /// The symbol of this thing.
    spec fn spec_symbol(&self) -> Self::Symbol;

    /// The name of this thing.
    spec fn spec_name(&self) -> Seq<char>;

    fn symbol(&self) -> (r: Self::Symbol)
        ensures
            r == self.spec_symbol();

    fn name(&self) -> (r: &str)
        ensures
            r@ == self.spec_name();
}

/// The rank of a two-part symbol: ordered by its global part, then by its local part.
pub open spec fn pair_rank(global: usize, local: usize) -> int {
    global * 0x1_0000_0000_0000_0000 + local
}

/// The symbol of a register: a scope layer and a slot within it.
#[derive(Debug, Clone, Copy, PartialEq, Eq, PartialOrd, Ord, Structural)]
pub struct RegSymbol {
    pub global: SymbolIndex,
    pub local: SymbolIndex,
}

/// The symbol of a variable: a scope layer and a slot within it.
#[derive(Debug, Clone, Copy, PartialEq, Eq, PartialOrd, Ord, Structural)]
pub struct VariableSymbol {
    pub global: SymbolIndex,
    pub local: SymbolIndex,
}

/// The symbol of a function.
#[derive(Debug, Clone, Copy, PartialEq, Eq, PartialOrd, Ord, Structural)]
pub struct FunSymbol(pub SymbolIndex);

/// The symbol of a type.
#[derive(Debug, Clone, Copy, PartialEq, Eq, PartialOrd, Ord, Structural)]
pub struct TySymbol(pub SymbolIndex);

/// The symbol of a block of code.
#[derive(Debug, Clone, Copy, PartialEq, Eq, PartialOrd, Ord, Structural)]
pub struct BlockSymbol(pub SymbolIndex);

proof fn lemma_pair_rank_injective(g1: usize, l1: usize, g2: usize, l2: usize)
    requires
        pair_rank(g1, l1) == pair_rank(g2, l2),
    ensures
        g1 == g2 && l1 == l2,
{
    assert(g1 == g2 && l1 == l2) by (nonlinear_arith)
        requires
            g1 * 0x1_0000_0000_0000_0000 + l1 == g2 * 0x1_0000_0000_0000_0000 + l2,
            0 <= l1 < 0x1_0000_0000_0000_0000,
            0 <= l2 < 0x1_0000_0000_0000_0000,
            g1 >= 0,
            g2 >= 0,
    ;
}

proof fn lemma_pair_rank_order(g1: usize, l1: usize, g2: usize, l2: usize)
    ensures
        (pair_rank(g1, l1) < pair_rank(g2, l2)) == (g1 < g2 || (g1 == g2 && l1 < l2)),
{
    assert((pair_rank(g1, l1) < pair_rank(g2, l2)) == (g1 < g2 || (g1 == g2 && l1 < l2)))
        by (nonlinear_arith)
        requires
            pair_rank(g1, l1) == g1 * 0x1_0000_0000_0000_0000 + l1,
            pair_rank(g2, l2) == g2 * 0x1_0000_0000_0000_0000 + l2,
            0 <= l1 < 0x1_0000_0000_0000_0000,
            0 <= l2 < 0x1_0000_0000_0000_0000,
            g1 >= 0,
            g2 >= 0,
    ;
}

impl Symbol for RegSymbol {
    open spec fn rank(&self) -> int {
        pair_rank(self.global, self.local)
    }

    open spec fn has_next(&self) -> bool {
        self.local < usize::MAX
    }

    open spec fn spec_next(&self) -> Self {
        RegSymbol { global: self.global, local: (self.local + 1) as usize }
    }

    proof fn lemma_next(a: Self) {
    }

    fn next(&self) -> (r: Self) {
        RegSymbol { global: self.global, local: self.local + 1 }
    }

    open spec fn spec_index(&self) -> int {
        self.local as int
    }

    proof fn lemma_rank_injective(a: Self, b: Self) {
        lemma_pair_rank_injective(a.global, a.local, b.global, b.local);
    }

    fn index(&self) -> (r: usize) {
        self.local
    }

    fn same(&self, other: &Self) -> (r: bool) {
        proof {
            if self.rank() == other.rank() {
                lemma_pair_rank_injective(self.global, self.local, other.global, other.local);
            }
        }
        self.global == other.global && self.local == other.local
    }

    fn before(&self, other: &Self) -> (r: bool) {
        proof {
            lemma_pair_rank_order(self.global, self.local, other.global, other.local);
        }
        self.global < other.global || (self.global == other.global && self.local < other.local)
    }
}

impl Symbol for VariableSymbol {
    open spec fn rank(&self) -> int {
        pair_rank(self.global, self.local)
    }

    open spec fn has_next(&self) -> bool {
        self.local < usize::MAX
    }

    open spec fn spec_next(&self) -> Self {
        VariableSymbol { global: self.global, local: (self.local + 1) as usize }
    }

    proof fn lemma_next(a: Self) {
    }

    fn next(&self) -> (r: Self) {
        VariableSymbol { global: self.global, local: self.local + 1 }
    }

    /// A variable's index in its table of names is its global index.
    open spec fn spec_index(&self) -> int {
        self.global as int
    }

    proof fn lemma_rank_injective(a: Self, b: Self) {
        lemma_pair_rank_injective(a.global, a.local, b.global, b.local);
    }

    fn index(&self) -> (r: usize) {
        self.global
    }

    fn same(&self, other: &Self) -> (r: bool) {
        proof {
            if self.rank() == other.rank() {
                lemma_pair_rank_injective(self.global, self.local, other.global, other.local);
            }
        }
        self.global == other.global && self.local == other.local
    }

    fn before(&self, other: &Self) -> (r: bool) {
        proof {
            lemma_pair_rank_order(self.global, self.local, other.global, other.local);
        }
        self.global < other.global || (self.global == other.global && self.local < other.local)
    }
}

impl Symbol for FunSymbol {
    open spec fn rank(&self) -> int {
        self.0 as int
    }

    open spec fn has_next(&self) -> bool {
        self.0 < usize::MAX
    }

    open spec fn spec_next(&self) -> Self {
        FunSymbol((self.0 + 1) as usize)
    }

    proof fn lemma_next(a: Self) {
    }

    fn next(&self) -> (r: Self) {
        FunSymbol(self.0 + 1)
    }

    open spec fn spec_index(&self) -> int {
        self.0 as int
    }

    proof fn lemma_rank_injective(a: Self, b: Self) {
    }

    fn index(&self) -> (r: usize) {
        self.0
    }

    fn same(&self, other: &Self) -> (r: bool) {
        self.0 == other.0
    }

    fn before(&self, other: &Self) -> (r: bool) {
        self.0 < other.0
    }
}

impl Symbol for TySymbol {
    open spec fn rank(&self) -> int {
        self.0 as int
    }

    open spec fn has_next(&self) -> bool {
        self.0 < usize::MAX
    }

    open spec fn spec_next(&self) -> Self {
        TySymbol((self.0 + 1) as usize)
    }

    proof fn lemma_next(a: Self) {
    }

    fn next(&self) -> (r: Self) {
        TySymbol(self.0 + 1)
    }

    open spec fn spec_index(&self) -> int {
        self.0 as int
    }

    proof fn lemma_rank_injective(a: Self, b: Self) {
    }

    fn index(&self) -> (r: usize) {
        self.0
    }

    fn same(&self, other: &Self) -> (r: bool) {
        self.0 == other.0
    }

    fn before(&self, other: &Self) -> (r: bool) {
        self.0 < other.0
    }
}

impl Symbol for BlockSymbol {
    open spec fn rank(&self) -> int {
        self.0 as int
    }

    open spec fn has_next(&self) -> bool {
        self.0 < usize::MAX
    }

    open spec fn spec_next(&self) -> Self {
        BlockSymbol((self.0 + 1) as usize)
    }

    proof fn lemma_next(a: Self) {
    }

    fn next(&self) -> (r: Self) {
        BlockSymbol(self.0 + 1)
    }

    open spec fn spec_index(&self) -> int {
        self.0 as int
    }

    proof fn lemma_rank_injective(a: Self, b: Self) {
    }

    fn index(&self) -> (r: usize) {
        self.0
    }

    fn same(&self, other: &Self) -> (r: bool) {
        self.0 == other.0
    }

    fn before(&self, other: &Self) -> (r: bool) {
        self.0 < other.0
    }
}

impl Default for RegSymbol {
    fn default() -> (r: Self)
        ensures
            r == (RegSymbol { global: 0, local: 0 }),
    {
        RegSymbol { global: 0, local: 0 }
    }
}

impl Default for VariableSymbol {
    fn default() -> (r: Self)
        ensures
            r == (VariableSymbol { global: 0, local: 0 }),
    {
        VariableSymbol { global: 0, local: 0 }
    }
}

impl Default for FunSymbol {
    fn default() -> (r: Self)
        ensures
            r == FunSymbol(0),
    {
        FunSymbol(0)
    }
}

impl Default for TySymbol {
    fn default() -> (r: Self)
        ensures
            r == TySymbol(0),
    {
        TySymbol(0)
    }
}

impl Default for BlockSymbol {
    fn default() -> (r: Self)
        ensures
            r == BlockSymbol(0),
    {
        BlockSymbol(0)
    }
}

} // verus!
