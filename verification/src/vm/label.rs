use vstd::prelude::*;
use crate::util::{hex_text, owned, push_char, push_hex};
use crate::vm::symbol::{BlockSymbol, Symbol, Symbolic};

verus! {

/// The position of a label within its function.
pub type LabelIndex = usize;

/// A VM label, which points to a location in code.
#[derive(Debug, Clone)]
pub struct Label {
    /// The symbol that describes this label.
    pub symbol: BlockSymbol,
    /// The index in the current function that this label is pointing at.
    pub pc: LabelIndex,
    /// The name for this label.
    pub name: String,
}

/// The name of the label with the given block index and position: both in hexadecimal.
pub open spec fn label_name(index: nat, pc: nat) -> Seq<char> {
    "Label#"@ + hex_text(index) + seq![':'] + hex_text(pc)
}

impl Label {
    pub fn new(symbol: BlockSymbol, pc: LabelIndex) -> (r: Self)
        ensures
            r.symbol == symbol,
            r.pc == pc,
            r.name@ == label_name(symbol.0 as nat, pc as nat),
    {
        let mut name = owned("Label#");
        push_hex(&mut name, symbol.index());
        push_char(&mut name, ':');
        push_hex(&mut name, pc);
        Label { symbol, pc, name }
    }
}

impl Symbolic for Label {
    type Symbol = BlockSymbol;

    open spec fn spec_symbol(&self) -> BlockSymbol {
        self.symbol
    }

    open spec fn spec_name(&self) -> Seq<char> {
        self.name@
    }

    fn symbol(&self) -> (r: BlockSymbol) {
        self.symbol
    }

    fn name(&self) -> (r: &str) {
        self.name.as_str()
    }
}

} // verus!
