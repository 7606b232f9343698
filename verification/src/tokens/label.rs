use vstd::prelude::*;

use super::token::{parse_symbol, valid_symbol, Symbol};

verus! {

/// A label declaration: a symbol bound to the address of the instruction
/// that follows it.
pub struct Label {
    pub symbol: Symbol,
}

impl View for Label {
    type V = Seq<char>;

    open spec fn view(&self) -> Seq<char> {
        self.symbol@
    }
}

impl Label {
    pub fn new(symbol: String) -> (r: Self)
        ensures
            r.symbol == symbol,
    {
        Self { symbol }
    }

    /// Accept the enclosed text of a `(...)` line when it is a valid symbol.
    pub fn parse(label: &str) -> (r: Option<Self>)
        ensures
            r is Some <==> valid_symbol(label@),
            r matches Some(l) ==> l@ == label@,
    {
        match parse_symbol(label) {
            Some(symbol) => Some(Label::new(symbol)),
            None => None,
        }
    }
}

} // verus!
