use vstd::prelude::*;

use super::instructions::{InstrModel, Instruction};
use super::label::Label;

verus! {

/// The textual name of a label or variable.
pub type Symbol = String;

/// One parsed source line, as the contracts see it.
pub enum TokenModel {
    Label(Seq<char>),
    Instruction(InstrModel),
}

/// One parsed source line: a label declaration or an instruction.
pub enum Token {
    Label(Label),
    Instruction(Instruction),
}

impl View for Token {
    type V = TokenModel;

    open spec fn view(&self) -> TokenModel {
        match self {
            Token::Label(l) => TokenModel::Label(l.symbol@),
            Token::Instruction(i) => TokenModel::Instruction(i@),
        }
    }
}

/// A token sequence, as the contracts see it.
pub open spec fn toks_view(ts: Seq<Token>) -> Seq<TokenModel> {
    ts.map_values(|t: Token| t@)
}

/// Characters allowed anywhere in a symbol: ASCII letters and digits,
/// `_`, `.`, `$` and `:`.
pub open spec fn is_symbol_char(c: char) -> bool {
    is_ascii_digit(c)
    || (65 <= c as u32 && c as u32 <= 90)
    || (97 <= c as u32 && c as u32 <= 122)
    || c == '_'
    || c == '.'
    || c == '$'
    || c == ':'
}

/// ASCII decimal digit.
pub open spec fn is_ascii_digit(c: char) -> bool {
    48 <= c as u32 && c as u32 <= 57
}

/// A valid symbol is non-empty, made of symbol characters, and does not
/// start with a digit.
pub open spec fn valid_symbol(s: Seq<char>) -> bool {
    &&& s.len() > 0
    &&& !is_ascii_digit(s[0])
    &&& forall|i: int| 0 <= i < s.len() ==> is_symbol_char(#[trigger] s[i])
}

fn symbol_char(c: char) -> (b: bool)
    ensures
        b == is_symbol_char(c),
{
    let u = c as u32;
    (48 <= u && u <= 57) || (65 <= u && u <= 90) || (97 <= u && u <= 122) || c == '_' || c == '.'
        || c == '$' || c == ':'
}

fn ascii_digit(c: char) -> (b: bool)
    ensures
        b == is_ascii_digit(c),
{
    let u = c as u32;
    48 <= u && u <= 57
}

/// Checks the symbol grammar and returns the name as an owned symbol.
pub fn parse_symbol(symbol: &str) -> (r: Option<Symbol>)
    ensures
        r is Some <==> valid_symbol(symbol@),
        r matches Some(s) ==> s@ == symbol@,
{
    let n = symbol.unicode_len();
    if n == 0 {
        return None;
    }
    if ascii_digit(symbol.get_char(0)) {
        return None;
    }
    for i in 0..n
        invariant
            n == symbol@.len(),
            forall|j: int| 0 <= j < i ==> is_symbol_char(#[trigger] symbol@[j]),
    {
        if !symbol_char(symbol.get_char(i)) {
            return None;
        }
    }
    Some(symbol.to_owned())
}

} // verus!
