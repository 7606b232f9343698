pub mod parser;
pub mod symbol_table;
pub mod text;
pub mod tokens;

use vstd::prelude::*;

use crate::parser::parse_spec;
use crate::symbol_table::{initial_table, instrs_of, resolve, SymbolTable};
use crate::tokens::instructions::{encode_instr, instrs_view, Code, InstrModel, Instruction};

verus! {

/// The words a resolved instruction sequence encodes to under `table`;
/// one failing instruction fails the whole program.
pub open spec fn assemble_spec(instrs: Seq<InstrModel>, table: Map<Seq<char>, u16>) -> Option<
    Seq<Seq<char>>,
>
    decreases instrs.len(),
{
    if instrs.len() == 0 {
        Some(Seq::empty())
    } else {
        match (assemble_spec(instrs.drop_last(), table), encode_instr(instrs.last(), table)) {
            (Some(ws), Some(w)) => Some(ws.push(w)),
            _ => None,
        }
    }
}

/// One instruction that cannot be encoded fails the whole program.
proof fn lemma_assemble_fails(instrs: Seq<InstrModel>, table: Map<Seq<char>, u16>, j: int)
    requires
        0 <= j < instrs.len(),
        encode_instr(instrs[j], table) is None,
    ensures
        assemble_spec(instrs, table) is None,
    decreases instrs.len(),
{
    if j < instrs.len() - 1 {
        lemma_assemble_fails(instrs.drop_last(), table, j);
    }
}

/// Parse the source text and resolve its symbols: the front half of an
/// assembly run.
pub fn process(contents: String) -> (r: Option<(Vec<Instruction>, SymbolTable)>)
    requires
        contents@.len() <= 65518,
    ensures
        r is Some <==> parse_spec(contents@) is Some,
        r matches Some(p) ==> instrs_view(p.0@) == instrs_of(parse_spec(contents@).unwrap()),
        r matches Some(p) ==> p.1@ == resolve(initial_table(), parse_spec(contents@).unwrap()),
{
    match parser::parse(contents) {
        Some(tokens) => {
            let mut symbol_table = SymbolTable::new();
            let program = symbol_table.populate(tokens);
            Some((program, symbol_table))
        },
        None => None,
    }
}

/// Encode every resolved instruction to its binary word: the back half of
/// an assembly run.
pub fn assemble(instructions: Vec<Instruction>, symbol_table: SymbolTable) -> (r: Option<
    Vec<String>,
>)
    ensures
        r is Some <==> assemble_spec(instrs_view(instructions@), symbol_table@) is Some,
        r matches Some(ws) ==> Some(ws@.map_values(|w: String| w@)) == assemble_spec(
            instrs_view(instructions@),
            symbol_table@,
        ),
{
    let ghost instrs = instrs_view(instructions@);
    let mut out: Vec<String> = Vec::new();
    let mut i: usize = 0;
    proof {
        assert(instrs.take(0) =~= Seq::<InstrModel>::empty());
        assert(out@.map_values(|w: String| w@) =~= Seq::<Seq<char>>::empty());
    }
    while i < instructions.len()
        invariant
            instrs == instrs_view(instructions@),
            instrs.len() == instructions@.len(),
            i <= instrs.len(),
            Some(out@.map_values(|w: String| w@)) == assemble_spec(
                instrs.take(i as int),
                symbol_table@,
            ),
        decreases instrs.len() - i,
    {
        proof {
            assert(instrs.take(i + 1).drop_last() =~= instrs.take(i as int));
            assert(instrs.take(i + 1).last() == instrs_view(instructions@)[i as int]);
        }
        match (&instructions[i]).encode(&symbol_table) {
            Some(word) => {
                let ghost wv = word@;
                out.push(word);
                proof {
                    assert(out@.map_values(|w: String| w@) =~= assemble_spec(
                        instrs.take(i as int),
                        symbol_table@,
                    ).unwrap().push(wv));
                }
            },
            None => {
                proof {
                    lemma_assemble_fails(instrs, symbol_table@, i as int);
                }
                return None;
            },
        }
        i = i + 1;
    }
    proof {
        assert(instrs.take(instrs.len() as int) =~= instrs);
    }
    Some(out)
}

} // verus!
