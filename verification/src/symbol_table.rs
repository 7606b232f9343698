use vstd::prelude::*;

use crate::tokens::instructions::{instrs_view, InstrModel, Instruction, Value, ValueModel};
use crate::tokens::token::{toks_view, Symbol, Token, TokenModel};

verus! {

/// A machine address: both instruction addresses (ROM) and data addresses
/// (RAM) are 16-bit words.
pub type Address = u16;

/// The instructions among `toks`, in order; labels contribute nothing.
pub open spec fn instrs_of(toks: Seq<TokenModel>) -> Seq<InstrModel>
    decreases toks.len(),
{
    if toks.len() == 0 {
        Seq::empty()
    } else {
        instrs_of(toks.drop_last()) + (match toks.last() {
            TokenModel::Instruction(i) => seq![i],
            TokenModel::Label(_) => Seq::empty(),
        })
    }
}

/// The label pass: scanning `toks` in order, bind each label to the number
/// of instructions seen before it — the address of the next instruction.
pub open spec fn label_pass(m: Map<Seq<char>, Address>, toks: Seq<TokenModel>) -> Map<
    Seq<char>,
    Address,
>
    decreases toks.len(),
{
    if toks.len() == 0 {
        m
    } else {
        let prev = label_pass(m, toks.drop_last());
        match toks.last() {
            TokenModel::Label(s) => prev.insert(s, instrs_of(toks.drop_last()).len() as u16),
            TokenModel::Instruction(_) => prev,
        }
    }
}

/// One step of the variable pass: a variable not yet bound is bound to the
/// next free address.
pub open spec fn var_step(m: Map<Seq<char>, Address>, next: int, i: InstrModel) -> (
    Map<Seq<char>, Address>,
    int,
) {
    match i {
        InstrModel::A(ValueModel::Variable(s)) => if !m.contains_key(s) {
            (m.insert(s, next as u16), next + 1)
        } else {
            (m, next)
        },
        _ => (m, next),
    }
}

/// The variable pass: scanning the instructions in order, bind each
/// yet-unbound variable to a fresh address, counting up from `next`.
pub open spec fn var_pass(m: Map<Seq<char>, Address>, next: int, instrs: Seq<InstrModel>) -> (
    Map<Seq<char>, Address>,
    int,
)
    decreases instrs.len(),
{
    if instrs.len() == 0 {
        (m, next)
    } else {
        let prev = var_pass(m, next, instrs.drop_last());
        var_step(prev.0, prev.1, instrs.last())
    }
}

/// The table a whole run of both passes leaves behind.
pub open spec fn resolve(m: Map<Seq<char>, Address>, toks: Seq<TokenModel>) -> Map<
    Seq<char>,
    Address,
> {
    var_pass(label_pass(m, toks), 16, instrs_of(toks)).0
}

/// The mapping denoted by a sequence of bindings: a later binding of the
/// same name overrides an earlier one.
spec fn map_of(entries: Seq<(Symbol, Address)>) -> Map<Seq<char>, Address>
    decreases entries.len(),
{
    if entries.len() == 0 {
        Map::empty()
    } else {
        map_of(entries.drop_last()).insert(entries.last().0@, entries.last().1)
    }
}

/// The symbols bound before any user symbol is seen: the sixteen numbered
/// registers, the five pointer registers and the two I/O addresses.
pub open spec fn initial_table() -> Map<Seq<char>, Address> {
    Map::empty()
        .insert("R0"@, 0)
        .insert("R1"@, 1)
        .insert("R2"@, 2)
        .insert("R3"@, 3)
        .insert("R4"@, 4)
        .insert("R5"@, 5)
        .insert("R6"@, 6)
        .insert("R7"@, 7)
        .insert("R8"@, 8)
        .insert("R9"@, 9)
        .insert("R10"@, 10)
        .insert("R11"@, 11)
        .insert("R12"@, 12)
        .insert("R13"@, 13)
        .insert("R14"@, 14)
        .insert("R15"@, 15)
        .insert("SP"@, 0)
        .insert("LCL"@, 1)
        .insert("ARG"@, 2)
        .insert("THIS"@, 3)
        .insert("THAT"@, 4)
        .insert("SCREEN"@, 16384)
        .insert("KBD"@, 24576)
}

/// The distinct not-yet-bound variable names referenced by `instrs`, in
/// order of first occurrence.
pub open spec fn fresh_vars(m: Map<Seq<char>, Address>, instrs: Seq<InstrModel>) -> Seq<Seq<char>>
    decreases instrs.len(),
{
    if instrs.len() == 0 {
        Seq::empty()
    } else {
        let prev = fresh_vars(m, instrs.drop_last());
        match instrs.last() {
            InstrModel::A(ValueModel::Variable(s)) => if !m.contains_key(s) && !prev.contains(s) {
                prev.push(s)
            } else {
                prev
            },
            _ => prev,
        }
    }
}

proof fn lemma_push_contains<A>(s: Seq<A>, x: A, y: A)
    ensures
        s.push(x).contains(y) <==> (s.contains(y) || y == x),
{
    if s.push(x).contains(y) {
        let i = choose|i: int| 0 <= i < s.push(x).len() && s.push(x)[i] == y;
        if i < s.len() {
            assert(s[i] == y);
        }
    }
    if s.contains(y) {
        let i = choose|i: int| 0 <= i < s.len() && s[i] == y;
        assert(s.push(x)[i] == y);
    }
    if y == x {
        assert(s.push(x)[s.len() as int] == y);
    }
}

/// Law: the variable pass never rebinds a symbol that is already bound,
/// whatever instructions follow.
pub proof fn lemma_var_pass_preserves(
    m: Map<Seq<char>, Address>,
    next: int,
    instrs: Seq<InstrModel>,
)
    ensures
        forall|s: Seq<char>| #[trigger]
            m.contains_key(s) ==> var_pass(m, next, instrs).0.contains_key(s) && var_pass(
                m,
                next,
                instrs,
            ).0[s] == m[s],
    decreases instrs.len(),
{
    if instrs.len() > 0 {
        lemma_var_pass_preserves(m, next, instrs.drop_last());
    }
}

/// The label pass leaves a symbol alone unless a label of that name occurs.
proof fn lemma_label_pass_preserves(
    m: Map<Seq<char>, Address>,
    toks: Seq<TokenModel>,
    s: Seq<char>,
)
    requires
        m.contains_key(s),
        forall|j: int| 0 <= j < toks.len() ==> #[trigger] toks[j] != TokenModel::Label(s),
    ensures
        label_pass(m, toks).contains_key(s),
        label_pass(m, toks)[s] == m[s],
    decreases toks.len(),
{
    if toks.len() > 0 {
        lemma_label_pass_preserves(m, toks.drop_last(), s);
    }
}

/// The label pass binds a label that is not redeclared later to the number
/// of instructions that precede it.
proof fn lemma_label_pass_binds(
    m: Map<Seq<char>, Address>,
    toks: Seq<TokenModel>,
    i: int,
    s: Seq<char>,
)
    requires
        0 <= i < toks.len(),
        toks[i] == TokenModel::Label(s),
        forall|j: int| i < j < toks.len() ==> #[trigger] toks[j] != TokenModel::Label(s),
    ensures
        label_pass(m, toks).contains_key(s),
        label_pass(m, toks)[s] == instrs_of(toks.take(i)).len() as u16,
    decreases toks.len(),
{
    if i == toks.len() - 1 {
        assert(toks.drop_last() =~= toks.take(i));
    } else {
        lemma_label_pass_binds(m, toks.drop_last(), i, s);
        assert(toks.drop_last().take(i) =~= toks.take(i));
        assert(toks[toks.len() - 1] != TokenModel::Label(s));
    }
}

/// Law: a label declared immediately before instruction index `k` —
/// counting instructions only — resolves to address `k`, and the variable
/// pass leaves that binding untouched.
pub proof fn lemma_label_resolution(
    m: Map<Seq<char>, Address>,
    toks: Seq<TokenModel>,
    i: int,
    s: Seq<char>,
)
    requires
        0 <= i < toks.len(),
        toks[i] == TokenModel::Label(s),
        forall|j: int| i < j < toks.len() ==> #[trigger] toks[j] != TokenModel::Label(s),
    ensures
        resolve(m, toks).contains_key(s),
        resolve(m, toks)[s] == instrs_of(toks.take(i)).len() as u16,
{
    lemma_label_pass_binds(m, toks, i, s);
    lemma_var_pass_preserves(label_pass(m, toks), 16, instrs_of(toks));
}

/// Law: a symbol the label pass has bound resolves to that same address in
/// the finished table, so a reference placed before the declaration (a
/// forward reference) sees exactly what one placed after it sees.
pub proof fn lemma_forward_references(
    m: Map<Seq<char>, Address>,
    toks: Seq<TokenModel>,
    s: Seq<char>,
)
    requires
        label_pass(m, toks).contains_key(s),
    ensures
        resolve(m, toks).contains_key(s),
        resolve(m, toks)[s] == label_pass(m, toks)[s],
{
    lemma_var_pass_preserves(label_pass(m, toks), 16, instrs_of(toks));
}

/// Law: a pre-bound symbol that no label redeclares keeps its pre-bound
/// address through both passes, however early or often it is referenced.
pub proof fn lemma_prebound_not_reassigned(
    m: Map<Seq<char>, Address>,
    toks: Seq<TokenModel>,
    s: Seq<char>,
)
    requires
        m.contains_key(s),
        forall|j: int| 0 <= j < toks.len() ==> #[trigger] toks[j] != TokenModel::Label(s),
    ensures
        resolve(m, toks).contains_key(s),
        resolve(m, toks)[s] == m[s],
{
    lemma_label_pass_preserves(m, toks, s);
    lemma_var_pass_preserves(label_pass(m, toks), 16, instrs_of(toks));
}

proof fn lemma_var_pass_domain(m: Map<Seq<char>, Address>, next: int, instrs: Seq<InstrModel>)
    ensures
        forall|s: Seq<char>| #[trigger]
            var_pass(m, next, instrs).0.contains_key(s) <==> (m.contains_key(s) || fresh_vars(
                m,
                instrs,
            ).contains(s)),
    decreases instrs.len(),
{
    if instrs.len() == 0 {
        assert(forall|s: Seq<char>| !fresh_vars(m, instrs).contains(s));
    } else {
        lemma_var_pass_domain(m, next, instrs.drop_last());
        let prev = var_pass(m, next, instrs.drop_last());
        let prev_fresh = fresh_vars(m, instrs.drop_last());
        assert forall|s: Seq<char>| #[trigger]
            var_pass(m, next, instrs).0.contains_key(s) <==> (m.contains_key(s) || fresh_vars(
                m,
                instrs,
            ).contains(s)) by {
            assert(prev.0.contains_key(s) <==> (m.contains_key(s) || prev_fresh.contains(s)));
            match instrs.last() {
                InstrModel::A(ValueModel::Variable(w)) => {
                    assert(prev.0.contains_key(w) <==> (m.contains_key(w) || prev_fresh.contains(
                        w,
                    )));
                    lemma_push_contains(prev_fresh, w, s);
                },
                _ => {},
            }
        }
    }
}

proof fn lemma_var_pass_counter(m: Map<Seq<char>, Address>, next: int, instrs: Seq<InstrModel>)
    ensures
        var_pass(m, next, instrs).1 == next + fresh_vars(m, instrs).len(),
    decreases instrs.len(),
{
    if instrs.len() > 0 {
        lemma_var_pass_counter(m, next, instrs.drop_last());
        lemma_var_pass_domain(m, next, instrs.drop_last());
    }
}

/// Law: the k-th distinct unbound variable, in order of first occurrence,
/// is bound by the variable pass to address `next + k`; every later
/// reference to the same name finds that same address.
pub proof fn lemma_variable_resolution(
    m: Map<Seq<char>, Address>,
    next: int,
    instrs: Seq<InstrModel>,
    k: int,
)
    requires
        0 <= k < fresh_vars(m, instrs).len(),
        0 <= next,
        next + fresh_vars(m, instrs).len() <= 65536,
    ensures
        var_pass(m, next, instrs).0.contains_key(fresh_vars(m, instrs)[k]),
        var_pass(m, next, instrs).0[fresh_vars(m, instrs)[k]] == (next + k) as u16,
    decreases instrs.len(),
{
    if instrs.len() > 0 {
        let prev_fresh = fresh_vars(m, instrs.drop_last());
        lemma_var_pass_domain(m, next, instrs.drop_last());
        lemma_var_pass_counter(m, next, instrs.drop_last());
        match instrs.last() {
            InstrModel::A(ValueModel::Variable(w)) => {
                if !m.contains_key(w) && !prev_fresh.contains(w) {
                    if k < prev_fresh.len() {
                        lemma_variable_resolution(m, next, instrs.drop_last(), k);
                        assert(prev_fresh.contains(prev_fresh[k]));
                        assert(fresh_vars(m, instrs)[k] == prev_fresh[k]);
                    } else {
                        assert(fresh_vars(m, instrs)[k] == w);
                    }
                } else {
                    lemma_variable_resolution(m, next, instrs.drop_last(), k);
                }
            },
            _ => {
                lemma_variable_resolution(m, next, instrs.drop_last(), k);
            },
        }
    }
}

/// Law: in a finished table, the k-th distinct variable — counting first
/// occurrences among the address-instructions and skipping every name that
/// the pre-bound table or a label already binds — holds address 16 + k.
pub proof fn lemma_variable_addresses(m: Map<Seq<char>, Address>, toks: Seq<TokenModel>, k: int)
    requires
        0 <= k < fresh_vars(label_pass(m, toks), instrs_of(toks)).len(),
        fresh_vars(label_pass(m, toks), instrs_of(toks)).len() <= 65520,
    ensures
        resolve(m, toks).contains_key(fresh_vars(label_pass(m, toks), instrs_of(toks))[k]),
        resolve(m, toks)[fresh_vars(label_pass(m, toks), instrs_of(toks))[k]] == (16 + k) as u16,
{
    lemma_variable_resolution(label_pass(m, toks), 16, instrs_of(toks), k);
}

/// Binding of symbols to machine addresses, kept as the history of bindings
/// in the order they were made.
pub struct SymbolTable {
    entries: Vec<(Symbol, Address)>,
}

impl View for SymbolTable {
    type V = Map<Seq<char>, Address>;

    closed spec fn view(&self) -> Map<Seq<char>, Address> {
        map_of(self.entries@)
    }
}

impl SymbolTable {
    /// A table holding exactly the pre-bound symbols.
    pub fn new() -> (t: Self)
        ensures
            t@ == initial_table(),
    {
        let mut t = SymbolTable { entries: Vec::new() };
        t.bind("R0".to_owned(), 0);
        t.bind("R1".to_owned(), 1);
        t.bind("R2".to_owned(), 2);
        t.bind("R3".to_owned(), 3);
        t.bind("R4".to_owned(), 4);
        t.bind("R5".to_owned(), 5);
        t.bind("R6".to_owned(), 6);
        t.bind("R7".to_owned(), 7);
        t.bind("R8".to_owned(), 8);
        t.bind("R9".to_owned(), 9);
        t.bind("R10".to_owned(), 10);
        t.bind("R11".to_owned(), 11);
        t.bind("R12".to_owned(), 12);
        t.bind("R13".to_owned(), 13);
        t.bind("R14".to_owned(), 14);
        t.bind("R15".to_owned(), 15);
        t.bind("SP".to_owned(), 0);
        t.bind("LCL".to_owned(), 1);
        t.bind("ARG".to_owned(), 2);
        t.bind("THIS".to_owned(), 3);
        t.bind("THAT".to_owned(), 4);
        t.bind("SCREEN".to_owned(), 16384);
        t.bind("KBD".to_owned(), 24576);
        t
    }

    /// Bind `symbol` to `address`, overriding any earlier binding.
    fn bind(&mut self, symbol: Symbol, address: Address)
        ensures
            final(self)@ == old(self)@.insert(symbol@, address),
    {
        let ghost before = self.entries@;
        self.entries.push((symbol, address));
        proof {
            assert(self.entries@.drop_last() =~= before);
        }
    }

    /// Scan the bindings from the newest to the oldest for `symbol`.
    fn lookup(&self, symbol: &Symbol) -> (r: Option<Address>)
        ensures
            r matches Some(a) ==> self@.contains_key(symbol@) && self@[symbol@] == a,
            r is None ==> !self@.contains_key(symbol@),
    {
        let ghost all = self.entries@;
        let mut i: usize = self.entries.len();
        proof {
            assert(all.take(all.len() as int) =~= all);
        }
        while i > 0
            invariant
                all == self.entries@,
                i <= all.len(),
                map_of(all).contains_key(symbol@) == map_of(all.take(i as int)).contains_key(
                    symbol@,
                ),
                map_of(all).contains_key(symbol@) ==> map_of(all.take(i as int))[symbol@]
                    == map_of(all)[symbol@],
            decreases i,
        {
            i = i - 1;
            proof {
                assert(all.take(i + 1).drop_last() =~= all.take(i as int));
                assert(all.take(i + 1).last() == all[i as int]);
            }
            let entry = &self.entries[i];
            if entry.0 == *symbol {
                return Some(entry.1);
            }
        }
        proof {
            assert(all.take(0) =~= Seq::<(Symbol, Address)>::empty());
        }
        None
    }

    /// Consume the token sequence: run the label pass, then the variable
    /// pass, and return the instruction sequence with the labels removed.
    pub fn populate(&mut self, tokens: Vec<Token>) -> (r: Vec<Instruction>)
        requires
            tokens@.len() <= 65519,
        ensures
            instrs_view(r@) == instrs_of(toks_view(tokens@)),
            final(self)@ == resolve(old(self)@, toks_view(tokens@)),
    {
        let ghost m0 = self@;
        let ghost toks0 = toks_view(tokens@);
        let mut tokens = tokens;
        let mut instructions: Vec<Instruction> = Vec::new();
        let mut count_token: u16 = 0;
        let ghost mut done: Seq<TokenModel> = Seq::empty();
        proof {
            assert(toks0 =~= done + toks_view(tokens@));
            assert(instrs_view(instructions@) =~= instrs_of(done));
        }
        while tokens.len() > 0
            invariant
                toks0 == done + toks_view(tokens@),
                done.len() + tokens@.len() == toks0.len(),
                toks0.len() <= 65519,
                self@ == label_pass(m0, done),
                instrs_view(instructions@) == instrs_of(done),
                count_token as int == instrs_of(done).len(),
                count_token as int <= done.len(),
            decreases tokens@.len(),
        {
            let ghost tokens_before = tokens@;
            let token = tokens.remove(0);
            let ghost tv = token@;
            proof {
                assert(toks_view(tokens_before) =~= seq![tv] + toks_view(tokens@));
                assert(done.push(tv) + toks_view(tokens@) =~= done + toks_view(tokens_before));
                assert(done.push(tv).drop_last() =~= done);
            }
            match token {
                Token::Label(label) => {
                    self.bind(label.symbol, count_token);
                    proof {
                        assert(instrs_of(done.push(tv)) =~= instrs_of(done));
                    }
                },
                Token::Instruction(instruction) => {
                    instructions.push(instruction);
                    count_token = count_token + 1;
                    proof {
                        assert(instrs_view(instructions@) =~= instrs_of(done.push(tv)));
                    }
                },
            }
            proof {
                done = done.push(tv);
            }
        }
        proof {
            assert(toks_view(tokens@) =~= Seq::<TokenModel>::empty());
            assert(done =~= toks0);
        }
        let ghost m1 = self@;
        let ghost instrs = instrs_of(toks0);
        let mut count_variable: u16 = 16;
        let mut idx: usize = 0;
        proof {
            assert(instrs.take(0) =~= Seq::<InstrModel>::empty());
        }
        while idx < instructions.len()
            invariant
                instrs_view(instructions@) == instrs,
                instructions@.len() == instrs.len(),
                instrs.len() <= 65519,
                idx <= instrs.len(),
                self@ == var_pass(m1, 16, instrs.take(idx as int)).0,
                count_variable as int == var_pass(m1, 16, instrs.take(idx as int)).1,
                count_variable as int <= 16 + idx,
            decreases instrs.len() - idx,
        {
            proof {
                assert(instrs.take(idx + 1).drop_last() =~= instrs.take(idx as int));
                assert(instrs.take(idx + 1).last() == instrs_view(instructions@)[idx as int]);
            }
            match &instructions[idx] {
                Instruction::A(a) => match &a.value {
                    Value::Variable(variable) => match self.lookup(variable) {
                        Some(_) => {},
                        None => {
                            self.bind(variable.clone(), count_variable);
                            count_variable = count_variable + 1;
                        },
                    },
                    Value::Constant(_) => {},
                },
                Instruction::C(_) => {},
            }
            idx = idx + 1;
        }
        proof {
            assert(instrs.take(instrs.len() as int) =~= instrs);
        }
        instructions
    }

    /// The address bound to `symbol`, if any.
    pub fn get_address(&self, symbol: Symbol) -> (r: Option<Address>)
        ensures
            r == (if self@.contains_key(symbol@) {
                Some(self@[symbol@])
            } else {
                None::<Address>
            }),
    {
        self.lookup(&symbol)
    }
}

} // verus!
