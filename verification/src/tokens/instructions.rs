use vstd::prelude::*;

use crate::symbol_table::SymbolTable;
use crate::text::{find_char, find_char_str, lemma_find_char, str_eq};

use super::token::{is_ascii_digit, parse_symbol, valid_symbol, Symbol};

verus! {

/// The value loaded by an address-instruction, as the contracts see it.
pub enum ValueModel {
    Variable(Seq<char>),
    Constant(u16),
}

/// An instruction, as the contracts see it.
pub enum InstrModel {
    A(ValueModel),
    C { comp: u16, dest: u16, jump: u16 },
}

/// The value loaded by an address-instruction: a symbolic reference or a
/// constant below 0x8000.
pub enum Value {
    Variable(Symbol),
    Constant(u16),
}

impl View for Value {
    type V = ValueModel;

    open spec fn view(&self) -> ValueModel {
        match self {
            Value::Variable(s) => ValueModel::Variable(s@),
            Value::Constant(v) => ValueModel::Constant(*v),
        }
    }
}

pub enum Instruction {
    A(AInstruction),
    C(CInstruction),
}

impl View for Instruction {
    type V = InstrModel;

    open spec fn view(&self) -> InstrModel {
        match self {
            Instruction::A(a) => InstrModel::A(a.value@),
            Instruction::C(c) => InstrModel::C { comp: c.comp, dest: c.dest, jump: c.jump },
        }
    }
}

pub struct AInstruction {
    pub value: Value,
}

impl View for AInstruction {
    type V = ValueModel;

    open spec fn view(&self) -> ValueModel {
        self.value@
    }
}

/// A compute-instruction; the three fields already hold their final bit
/// patterns: `comp` occupies bits 6..=12 (bit 12 is the addressing-mode
/// bit), `dest` bits 3..=5 and `jump` bits 0..=2.
pub struct CInstruction {
    pub comp: u16,
    pub dest: u16,
    pub jump: u16,
}

/// An instruction sequence, as the contracts see it.
pub open spec fn instrs_view(is: Seq<Instruction>) -> Seq<InstrModel> {
    is.map_values(|i: Instruction| i@)
}

/// The destination field: the bit pattern of a `dest` mnemonic, already
/// shifted to bits 3..=5.
pub open spec fn dest_code(s: Seq<char>) -> Option<u16> {
    if s == ""@ {
        Some(0x00u16)
    } else if s == "M"@ {
        Some(0x08u16)
    } else if s == "D"@ {
        Some(0x10u16)
    } else if s == "MD"@ {
        Some(0x18u16)
    } else if s == "A"@ {
        Some(0x20u16)
    } else if s == "AM"@ {
        Some(0x28u16)
    } else if s == "AD"@ {
        Some(0x30u16)
    } else if s == "AMD"@ {
        Some(0x38u16)
    } else {
        None
    }
}

/// The jump field: the bit pattern of a `jump` mnemonic, bits 0..=2.
pub open spec fn jump_code(s: Seq<char>) -> Option<u16> {
    if s == ""@ {
        Some(0u16)
    } else if s == "JGT"@ {
        Some(1u16)
    } else if s == "JEQ"@ {
        Some(2u16)
    } else if s == "JGE"@ {
        Some(3u16)
    } else if s == "JLT"@ {
        Some(4u16)
    } else if s == "JNE"@ {
        Some(5u16)
    } else if s == "JLE"@ {
        Some(6u16)
    } else if s == "JMP"@ {
        Some(7u16)
    } else {
        None
    }
}

/// The comp field: the ALU control bits of a `comp` expression, shifted to
/// bits 6..=11, with bit 12 set when the expression addresses memory
/// through `M` instead of the register `A`.
pub open spec fn comp_code(s: Seq<char>) -> Option<u16> {
    if s == "0"@ {
        Some(0x0a80u16)
    } else if s == "1"@ {
        Some(0x0fc0u16)
    } else if s == "-1"@ {
        Some(0x0e80u16)
    } else if s == "D"@ {
        Some(0x0300u16)
    } else if s == "A"@ {
        Some(0x0c00u16)
    } else if s == "!D"@ {
        Some(0x0340u16)
    } else if s == "!A"@ {
        Some(0x0c40u16)
    } else if s == "-D"@ {
        Some(0x03c0u16)
    } else if s == "-A"@ {
        Some(0x0cc0u16)
    } else if s == "D+1"@ {
        Some(0x07c0u16)
    } else if s == "A+1"@ {
        Some(0x0dc0u16)
    } else if s == "D-1"@ {
        Some(0x0380u16)
    } else if s == "A-1"@ {
        Some(0x0c80u16)
    } else if s == "D+A"@ {
        Some(0x0080u16)
    } else if s == "D-A"@ {
        Some(0x04c0u16)
    } else if s == "A-D"@ {
        Some(0x01c0u16)
    } else if s == "D&A"@ {
        Some(0x0000u16)
    } else if s == "D|A"@ {
        Some(0x0540u16)
    } else if s == "M"@ {
        Some(0x1c00u16)
    } else if s == "!M"@ {
        Some(0x1c40u16)
    } else if s == "-M"@ {
        Some(0x1cc0u16)
    } else if s == "M+1"@ {
        Some(0x1dc0u16)
    } else if s == "M-1"@ {
        Some(0x1c80u16)
    } else if s == "D+M"@ {
        Some(0x1080u16)
    } else if s == "D-M"@ {
        Some(0x14c0u16)
    } else if s == "M-D"@ {
        Some(0x11c0u16)
    } else if s == "D&M"@ {
        Some(0x1000u16)
    } else if s == "D|M"@ {
        Some(0x1540u16)
    } else {
        None
    }
}

/// Decimal value of a digit string (most significant digit first).
pub open spec fn dec_val(s: Seq<char>) -> int
    decreases s.len(),
{
    if s.len() == 0 {
        0
    } else {
        dec_val(s.drop_last()) * 10 + (s.last() as u32 - 48)
    }
}

pub open spec fn all_digits(s: Seq<char>) -> bool {
    forall|i: int| 0 <= i < s.len() ==> is_ascii_digit(#[trigger] s[i])
}

/// An unsigned integer literal whose value fits the positive 15-bit range.
pub open spec fn constant_literal(s: Seq<char>) -> bool {
    s.len() > 0 && all_digits(s) && dec_val(s) < 0x8000
}

/// What the remainder of an address-instruction line denotes, if anything.
pub open spec fn a_value(s: Seq<char>) -> Option<ValueModel> {
    if valid_symbol(s) {
        Some(ValueModel::Variable(s))
    } else if constant_literal(s) {
        Some(ValueModel::Constant(dec_val(s) as u16))
    } else {
        None
    }
}

/// The dest, comp and jump substrings of a compute-instruction line:
/// everything before the first `=` (empty if none), then the rest up to
/// the first `;` (the remainder being the jump, empty if none).
pub open spec fn c_fields(s: Seq<char>) -> (Seq<char>, Seq<char>, Seq<char>) {
    let e = find_char(s, '=');
    let d = if 0 <= e < s.len() {
        s.take(e)
    } else {
        ""@
    };
    let rest = if 0 <= e < s.len() {
        s.skip(e + 1)
    } else {
        s
    };
    let k = find_char(rest, ';');
    let c = if 0 <= k < rest.len() {
        rest.take(k)
    } else {
        rest
    };
    let j = if 0 <= k < rest.len() {
        rest.skip(k + 1)
    } else {
        ""@
    };
    (d, c, j)
}

/// What a compute-instruction line denotes, if anything.
pub open spec fn c_parse(s: Seq<char>) -> Option<InstrModel> {
    let (d, c, j) = c_fields(s);
    if comp_code(c) is Some && dest_code(d) is Some && jump_code(j) is Some {
        Some(
            InstrModel::C {
                comp: comp_code(c).unwrap(),
                dest: dest_code(d).unwrap(),
                jump: jump_code(j).unwrap(),
            },
        )
    } else {
        None
    }
}

/// The 16-character binary image of a machine word, most significant bit
/// first.
pub open spec fn bits16(v: u16) -> Seq<char> {
    Seq::new(
        16,
        |i: int|
            if (v >> ((15 - i) as u16)) & 1 == 1 {
                '1'
            } else {
                '0'
            },
    )
}

/// The word an address-instruction encodes to under `table`, if any.
pub open spec fn encode_a(v: ValueModel, table: Map<Seq<char>, u16>) -> Option<Seq<char>> {
    match v {
        ValueModel::Constant(c) => Some(bits16(c)),
        ValueModel::Variable(s) => if table.contains_key(s) {
            Some(bits16(table[s]))
        } else {
            None
        },
    }
}

/// The word a compute-instruction encodes to: its three fields and the
/// fixed high-order opcode bits.
pub open spec fn encode_c(comp: u16, dest: u16, jump: u16) -> Seq<char> {
    bits16(0xe000u16 | comp | dest | jump)
}

/// The word an instruction encodes to under `table`, if any.
pub open spec fn encode_instr(i: InstrModel, table: Map<Seq<char>, u16>) -> Option<Seq<char>> {
    match i {
        InstrModel::A(v) => encode_a(v, table),
        InstrModel::C { comp, dest, jump } => Some(encode_c(comp, dest, jump)),
    }
}

/// Something that encodes to a 16-bit binary word, given the symbol table.
pub trait Code {
    /// The word this item encodes to under `table`, if any.
    spec fn encode_spec(&self, table: Map<Seq<char>, u16>) -> Option<Seq<char>>;

    fn encode(&self, symbol_table: &SymbolTable) -> (r: Option<String>)
        ensures
            r is Some <==> self.encode_spec(symbol_table@) is Some,
            r matches Some(w) ==> w@ == self.encode_spec(symbol_table@).unwrap(),
    ;
}

/// The binary image of `v`, one character per bit.
fn to_word(v: u16) -> (r: String)
    ensures
        r@ == bits16(v),
{
    let mut r = String::new();
    let mut i: u16 = 0;
    while i < 16
        invariant
            i <= 16,
            r@ == bits16(v).take(i as int),
        decreases 16 - i,
    {
        proof {
            reveal_strlit("0");
            reveal_strlit("1");
            assert("0"@ =~= seq!['0']);
            assert("1"@ =~= seq!['1']);
        }
        if (v >> (15 - i)) & 1 == 1 {
            r.append("1");
        } else {
            r.append("0");
        }
        proof {
            assert(bits16(v).take(i + 1) =~= bits16(v).take(i as int).push(bits16(v)[i as int]));
        }
        i = i + 1;
    }
    proof {
        assert(bits16(v).take(16) =~= bits16(v));
    }
    r
}

impl Code for Instruction {
    open spec fn encode_spec(&self, table: Map<Seq<char>, u16>) -> Option<Seq<char>> {
        encode_instr(self@, table)
    }

    fn encode(&self, symbol_table: &SymbolTable) -> (r: Option<String>) {
        match self {
            Instruction::A(ainstr) => ainstr.encode(symbol_table),
            Instruction::C(cinstr) => cinstr.encode(symbol_table),
        }
    }
}

impl AInstruction {
    pub fn new(value: Value) -> (r: Self)
        ensures
            r.value == value,
    {
        Self { value }
    }

    /// Parse the remainder of an `@` line: a symbolic reference, or an
    /// unsigned constant below 0x8000.
    pub fn parse(code: &str) -> (r: Option<Self>)
        ensures
            r is Some <==> a_value(code@) is Some,
            r matches Some(a) ==> a@ == a_value(code@).unwrap(),
    {
        match parse_symbol(code) {
            Some(symbol) => Some(AInstruction::new(Value::Variable(symbol))),
            None => match parse_constant(code) {
                Some(v) => Some(AInstruction::new(Value::Constant(v))),
                None => None,
            },
        }
    }
}

impl Code for AInstruction {
    open spec fn encode_spec(&self, table: Map<Seq<char>, u16>) -> Option<Seq<char>> {
        encode_a(self@, table)
    }

    fn encode(&self, symbol_table: &SymbolTable) -> (r: Option<String>) {
        match &self.value {
            Value::Variable(variable) => {
                match symbol_table.get_address(variable.clone()) {
                    Some(address) => Some(to_word(address)),
                    None => None,
                }
            },
            Value::Constant(constant) => Some(to_word(*constant)),
        }
    }
}

impl CInstruction {
    pub fn new(comp: u16, dest: u16, jump: u16) -> (r: Self)
        ensures
            r.comp == comp && r.dest == dest && r.jump == jump,
    {
        Self { comp, dest, jump }
    }

    /// Parse a compute-instruction line `[dest=]comp[;jump]`.
    pub fn parse(code: &str) -> (r: Option<Self>)
        ensures
            r is Some <==> c_parse(code@) is Some,
            r matches Some(c) ==> (InstrModel::C { comp: c.comp, dest: c.dest, jump: c.jump })
                == c_parse(code@).unwrap(),
    {
        let n = code.unicode_len();
        let (dest_str, rest): (&str, &str) = match find_char_str(code, '=') {
            Some(i) => {
                proof {
                    lemma_find_char(code@, '=');
                }
                (code.substring_char(0, i), code.substring_char(i + 1, n))
            },
            None => ("", code),
        };
        proof {
            assert(dest_str@ =~= c_fields(code@).0);
            assert(rest@ =~= (if 0 <= find_char(code@, '=') < code@.len() {
                code@.skip(find_char(code@, '=') + 1)
            } else {
                code@
            }));
        }
        let m = rest.unicode_len();
        let (comp_str, jump_str): (&str, &str) = match find_char_str(rest, ';') {
            Some(i) => {
                proof {
                    lemma_find_char(rest@, ';');
                }
                (rest.substring_char(0, i), rest.substring_char(i + 1, m))
            },
            None => (rest, ""),
        };
        proof {
            assert(comp_str@ =~= c_fields(code@).1);
            assert(jump_str@ =~= c_fields(code@).2);
        }
        match (Self::parse_comp(comp_str), Self::parse_dest(dest_str), Self::parse_jump(
            jump_str,
        )) {
            (Some(comp), Some(dest), Some(jump)) => Some(CInstruction::new(comp, dest, jump)),
            _ => None,
        }
    }

    fn parse_jump(code: &str) -> (r: Option<u16>)
        ensures
            r == jump_code(code@),
    {
        if str_eq(code, "") {
            Some(0x00u16)
        } else if str_eq(code, "JGT") {
            Some(1u16)
        } else if str_eq(code, "JEQ") {
            Some(2u16)
        } else if str_eq(code, "JGE") {
            Some(3u16)
        } else if str_eq(code, "JLT") {
            Some(4u16)
        } else if str_eq(code, "JNE") {
            Some(5u16)
        } else if str_eq(code, "JLE") {
            Some(6u16)
        } else if str_eq(code, "JMP") {
            Some(7u16)
        } else {
            None
        }
    }

    fn parse_dest(code: &str) -> (r: Option<u16>)
        ensures
            r == dest_code(code@),
    {
        if str_eq(code, "") {
            Some(0x00u16)
        } else if str_eq(code, "M") {
            Some(0x08u16)
        } else if str_eq(code, "D") {
            Some(0x10u16)
        } else if str_eq(code, "MD") {
            Some(0x18u16)
        } else if str_eq(code, "A") {
            Some(0x20u16)
        } else if str_eq(code, "AM") {
            Some(0x28u16)
        } else if str_eq(code, "AD") {
            Some(0x30u16)
        } else if str_eq(code, "AMD") {
            Some(0x38u16)
        } else {
            None
        }
    }

    fn parse_comp(code: &str) -> (r: Option<u16>)
        ensures
            r == comp_code(code@),
    {
        if str_eq(code, "0") {
            Some(0x0a80u16)
        } else if str_eq(code, "1") {
            Some(0x0fc0u16)
        } else if str_eq(code, "-1") {
            Some(0x0e80u16)
        } else if str_eq(code, "D") {
            Some(0x0300u16)
        } else if str_eq(code, "A") {
            Some(0x0c00u16)
        } else if str_eq(code, "!D") {
            Some(0x0340u16)
        } else if str_eq(code, "!A") {
            Some(0x0c40u16)
        } else if str_eq(code, "-D") {
            Some(0x03c0u16)
        } else if str_eq(code, "-A") {
            Some(0x0cc0u16)
        } else if str_eq(code, "D+1") {
            Some(0x07c0u16)
        } else if str_eq(code, "A+1") {
            Some(0x0dc0u16)
        } else if str_eq(code, "D-1") {
            Some(0x0380u16)
        } else if str_eq(code, "A-1") {
            Some(0x0c80u16)
        } else if str_eq(code, "D+A") {
            Some(0x0080u16)
        } else if str_eq(code, "D-A") {
            Some(0x04c0u16)
        } else if str_eq(code, "A-D") {
            Some(0x01c0u16)
        } else if str_eq(code, "D&A") {
            Some(0x0000u16)
        } else if str_eq(code, "D|A") {
            Some(0x0540u16)
        } else if str_eq(code, "M") {
            Some(0x1c00u16)
        } else if str_eq(code, "!M") {
            Some(0x1c40u16)
        } else if str_eq(code, "-M") {
            Some(0x1cc0u16)
        } else if str_eq(code, "M+1") {
            Some(0x1dc0u16)
        } else if str_eq(code, "M-1") {
            Some(0x1c80u16)
        } else if str_eq(code, "D+M") {
            Some(0x1080u16)
        } else if str_eq(code, "D-M") {
            Some(0x14c0u16)
        } else if str_eq(code, "M-D") {
            Some(0x11c0u16)
        } else if str_eq(code, "D&M") {
            Some(0x1000u16)
        } else if str_eq(code, "D|M") {
            Some(0x1540u16)
        } else {
            None
        }
    }
}

impl Code for CInstruction {
    open spec fn encode_spec(&self, table: Map<Seq<char>, u16>) -> Option<Seq<char>> {
        Some(encode_c(self.comp, self.dest, self.jump))
    }

    fn encode(&self, _symbol_table: &SymbolTable) -> (r: Option<String>) {
        let opcode = 0xe000u16 | self.comp | self.dest | self.jump;
        Some(to_word(opcode))
    }
}

/// Law: an address-instruction holding a constant `v` below 0x8000 encodes
/// to the plain 16-bit binary of `v`, whose leading bit is 0.
pub proof fn lemma_constant_word(v: u16, table: Map<Seq<char>, u16>)
    requires
        v < 0x8000,
    ensures
        encode_a(ValueModel::Constant(v), table) == Some(bits16(v)),
        bits16(v).len() == 16,
        bits16(v)[0] == '0',
{
    assert(v < 0x8000 ==> (v >> 15u16) & 1 == 0) by (bit_vector);
}

/// Law: a compute word carries the opcode marker `11` in its top two bits,
/// and masking the word with each field's bit range gives back exactly the
/// codes that the three vocabularies selected.
pub proof fn lemma_compute_word_round_trip(ds: Seq<char>, cs: Seq<char>, js: Seq<char>)
    requires
        dest_code(ds) is Some,
        comp_code(cs) is Some,
        jump_code(js) is Some,
    ensures
        ({
            let c = comp_code(cs).unwrap();
            let d = dest_code(ds).unwrap();
            let j = jump_code(js).unwrap();
            let w = 0xe000u16 | c | d | j;
            &&& encode_c(c, d, j) == bits16(w)
            &&& bits16(w)[0] == '1'
            &&& bits16(w)[1] == '1'
            &&& w & 0x1fc0 == c
            &&& w & 0x0038 == d
            &&& w & 0x0007 == j
        }),
{
    let c = comp_code(cs).unwrap();
    let d = dest_code(ds).unwrap();
    let j = jump_code(js).unwrap();
    assert(c == 0x0a80 || c == 0x0fc0 || c == 0x0e80 || c == 0x0300 || c == 0x0c00 || c == 0x0340
        || c == 0x0c40 || c == 0x03c0 || c == 0x0cc0 || c == 0x07c0 || c == 0x0dc0 || c == 0x0380
        || c == 0x0c80 || c == 0x0080 || c == 0x04c0 || c == 0x01c0 || c == 0x0000 || c == 0x0540
        || c == 0x1c00 || c == 0x1c40 || c == 0x1cc0 || c == 0x1dc0 || c == 0x1c80 || c == 0x1080
        || c == 0x14c0 || c == 0x11c0 || c == 0x1000 || c == 0x1540);
    assert((c == 0x0a80 || c == 0x0fc0 || c == 0x0e80 || c == 0x0300 || c == 0x0c00 || c == 0x0340
        || c == 0x0c40 || c == 0x03c0 || c == 0x0cc0 || c == 0x07c0 || c == 0x0dc0 || c == 0x0380
        || c == 0x0c80 || c == 0x0080 || c == 0x04c0 || c == 0x01c0 || c == 0x0000 || c == 0x0540
        || c == 0x1c00 || c == 0x1c40 || c == 0x1cc0 || c == 0x1dc0 || c == 0x1c80 || c == 0x1080
        || c == 0x14c0 || c == 0x11c0 || c == 0x1000 || c == 0x1540) ==> c & 0xe03f == 0)
        by (bit_vector);
    assert(d == 0x00 || d == 0x08 || d == 0x10 || d == 0x18 || d == 0x20 || d == 0x28 || d == 0x30
        || d == 0x38);
    assert((d == 0x00 || d == 0x08 || d == 0x10 || d == 0x18 || d == 0x20 || d == 0x28 || d == 0x30
        || d == 0x38) ==> d & 0xffc7 == 0) by (bit_vector);
    assert(j <= 7);
    assert(j <= 7 ==> j & 0xfff8 == 0) by (bit_vector);
    assert(c & 0xe03f == 0 && d & 0xffc7 == 0 && j & 0xfff8 == 0 ==> ((0xe000u16 | c | d | j)
        & 0x1fc0 == c && (0xe000u16 | c | d | j) & 0x0038 == d && (0xe000u16 | c | d | j) & 0x0007
        == j && ((0xe000u16 | c | d | j) >> 15u16) & 1 == 1 && ((0xe000u16 | c | d | j) >> 14u16)
        & 1 == 1)) by (bit_vector);
}

/// Once a digit prefix is worth at least `m`, appending digits cannot bring
/// the value back under `m`.
proof fn lemma_dec_val_grows(s: Seq<char>, i: int)
    requires
        0 <= i <= s.len(),
        all_digits(s),
    ensures
        dec_val(s) >= dec_val(s.take(i)),
    decreases s.len() - i,
{
    if i == s.len() {
        assert(s.take(i) =~= s);
    } else {
        lemma_dec_val_grows(s, i + 1);
        assert(s.take(i + 1).drop_last() =~= s.take(i));
        lemma_dec_val_nonneg(s.take(i));
        assert(dec_val(s.take(i + 1)) == dec_val(s.take(i)) * 10 + (s[i] as u32 - 48));
        assert(dec_val(s.take(i)) * 10 >= dec_val(s.take(i)));
        assert(is_ascii_digit(s[i]));
    }
}

proof fn lemma_dec_val_nonneg(s: Seq<char>)
    requires
        all_digits(s),
    ensures
        dec_val(s) >= 0,
    decreases s.len(),
{
    if s.len() > 0 {
        assert(all_digits(s.drop_last()));
        lemma_dec_val_nonneg(s.drop_last());
        assert(is_ascii_digit(s.last()));
        assert(dec_val(s.drop_last()) * 10 >= 0);
    }
}

/// Parse an unsigned decimal constant, rejecting values of 0x8000 and above.
fn parse_constant(code: &str) -> (r: Option<u16>)
    ensures
        r is Some <==> constant_literal(code@),
        r matches Some(v) ==> v as int == dec_val(code@),
{
    let n = code.unicode_len();
    if n == 0 {
        return None;
    }
    let mut v: u16 = 0;
    for i in 0..n
        invariant
            n == code@.len(),
            all_digits(code@.take(i as int)),
            v as int == dec_val(code@.take(i as int)),
            v < 0x8000,
    {
        let c = code.get_char(i);
        let u = c as u32;
        if !(48 <= u && u <= 57) {
            assert(!all_digits(code@));
            return None;
        }
        proof {
            assert(code@.take(i + 1).drop_last() =~= code@.take(i as int));
            assert(all_digits(code@.take(i + 1)));
        }
        let w: u32 = (v as u32) * 10 + (u - 48);
        assert(w as int == dec_val(code@.take(i + 1)));
        if w >= 0x8000 {
            proof {
                if all_digits(code@) {
                    lemma_dec_val_grows(code@, i + 1);
                }
            }
            return None;
        }
        v = w as u16;
    }
    proof {
        assert(code@.take(n as int) =~= code@);
    }
    Some(v)
}

} // verus!
