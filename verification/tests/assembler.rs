use hack_assembler::assemble;
use hack_assembler::process;
use hack_assembler::parser::parse;
use hack_assembler::symbol_table::SymbolTable;
use hack_assembler::tokens::instructions::{AInstruction, CInstruction, Code, Instruction, Value};
use hack_assembler::tokens::label::Label;
use hack_assembler::tokens::token::{parse_symbol, Token};

fn run(source: &str) -> Option<Vec<String>> {
    let (instructions, symbol_table) = process(source.to_string())?;
    assemble(instructions, symbol_table)
}

#[test]
fn end_to_end_example() {
    let source = "@2\nD=A\n@3\nD=D+A\n@0\nM=D\n";
    let words = run(source).unwrap();
    assert_eq!(
        words,
        vec![
            "0000000000000010",
            "1110110000010000",
            "0000000000000011",
            "1110000010010000",
            "0000000000000000",
            "1110001100001000",
        ]
    );
}

#[test]
fn constants_encode_to_plain_binary() {
    let words = run("@0\n@1\n@2\n@21845\n@32767").unwrap();
    assert_eq!(words[0], "0000000000000000");
    assert_eq!(words[1], "0000000000000001");
    assert_eq!(words[2], "0000000000000010");
    assert_eq!(words[3], "0101010101010101");
    assert_eq!(words[4], "0111111111111111");
    for w in &words {
        assert_eq!(w.len(), 16);
        assert!(w.starts_with('0'));
    }
}

#[test]
fn constant_out_of_range_fails() {
    assert!(run("@32768").is_none());
    assert!(run("@65535").is_none());
    assert!(run("@99999999999999999999").is_none());
}

#[test]
fn compute_words_carry_opcode_marker() {
    let words = run("D;JGT\n0;JMP\nM=M+1\nAMD=D|M;JNE\nD&A\n!M").unwrap();
    assert_eq!(words[0], "1110001100000001");
    assert_eq!(words[1], "1110101010000111");
    assert_eq!(words[2], "1111110111001000");
    assert_eq!(words[3], "1111010101111101");
    for w in &words {
        assert!(w.starts_with("11"));
    }
}

#[test]
fn compute_fields_round_trip() {
    // every dest with a fixed comp, read back from the emitted bits
    let dests = ["", "M", "D", "MD", "A", "AM", "AD", "AMD"];
    for (k, d) in dests.iter().enumerate() {
        let line = if d.is_empty() { "D+1;JEQ".to_string() } else { format!("{}=D+1", d) };
        let words = run(&line).unwrap();
        let w = u16::from_str_radix(&words[0], 2).unwrap();
        assert_eq!(w >> 14, 0b11);
        assert_eq!((w >> 3) & 7, k as u16);
        assert_eq!((w >> 6) & 0x7f, 0b011111);
    }
    // every jump with a fixed comp
    let jumps = ["JGT", "JEQ", "JGE", "JLT", "JNE", "JLE", "JMP"];
    for (k, j) in jumps.iter().enumerate() {
        let words = run(&format!("0;{}", j)).unwrap();
        let w = u16::from_str_radix(&words[0], 2).unwrap();
        assert_eq!(w & 7, k as u16 + 1);
        assert_eq!((w >> 6) & 0x7f, 0b101010);
    }
}

#[test]
fn memory_forms_set_the_addressing_bit() {
    let pairs = [("D+A", "D+M"), ("A-D", "M-D"), ("A+1", "M+1"), ("!A", "!M"), ("D&A", "D&M")];
    for (a_form, m_form) in pairs {
        let wa = u16::from_str_radix(&run(a_form).unwrap()[0], 2).unwrap();
        let wm = u16::from_str_radix(&run(m_form).unwrap()[0], 2).unwrap();
        assert_eq!((wa >> 12) & 1, 0);
        assert_eq!((wm >> 12) & 1, 1);
        assert_eq!(wa & !0x1000, wm & !0x1000);
    }
}

#[test]
fn label_resolves_to_next_instruction_index() {
    let source = "@i\nD=A\n(LOOP)\n@j\n@i\n@LOOP";
    let words = run(source).unwrap();
    assert_eq!(words.len(), 5);
    assert_eq!(words[0], "0000000000010000"); // i -> 16
    assert_eq!(words[2], "0000000000010001"); // j -> 17
    assert_eq!(words[3], "0000000000010000"); // i again -> 16
    assert_eq!(words[4], "0000000000000010"); // LOOP -> 2
}

#[test]
fn forward_and_backward_references_agree() {
    let words = run("@END\n0;JMP\n(END)\n@END").unwrap();
    assert_eq!(words[0], "0000000000000010");
    assert_eq!(words[2], "0000000000000010");
    assert_eq!(words[0], words[2]);
}

#[test]
fn variables_count_up_from_sixteen() {
    let words = run("@first\n@second\n@first\n@third").unwrap();
    assert_eq!(words[0], "0000000000010000");
    assert_eq!(words[1], "0000000000010001");
    assert_eq!(words[2], "0000000000010000");
    assert_eq!(words[3], "0000000000010010");
}

#[test]
fn prebound_symbols_keep_their_addresses() {
    let words = run("@SP\n@LCL\n@ARG\n@THIS\n@THAT\n@R3\n@R15\n@SCREEN\n@KBD").unwrap();
    assert_eq!(words[0], "0000000000000000");
    assert_eq!(words[1], "0000000000000001");
    assert_eq!(words[2], "0000000000000010");
    assert_eq!(words[3], "0000000000000011");
    assert_eq!(words[4], "0000000000000100");
    assert_eq!(words[5], "0000000000000011");
    assert_eq!(words[6], "0000000000001111");
    assert_eq!(words[7], "0100000000000000");
    assert_eq!(words[8], "0110000000000000");
}

#[test]
fn prebound_symbol_referenced_first_is_not_treated_as_variable() {
    // SP referenced before any fresh variable: it must stay 0, and the
    // first fresh variable must still get 16.
    let words = run("@SP\n@x").unwrap();
    assert_eq!(words[0], "0000000000000000");
    assert_eq!(words[1], "0000000000010000");
}

#[test]
fn malformed_lines_abort_with_no_output() {
    assert!(run("@3.14").is_none());
    assert!(run("X=D").is_none());
    assert!(run("(bad label").is_none());
    assert!(run("@2\nD=A\n@3.14\nM=D").is_none());
    assert!(run("()").is_none());
    assert!(run("(1starts_with_digit)").is_none());
    assert!(run("D=A;XYZ").is_none());
    assert!(run("D=A+D").is_none());
}

#[test]
fn comments_and_blank_lines_are_skipped() {
    let source = "// whole line comment\n\n   \n  @2 // trailing comment\n\tD=A  \n";
    let words = run(source).unwrap();
    assert_eq!(words, vec!["0000000000000010", "1110110000010000"]);
}

#[test]
fn empty_source_gives_empty_program() {
    assert_eq!(run("").unwrap().len(), 0);
    assert_eq!(run("// nothing\n\n").unwrap().len(), 0);
}

#[test]
fn parse_symbol_checks_the_grammar() {
    assert_eq!(parse_symbol("abc").unwrap(), "abc");
    assert_eq!(parse_symbol("a.b$c:_2").unwrap(), "a.b$c:_2");
    assert_eq!(parse_symbol("R0").unwrap(), "R0");
    assert!(parse_symbol("").is_none());
    assert!(parse_symbol("1abc").is_none());
    assert!(parse_symbol("a b").is_none());
    assert!(parse_symbol("a-b").is_none());
}

#[test]
fn label_parse_wraps_a_symbol() {
    assert_eq!(Label::parse("LOOP").unwrap().symbol, "LOOP");
    assert!(Label::parse("2LOOP").is_none());
    let l = Label::new("END".to_string());
    assert_eq!(l.symbol, "END");
}

#[test]
fn a_instruction_parse_distinguishes_values() {
    match AInstruction::parse("5").unwrap().value {
        Value::Constant(v) => assert_eq!(v, 5),
        Value::Variable(_) => panic!("expected a constant"),
    }
    match AInstruction::parse("counter").unwrap().value {
        Value::Variable(s) => assert_eq!(s, "counter"),
        Value::Constant(_) => panic!("expected a variable"),
    }
    assert!(AInstruction::parse("").is_none());
    assert!(AInstruction::parse("5x").is_none());
    assert!(AInstruction::parse("+5").is_none());
    assert!(AInstruction::parse("32768").is_none());
}

#[test]
fn c_instruction_parse_splits_the_three_fields() {
    let c = CInstruction::parse("MD=D+1;JLE").unwrap();
    assert_eq!(c.dest, 0b011000);
    assert_eq!(c.comp, 0b011111 << 6);
    assert_eq!(c.jump, 6);
    let c = CInstruction::parse("D+M").unwrap();
    assert_eq!(c.dest, 0);
    assert_eq!(c.comp, 0x1000 | (0b000010 << 6));
    assert_eq!(c.jump, 0);
    assert!(CInstruction::parse("").is_none());
    assert!(CInstruction::parse("M=;JMP").is_none());
    let c = CInstruction::new(1, 2, 3);
    assert_eq!((c.comp, c.dest, c.jump), (1, 2, 3));
}

#[test]
fn parser_strips_labels_into_tokens() {
    let tokens = parse("(START)\n@3\nD=A".to_string()).unwrap();
    assert_eq!(tokens.len(), 3);
    assert!(matches!(tokens[0], Token::Label(_)));
    assert!(matches!(tokens[1], Token::Instruction(Instruction::A(_))));
    assert!(matches!(tokens[2], Token::Instruction(Instruction::C(_))));
    assert!(parse("(START)\n@3\nbad!".to_string()).is_none());
}

#[test]
fn symbol_table_prebinds_and_extends() {
    let mut table = SymbolTable::new();
    assert_eq!(table.get_address("R0".to_string()), Some(0));
    assert_eq!(table.get_address("R12".to_string()), Some(12));
    assert_eq!(table.get_address("SCREEN".to_string()), Some(16384));
    assert_eq!(table.get_address("KBD".to_string()), Some(24576));
    assert_eq!(table.get_address("nope".to_string()), None);
    let tokens = parse("(HERE)\n@x\nD=A\n@HERE".to_string()).unwrap();
    let program = table.populate(tokens);
    assert_eq!(program.len(), 3);
    assert_eq!(table.get_address("HERE".to_string()), Some(0));
    assert_eq!(table.get_address("x".to_string()), Some(16));
}

#[test]
fn unresolved_variable_fails_at_encode_time() {
    let table = SymbolTable::new();
    let a = AInstruction::new(Value::Variable("nowhere".to_string()));
    assert!(a.encode(&table).is_none());
    let bound = AInstruction::new(Value::Variable("KBD".to_string()));
    assert_eq!(bound.encode(&table).unwrap(), "0110000000000000");
    let c = CInstruction::new(0x0c00, 0x10, 0);
    assert_eq!(c.encode(&table).unwrap(), "1110110000010000");
    let i = Instruction::A(AInstruction::new(Value::Constant(7)));
    assert_eq!(i.encode(&table).unwrap(), "0000000000000111");
}
