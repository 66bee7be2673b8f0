use libhackasm::parse::{AsmError, Parser, TokenType};

#[test]
fn create_parser() {
    let _parser = Parser::new();
}

#[test]
fn recognizes_token_types() {
    let parser = Parser::new();

    assert_eq!(parser.token_type("(LOOP)"), TokenType::LCommand);
    assert_eq!(parser.token_type("@i"), TokenType::ACommand);
    assert_eq!(parser.token_type("@R2"), TokenType::ACommand);
    assert_eq!(parser.token_type("M=M+D"), TokenType::CCommand);
}

#[test]
fn parse_output_for_a_command() {
    let mut parser = Parser::new();

    assert_eq!(parser.parse("@5").unwrap(), "0000000000000101\n");
}

#[test]
fn parse_output_for_c_command() {
    let mut parser = Parser::new();

    assert_eq!(parser.parse("M=D+A").unwrap(), "1110000010001000\n");
    assert_eq!(parser.parse("AMD=D|A").unwrap(), "1110010101111000\n");
    assert_eq!(parser.parse("0;JMP").unwrap(), "1110101010000111\n");
    assert_eq!(parser.parse("A;JGE").unwrap(), "1110110000000011\n");
}

#[test]
fn gets_correct_comp_bits() {
    let parser = Parser::new();

    assert_eq!(parser.get_comp_bits("0;JMP").unwrap(), "0101010");
    assert_eq!(parser.get_comp_bits("M=!A").unwrap(), "0110001");
    assert_eq!(parser.get_comp_bits("D=!M").unwrap(), "1110001");
    assert_eq!(parser.get_comp_bits("D&M;JLT").unwrap(), "1000000");
}

#[test]
fn gets_correct_dest_bits() {
    let parser = Parser::new();

    assert_eq!(parser.get_dest_bits("0;JMP").unwrap(), "000");
    assert_eq!(parser.get_dest_bits("A=M+D").unwrap(), "100");
    assert_eq!(parser.get_dest_bits("AM=D|M").unwrap(), "101");
    assert_eq!(parser.get_dest_bits("MD=D+A").unwrap(), "011");
    assert_eq!(parser.get_dest_bits("AMD=D&M").unwrap(), "111");
}

#[test]
fn gets_correct_jump_bits() {
    let parser = Parser::new();

    assert_eq!(parser.get_jump_bits("0;JMP").unwrap(), "111");
    assert_eq!(parser.get_jump_bits("A=M+D").unwrap(), "000");
    assert_eq!(parser.get_jump_bits("D;JLE").unwrap(), "110");
    assert_eq!(parser.get_jump_bits("D|M;JEQ").unwrap(), "010");
}

#[test]
fn gets_correct_symbols() {
    let parser = Parser::new();

    assert_eq!(parser.lookup("R0"), Some(0));
    assert_eq!(parser.lookup("SCREEN"), Some(16384));
    assert_eq!(parser.lookup("KBD"), Some(24576));
    assert_eq!(parser.lookup("LCL"), Some(1));
}

#[test]
fn gets_all_reserved_symbols() {
    let parser = Parser::new();

    assert_eq!(parser.lookup("SP"), Some(0));
    assert_eq!(parser.lookup("ARG"), Some(2));
    assert_eq!(parser.lookup("THIS"), Some(3));
    assert_eq!(parser.lookup("THAT"), Some(4));
    assert_eq!(parser.lookup("R15"), Some(15));
    assert_eq!(parser.lookup("loop"), None);
}

#[test]
fn label_binds_to_current_pc() {
    let mut parser = Parser::new();

    parser.collect_symbols("@2").unwrap();
    parser.collect_symbols("D=A").unwrap();
    parser.collect_symbols("(LOOP)").unwrap();
    parser.collect_symbols("0;JMP").unwrap();
    assert_eq!(parser.lookup("LOOP"), Some(2));
}

#[test]
fn rebinding_a_label_to_the_same_address_is_harmless() {
    let mut parser = Parser::new();

    parser.collect_symbols("(L)").unwrap();
    parser.collect_symbols("(L)").unwrap();
    parser.collect_symbols("D=A").unwrap();
    assert_eq!(parser.lookup("L"), Some(0));
}

#[test]
fn conflicting_label_definition_is_fatal() {
    let mut parser = Parser::new();

    parser.collect_symbols("(L)").unwrap();
    parser.collect_symbols("D=A").unwrap();
    let err = parser.collect_symbols("(L)").unwrap_err();
    assert_eq!(err, AsmError::SymbolConflict("(L)".to_string()));
}

#[test]
fn malformed_label_is_fatal() {
    let mut parser = Parser::new();

    let err = parser.collect_symbols("()").unwrap_err();
    assert_eq!(err, AsmError::MalformedLabel("()".to_string()));
    let err = parser.collect_symbols("(7UP)").unwrap_err();
    assert_eq!(err, AsmError::MalformedLabel("(7UP)".to_string()));
}

#[test]
fn unknown_mnemonics_are_fatal() {
    let mut parser = Parser::new();

    assert_eq!(
        parser.parse("D=X").unwrap_err(),
        AsmError::UnknownMnemonic("X".to_string())
    );
    assert_eq!(
        parser.parse("X=D").unwrap_err(),
        AsmError::UnknownMnemonic("X".to_string())
    );
    assert_eq!(
        parser.parse("D;XYZ").unwrap_err(),
        AsmError::UnknownMnemonic("XYZ".to_string())
    );
}

#[test]
fn malformed_operand_is_fatal() {
    let mut parser = Parser::new();

    assert_eq!(
        parser.parse("@1x").unwrap_err(),
        AsmError::MalformedOperand("@1x".to_string())
    );
    assert_eq!(
        parser.parse("@").unwrap_err(),
        AsmError::MalformedOperand("@".to_string())
    );
}

#[test]
fn oversized_literal_is_fatal() {
    let mut parser = Parser::new();

    assert_eq!(parser.parse("@32767").unwrap(), "0111111111111111\n");
    assert_eq!(
        parser.parse("@32768").unwrap_err(),
        AsmError::AddressOverflow("@32768".to_string())
    );
}

#[test]
fn labels_emit_no_output() {
    let mut parser = Parser::new();

    assert_eq!(parser.parse("(LOOP)").unwrap(), "");
}

#[test]
fn variables_get_consecutive_addresses() {
    let mut parser = Parser::new();

    assert_eq!(parser.parse("@i").unwrap(), "0000000000010000\n");
    assert_eq!(parser.parse("@j").unwrap(), "0000000000010001\n");
    assert_eq!(parser.parse("@i").unwrap(), "0000000000010000\n");
    assert_eq!(parser.lookup("i"), Some(16));
    assert_eq!(parser.lookup("j"), Some(17));
}

#[test]
fn parsing_the_same_tokens_twice_is_identical() {
    let mut parser = Parser::new();
    let tokens = ["@i", "@j", "D=A", "@i"];

    let mut first: Vec<String> = Vec::new();
    for t in tokens.iter() {
        first.push(parser.parse(t).unwrap());
    }
    let mut second: Vec<String> = Vec::new();
    for t in tokens.iter() {
        second.push(parser.parse(t).unwrap());
    }
    assert_eq!(first, second);
}
