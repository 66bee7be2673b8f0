use libhackasm::parse::{assemble, AsmError};

#[test]
fn assembles_a_straight_line_program() {
    let out = assemble("@2\nD=A\n@3\nD=D+A\n@0\nM=D\n").unwrap();
    assert_eq!(
        out,
        [
            "0000000000000010\n",
            "1110110000010000\n",
            "0000000000000011\n",
            "1110000010010000\n",
            "0000000000000000\n",
            "1110001100001000\n",
        ]
    );
}

#[test]
fn forward_reference_resolves_to_the_label_position() {
    let out = assemble("@END\n0;JMP\n(END)\n@END\n0;JMP\n").unwrap();
    assert_eq!(
        out,
        [
            "0000000000000010\n",
            "1110101010000111\n",
            "0000000000000010\n",
            "1110101010000111\n",
        ]
    );
}

#[test]
fn backward_reference_resolves_the_same_way() {
    let out = assemble("(TOP)\nD=A\n@TOP\n0;JMP\n").unwrap();
    assert_eq!(
        out,
        [
            "1110110000010000\n",
            "0000000000000000\n",
            "1110101010000111\n",
        ]
    );
}

#[test]
fn distinct_variables_allocate_in_first_use_order() {
    let out = assemble("@first\n@second\n@first\n").unwrap();
    assert_eq!(
        out,
        [
            "0000000000010000\n",
            "0000000000010001\n",
            "0000000000010000\n",
        ]
    );
}

#[test]
fn assembling_the_same_source_twice_is_identical() {
    let src = "@i\nM=1\n(LOOP)\n@i\nD=M\n@LOOP\nD;JGT\n";
    assert_eq!(assemble(src).unwrap(), assemble(src).unwrap());
}

#[test]
fn comments_and_blanks_do_not_shift_addresses() {
    let out = assemble("// program\n@1 // load one\n\n(L)//label\n@L\n").unwrap();
    assert_eq!(out, ["0000000000000001\n", "0000000000000001\n"]);
}

#[test]
fn a_fatal_token_aborts_with_no_output() {
    let err = assemble("@1\nD=A\nM=Q\n@2\n").unwrap_err();
    assert_eq!(err, AsmError::UnknownMnemonic("Q".to_string()));

    let err = assemble("@1\n@9zz\n@2\n").unwrap_err();
    assert_eq!(err, AsmError::MalformedOperand("@9zz".to_string()));
}

#[test]
fn a_reserved_alias_is_an_address_not_a_variable() {
    let out = assemble("@R1\n@SCREEN\n@KBD\n").unwrap();
    assert_eq!(
        out,
        [
            "0000000000000001\n",
            "0100000000000000\n",
            "0110000000000000\n",
        ]
    );
}

#[test]
fn empty_source_assembles_to_nothing() {
    let out = assemble("").unwrap();
    assert!(out.is_empty());
    let out = assemble("// nothing\n\n").unwrap();
    assert!(out.is_empty());
}
