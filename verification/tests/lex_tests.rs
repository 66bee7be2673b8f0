use libhackasm::lex::Lexer;

#[test]
fn it_tokenizes_input() {
    let lexer = Lexer::new("@2\nD=A\n@3\nD=D+A\n@0\nM=D\n");
    assert_eq!(*lexer.lines(), ["@2", "D=A", "@3", "D=D+A", "@0", "M=D"]);
}

#[test]
fn iter_lines() {
    let lexer = Lexer::new("@2\nD=A\n@3\nD=D+A\n@0\nM=D\n");
    let expected = ["@2", "D=A", "@3", "D=D+A", "@0", "M=D"];
    let mut counter: usize = 0;
    let mut iter = lexer.iter();
    while let Some(line) = iter.next() {
        assert_eq!(line.as_str(), expected[counter]);
        counter += 1;
    }
    assert_eq!(counter, expected.len());
}

#[test]
fn ignored_token() {
    assert!(Lexer::is_ignored_token("// this is a comment"));
    assert!(!Lexer::is_ignored_token("@R1"));
}

#[test]
fn trims_token() {
    assert_eq!(Lexer::trim_command("@R1 // some comment"), "@R1");
    assert_eq!(Lexer::trim_command("(LOOP)//another comment"), "(LOOP)");
    assert_eq!(Lexer::trim_command("\tAMD=M+D\t//some comment"), "AMD=M+D");
}

#[test]
fn drops_comment_and_blank_lines() {
    let lexer = Lexer::new("// header\n\n   \n@R1 // note\n(LOOP)//x\n\t\n");
    assert_eq!(*lexer.lines(), ["@R1", "(LOOP)"]);
}

#[test]
fn no_token_is_empty_or_a_comment() {
    let lexer = Lexer::new("  @1  \n//only\n   D=A   // t\n\n");
    for line in lexer.lines() {
        assert!(!line.is_empty());
        assert!(!line.contains("//"));
        assert_eq!(line.trim(), line.as_str());
    }
    assert_eq!(*lexer.lines(), ["@1", "D=A"]);
}

#[test]
fn iterator_ends_with_none() {
    let lexer = Lexer::new("@1\n");
    let mut iter = lexer.iter();
    assert_eq!(iter.next().map(|s| s.as_str()), Some("@1"));
    assert!(iter.next().is_none());
    assert!(iter.next().is_none());
}
