use brainfuck::Error;
use brainfuck::Program;

#[test]
fn parse_keeps_only_instruction_symbols_in_order() {
    let ins = Program::parse("a+ b> c< foo . bar , [ - ] baz").unwrap();
    assert_eq!(ins, vec!['+', '>', '<', '.', ',', '[', '-', ']']);
}

#[test]
fn parse_of_plain_program_returns_it_unchanged() {
    let ins = Program::parse("++++++.").unwrap();
    assert_eq!(ins, vec!['+', '+', '+', '+', '+', '+', '.']);
}

#[test]
fn parse_accepts_empty_text() {
    let ins = Program::parse("").unwrap();
    assert_eq!(ins, Vec::<char>::new());
}

#[test]
fn parse_accepts_comment_only_text() {
    let ins = Program::parse("just a comment, no code at all").unwrap();
    assert_eq!(ins, vec![',']);
}

#[test]
fn parse_accepts_balanced_nested_brackets() {
    let ins = Program::parse("[+]").unwrap();
    assert_eq!(ins, vec!['[', '+', ']']);
}

#[test]
fn parse_accepts_reversed_brackets_with_balanced_totals() {
    let ins = Program::parse("][").unwrap();
    assert_eq!(ins, vec![']', '[']);
}

#[test]
fn parse_rejects_open_bracket_surplus() {
    assert_eq!(Program::parse("+["), Err(Error::InvalidProgram));
}

#[test]
fn parse_rejects_double_open_bracket() {
    assert_eq!(Program::parse("[["), Err(Error::InvalidProgram));
}

#[test]
fn parse_rejects_close_bracket_surplus() {
    assert_eq!(Program::parse("]"), Err(Error::InvalidProgram));
}
