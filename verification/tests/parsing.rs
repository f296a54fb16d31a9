use tura::lexer::{tokenize, Lexer};
use tura::parser::{parse_rule, parse_rules, parse_step, parse_symbol, parse_tape, ParseError};
use tura::rules::Step;

fn names(tokens: &[tura::symbol::Symbol]) -> Vec<String> {
    tokens.iter().map(|t| t.name.clone()).collect()
}

#[test]
fn tokenize_splits_on_spaces_and_newlines() {
    let tokens = tokenize("Inc 0 1\nR Inc");
    assert_eq!(names(&tokens), vec!["Inc", "0", "1", "R", "Inc"]);
}

#[test]
fn tokenize_discards_empty_tokens() {
    let tokens = tokenize("  a \n\n b   c \n");
    assert_eq!(names(&tokens), vec!["a", "b", "c"]);
}

#[test]
fn tokenize_empty_input_gives_no_tokens() {
    assert!(tokenize("").is_empty());
    assert!(tokenize(" \n \n").is_empty());
}

#[test]
fn parse_symbol_takes_one_token() {
    let mut lexer = Lexer::from_source("alpha beta");
    let first = parse_symbol(&mut lexer).unwrap();
    let second = parse_symbol(&mut lexer).unwrap();
    assert_eq!(first.name, "alpha");
    assert_eq!(second.name, "beta");
    assert!(matches!(
        parse_symbol(&mut lexer),
        Err(ParseError::UnexpectedEof)
    ));
}

#[test]
fn parse_step_maps_l_and_r() {
    let mut lexer = Lexer::from_source("L R");
    assert_eq!(parse_step(&mut lexer).unwrap(), Step::Left);
    assert_eq!(parse_step(&mut lexer).unwrap(), Step::Right);
}

#[test]
fn parse_step_rejects_other_tokens() {
    let mut lexer = Lexer::from_source("up");
    match parse_step(&mut lexer) {
        Err(ParseError::InvalidStep { found }) => assert_eq!(found.name, "up"),
        other => panic!("expected an invalid step, got {:?}", other),
    }
}

#[test]
fn parse_rule_reads_five_tokens_in_input_order() {
    // Input order on the line: state, read, write, step, next.
    let mut lexer = Lexer::from_source("Inc 0 1 R Dec");
    let rule = parse_rule(&mut lexer).unwrap();
    assert_eq!(rule.state.name, "Inc");
    assert_eq!(rule.read.name, "0");
    assert_eq!(rule.write.name, "1");
    assert_eq!(rule.step, Step::Right);
    assert_eq!(rule.next.name, "Dec");
}

#[test]
fn parse_rule_truncated_input_is_an_early_end() {
    let mut lexer = Lexer::from_source("Inc 0 1 R");
    assert!(matches!(
        parse_rule(&mut lexer),
        Err(ParseError::UnexpectedEof)
    ));
}

#[test]
fn parse_rule_bad_step_is_reported_before_missing_next() {
    // The step token is judged as soon as it is read.
    let mut lexer = Lexer::from_source("Inc 0 1 X");
    match parse_rule(&mut lexer) {
        Err(ParseError::InvalidStep { found }) => assert_eq!(found.name, "X"),
        other => panic!("expected an invalid step, got {:?}", other),
    }
}

#[test]
fn parse_rules_builds_the_table_in_file_order() {
    let mut lexer = Lexer::from_source("Inc 0 1 R Inc Inc 1 0 L Inc");
    let rules = parse_rules(&mut lexer).unwrap();
    assert_eq!(rules.len(), 2);
    assert_eq!(rules[0].read.name, "0");
    assert_eq!(rules[0].step, Step::Right);
    assert_eq!(rules[1].read.name, "1");
    assert_eq!(rules[1].step, Step::Left);
}

#[test]
fn parse_rules_accepts_empty_input() {
    let mut lexer = Lexer::from_source("");
    assert!(parse_rules(&mut lexer).unwrap().is_empty());
}

#[test]
fn parse_rules_propagates_the_first_failure() {
    let mut lexer = Lexer::from_source("Inc 0 1 R Inc Inc 1 0 down Inc");
    match parse_rules(&mut lexer) {
        Err(ParseError::InvalidStep { found }) => assert_eq!(found.name, "down"),
        other => panic!("expected an invalid step, got {:?}", other),
    }
}

#[test]
fn parsing_twice_yields_identical_tables() {
    let source = "Inc 0 1 R Inc Inc 1 0 L Inc Dec 1 0 L Dec";
    let first = parse_rules(&mut Lexer::from_source(source)).unwrap();
    let second = parse_rules(&mut Lexer::from_source(source)).unwrap();
    assert_eq!(first, second);
}

#[test]
fn parse_tape_takes_every_token_as_a_symbol() {
    let mut lexer = Lexer::from_source("1 1 0 1");
    let tape = parse_tape(&mut lexer).unwrap();
    assert_eq!(names(&tape), vec!["1", "1", "0", "1"]);
    assert!(!lexer.has_more());
}
