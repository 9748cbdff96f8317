//! Checks of the parser: symbol recognition, commentary, bracket policies
//! and nesting depth.
use bfc::ast::{Operation, Program};

fn parse(s: &str) -> Program {
    let chars: Vec<char> = s.chars().collect();
    Program::parse(&chars)
}

fn depth_of(p: &Program) -> usize {
    let mut best: usize = 0;
    for op in &p.0 {
        if let Operation::Loop(q) = op {
            let d: usize = 1 + depth_of(q);
            if d > best {
                best = d;
            }
        }
    }
    best
}

#[test]
fn parses_each_simple_symbol() {
    let p = parse("+-><.,");
    assert_eq!(
        p.0,
        vec![
            Operation::Increment,
            Operation::Decrement,
            Operation::MoveRight,
            Operation::MoveLeft,
            Operation::Write,
            Operation::Read,
        ]
    );
}

#[test]
fn ignores_commentary_characters() {
    assert_eq!(parse("a + b - c"), parse("+-"));
    assert_eq!(parse("hello world!").0, vec![]);
}

#[test]
fn parse_is_pure() {
    let text = "+[a>,b.<-]c[-]";
    assert_eq!(parse(text), parse(text));
}

#[test]
fn nests_loops() {
    let p = parse("[+]");
    assert_eq!(p.0.len(), 1);
    match &p.0[0] {
        Operation::Loop(q) => assert_eq!(q.0, vec![Operation::Increment]),
        other => panic!("expected a loop, got {:?}", other),
    }
}

#[test]
fn unclosed_bracket_is_closed_by_end_of_input() {
    assert_eq!(parse("[+"), parse("[+]"));
    assert_eq!(parse("[[["), parse("[[[]]]"));
}

#[test]
fn unmatched_close_stops_the_level() {
    let p = parse("]abc");
    assert_eq!(p.0, vec![]);
    assert_eq!(parse("+]-"), parse("+"));
}

#[test]
fn balanced_input_depth_matches_bracket_nesting() {
    assert_eq!(depth_of(&parse("")), 0);
    assert_eq!(depth_of(&parse("+-.,><")), 0);
    assert_eq!(depth_of(&parse("[+][-]")), 1);
    assert_eq!(depth_of(&parse("[[-]]")), 2);
    assert_eq!(depth_of(&parse("+[>[,[.]]<]-[]")), 3);
}
