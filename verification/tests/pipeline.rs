//! End-to-end tests of the lexer, the parser, the optimizer and the
//! simulator.
use bfc::grammar::{Expression, Operator, Token};
use bfc::lexer::{Lexer, LexicalError};
use bfc::parser::Parser;
use bfc::semantics::{simulate, SimEvent};

fn op(kind: Token, count: usize) -> Expression {
    Expression::Operator(Operator { kind, count })
}

fn parsed(source: &str, optimize: bool) -> Vec<Expression> {
    let mut parser = Parser::new(String::from(source), optimize).expect("lexing failed");
    parser.generate_syntax_tree();
    parser.get_ast().expect("no tree").clone()
}

#[test]
fn lexer_tokenizes_all_symbols() {
    let lexer = Lexer::new(String::from("+-><.,[]")).expect("lexing failed");
    assert_eq!(
        lexer.tokens(),
        &vec![
            Token::Add,
            Token::Sub,
            Token::MoveForward,
            Token::MoveBack,
            Token::StdOut,
            Token::StdIn,
            Token::LoopStart,
            Token::LoopEnd,
        ]
    );
}

#[test]
fn lexer_skips_whitespace_and_comments() {
    let lexer = Lexer::new(String::from("+ this line is a comment +\n  - note: ++\n.")).expect(
        "lexing failed",
    );
    assert_eq!(
        lexer.move_tokens(),
        vec![Token::Add, Token::Sub, Token::StdOut]
    );
}

#[test]
fn lexer_rejects_lone_loop_end() {
    // Scenario: source "]" fails immediately at position 0; no syntax tree
    // is produced.
    let result = Parser::new(String::from("]"), true);
    match result {
        Err(LexicalError::UnmatchedBracket { position, excess }) => {
            assert_eq!(position, 0);
            assert_eq!(excess, 0);
        },
        _ => panic!("expected an unmatched bracket error"),
    }
}

#[test]
fn lexer_rejects_premature_loop_end_at_exact_index() {
    let result = Lexer::new(String::from("+[]]-"));
    match result {
        Err(LexicalError::UnmatchedBracket { position, excess }) => {
            assert_eq!(position, 3);
            assert_eq!(excess, 0);
        },
        _ => panic!("expected an unmatched bracket error"),
    }
}

#[test]
fn lexer_reports_excess_loop_starts() {
    let result = Lexer::new(String::from("[[["));
    match result {
        Err(LexicalError::UnmatchedBracket { position, excess }) => {
            assert_eq!(position, 2);
            assert_eq!(excess, 3);
        },
        _ => panic!("expected an unmatched bracket error"),
    }
}

#[test]
fn lexer_reports_one_excess_loop_start() {
    let result = Lexer::new(String::from("[[]+"));
    match result {
        Err(LexicalError::UnmatchedBracket { position, excess }) => {
            assert_eq!(position, 3);
            assert_eq!(excess, 1);
        },
        _ => panic!("expected an unmatched bracket error"),
    }
}

#[test]
fn lexer_rejects_pointer_underflow() {
    let result = Lexer::new(String::from("><<"));
    match result {
        Err(LexicalError::PointerUnderflow { position }) => {
            assert_eq!(position, 2);
        },
        _ => panic!("expected a pointer underflow error"),
    }
}

#[test]
fn parser_counts_instructions_of_raw_tree() {
    // "+[>+<-]." has 6 non-bracket symbols outside the brackets' own
    // tokens, plus one loop: 7 instructions.
    let mut parser = Parser::new(String::from("+[>+<-]."), false).expect("lexing failed");
    parser.generate_syntax_tree();
    assert_eq!(parser.get_num_of_instr(), 7);
}

#[test]
fn parser_has_no_tree_before_generation() {
    let parser = Parser::new(String::from("+"), false).expect("lexing failed");
    assert!(parser.get_ast().is_none());
    assert_eq!(parser.get_num_of_instr(), 0);
}

#[test]
fn optimizer_merges_plus_run_inside_loop() {
    // Scenario: "+[-]" optimizes to exactly
    // [Operator(Add, 1), Loop([Operator(Sub, 1)])].
    let ast = parsed("+[-]", true);
    assert_eq!(
        ast,
        vec![op(Token::Add, 1), Expression::Loop(vec![op(Token::Sub, 1)])]
    );
}

#[test]
fn optimizer_does_not_merge_across_kinds() {
    // Scenario: "+++>++" optimizes to exactly
    // [Operator(Add, 3), Operator(MoveForward, 1), Operator(Add, 2)].
    let ast = parsed("+++>++", true);
    assert_eq!(
        ast,
        vec![op(Token::Add, 3), op(Token::MoveForward, 1), op(Token::Add, 2)]
    );
}

#[test]
fn optimizer_never_merges_output_nodes() {
    let ast = parsed("..", true);
    assert_eq!(ast, vec![op(Token::StdOut, 1), op(Token::StdOut, 1)]);
}

#[test]
fn optimizer_is_idempotent_on_concrete_tree() {
    let mut once = parsed("++>>++[--++]..", false);
    Parser::optimize_ast(&mut once);
    let mut twice = parsed("++>>++[--++]..", false);
    Parser::optimize_ast(&mut twice);
    Parser::optimize_ast(&mut twice);
    assert_eq!(once, twice);
}

#[test]
fn optimizer_preserves_simulated_meaning() {
    let raw = parsed("++>+++[-].<.", false);
    let optimized = parsed("++>+++[-].<.", true);
    let raw_run = simulate(&raw, vec![], 100).expect("raw simulation stuck");
    let opt_run = simulate(&optimized, vec![], 100).expect("optimized simulation stuck");
    assert_eq!(raw_run.tape, opt_run.tape);
    assert_eq!(raw_run.ptr, opt_run.ptr);
    assert_eq!(raw_run.events, opt_run.events);
}

#[test]
fn two_increments_then_output() {
    // Scenario: "++." leaves cell 0 at 2 and emits one output event
    // carrying the byte value 2.
    let ast = parsed("++.", true);
    let run = simulate(&ast, vec![], 10).expect("simulation stuck");
    assert_eq!(run.tape[0], 2);
    assert_eq!(run.events, vec![SimEvent::Out(2)]);
}

#[test]
fn clear_loop_runs_body_exactly_once() {
    // Scenario: "+[-]" sets the cell to 1, runs the loop body once (1 -> 0)
    // and exits on the recheck: one round of fuel suffices, zero does not.
    let ast = parsed("+[-]", true);
    let run = simulate(&ast, vec![], 1).expect("simulation stuck");
    assert_eq!(run.tape[0], 0);
    assert!(simulate(&ast, vec![], 0).is_none());
}

#[test]
fn read_then_write_round_trip() {
    // Scenario: "," then "." reads one input byte into the current cell and
    // then emits that same byte, in that order.
    let ast = parsed(",.", true);
    let run = simulate(&ast, vec![65], 10).expect("simulation stuck");
    assert_eq!(run.tape[0], 65);
    assert_eq!(run.events, vec![SimEvent::In(65), SimEvent::Out(65)]);
}

#[test]
fn cell_values_wrap_modulo_256() {
    let mut source = String::new();
    for _ in 0..257 {
        source.push('+');
    }
    source.push('.');
    let ast = parsed(&source, true);
    let run = simulate(&ast, vec![], 10).expect("simulation stuck");
    assert_eq!(run.tape[0], 1);
    assert_eq!(run.events, vec![SimEvent::Out(1)]);
}

#[test]
fn moving_off_the_tape_gets_stuck() {
    let mut source = String::new();
    for _ in 0..26 {
        source.push('>');
    }
    let ast = parsed(&source, true);
    assert!(simulate(&ast, vec![], 10).is_none());
}
