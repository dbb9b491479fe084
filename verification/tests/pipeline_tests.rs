use exprc::machine::evaluate;
use exprc::node::{parse, Node, ParseError};
use exprc::token::tokenize;
use exprc::{compile, CompileError};

/// Runs the whole pipeline and executes the compiled expression on the
/// verified stack-machine semantics: the value the generated program would
/// return (before the operating system truncates the exit status).
fn run_expr(input: &str) -> u64 {
    let tokens = tokenize(input).unwrap();
    let node = parse(&tokens).unwrap();
    evaluate(&node).unwrap()
}

#[test]
fn one_compiles_and_executes_to_one() {
    assert_eq!(run_expr("1"), 1);
    assert_eq!(
        compile("1").unwrap(),
        ".intel_syntax noprefix\n.globl main\nmain:\n  push 1\n  pop rax\n  ret\n"
    );
}

#[test]
fn forty_two() {
    assert_eq!(run_expr("42"), 42);
}

#[test]
fn addition_and_subtraction_are_left_associative() {
    assert_eq!(run_expr("5+20-4"), 21);
    assert_eq!(run_expr("10-4-3"), 3);
}

#[test]
fn multiplication_binds_tighter_than_addition() {
    assert_eq!(run_expr("5+6*7"), 47);
}

#[test]
fn parentheses_override_precedence() {
    assert_eq!(run_expr("5*(9-6)"), 15);
}

#[test]
fn integer_division_truncates_toward_zero() {
    assert_eq!(run_expr("(3+5)/2"), 4);
    assert_eq!(run_expr("7/2"), 3);
    assert_eq!(run_expr("-7/2"), (-3i64) as u64);
}

#[test]
fn comparison_round_trip() {
    assert_eq!(run_expr("1==1"), 1);
    assert_eq!(run_expr("1!=1"), 0);
    assert_eq!(run_expr("2>1"), 1);
    assert_eq!(run_expr("2>=2"), 1);
    assert_eq!(run_expr("1<2"), 1);
    assert_eq!(run_expr("2<=1"), 0);
}

#[test]
fn comparisons_are_signed() {
    assert_eq!(run_expr("-1<1"), 1);
    assert_eq!(run_expr("0>-1"), 1);
}

#[test]
fn unary_sign() {
    assert_eq!(run_expr("-3+5"), 2);
    assert_eq!(run_expr("--5"), 5);
    assert_eq!(run_expr("+5"), 5);
}

#[test]
fn exact_program_text_of_a_sum() {
    let expected = ".intel_syntax noprefix\n.globl main\nmain:\n  push 1\n  push 2\n  pop rdi\n  pop rax\n  add rax, rdi\n  push rax\n  pop rax\n  ret\n";
    assert_eq!(compile("1+2").unwrap(), expected);
}

#[test]
fn exact_program_text_of_a_comparison() {
    let expected = ".intel_syntax noprefix\n.globl main\nmain:\n  push 2\n  push 1\n  pop rdi\n  pop rax\n  cmp rax, rdi\n  setg al\n  movzb rax, al\n  push rax\n  pop rax\n  ret\n";
    assert_eq!(compile("2>1").unwrap(), expected);
}

#[test]
fn malformed_input_fails_the_pipeline() {
    assert_eq!(
        compile("1+").unwrap_err(),
        CompileError::Parse(ParseError::ExpectedPrimary)
    );
    assert_eq!(
        compile("+").unwrap_err(),
        CompileError::Parse(ParseError::ExpectedPrimary)
    );
    match compile("1&2").unwrap_err() {
        CompileError::Lex(e) => {
            assert_eq!(e.offset, 1);
            assert_eq!(e.input, "1&2");
        },
        CompileError::Parse(_) => panic!("expected a lexical error"),
    }
    assert_eq!(
        compile("(1+2").unwrap_err(),
        CompileError::Parse(ParseError::UnterminatedParenthesis)
    );
}

#[test]
fn trailing_tokens_after_the_expression_are_ignored() {
    assert_eq!(run_expr("1+2)"), 3);
    assert_eq!(run_expr("1 2"), 1);
}

#[test]
fn pipeline_is_idempotent() {
    let first = compile("5*(9-6)==15").unwrap();
    let second = compile("5*(9-6)==15").unwrap();
    assert_eq!(first, second);
    assert_eq!(first.as_bytes(), second.as_bytes());
}

#[test]
fn division_by_zero_faults_the_machine() {
    let tokens = tokenize("1/0").unwrap();
    let node = parse(&tokens).unwrap();
    assert_eq!(evaluate(&node), None);
    // The program is still generated; only its execution faults.
    assert!(compile("1/0").is_ok());
}

#[test]
fn unary_minus_desugars_to_zero_minus() {
    let tokens = tokenize("-5").unwrap();
    let node = parse(&tokens).unwrap();
    match node {
        Node::Binary { lhs, .. } => assert_eq!(*lhs, Node::Number(0)),
        Node::Number(_) => panic!("expected a binary node"),
    }
}

#[test]
fn arithmetic_wraps_modulo_two_to_the_64() {
    // -3 + 5 wraps back around to 2; the raw register value of -3 is huge.
    assert_eq!(run_expr("0-3"), (-3i64) as u64);
    assert_eq!(run_expr("0-3+5"), 2);
}
