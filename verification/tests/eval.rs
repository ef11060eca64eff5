//! End-to-end runs: lex, compile, append the driver's trailing `Return`,
//! and interpret.

use expr_vm::compile::Compiler;
use expr_vm::lex::lex;
use expr_vm::value::Value;
use expr_vm::vm::{Chunk, Op, RuntimeError, Vm};

fn run_source(src: &str) -> Result<Vec<Value>, RuntimeError> {
    let tokens = lex(src).expect("lexing failed");
    let mut compiler = Compiler::new(tokens);
    compiler.compile().expect("compiling failed");
    let mut chunk = Chunk { bytecode: compiler.bytecode.clone(), const_pool: compiler.const_pool.clone() };
    chunk.bytecode.push(Op::OpReturn.to_repr());
    let mut vm = Vm::new();
    vm.interpret(&chunk)
}

fn run_number(src: &str) -> f64 {
    let out = run_source(src).expect("run failed");
    assert_eq!(out.len(), 1);
    match &out[0] {
        Value::Number(bits) => f64::from_bits(*bits),
        other => panic!("expected a number, got {:?}", other),
    }
}

fn run_one(src: &str) -> Value {
    let mut out = run_source(src).expect("run failed");
    assert_eq!(out.len(), 1);
    out.pop().unwrap()
}

#[test]
fn number_literal_round_trips() {
    assert_eq!(run_number("42"), 42.0);
    assert_eq!(run_number("0"), 0.0);
    assert_eq!(run_number("1.5"), 1.5);
    assert_eq!(run_number("007"), 7.0);
}

#[test]
fn precedence_and_grouping() {
    assert_eq!(run_number("(1+2)*3"), 9.0);
    assert_eq!(run_number("1+2*3"), 7.0);
}

#[test]
fn unary_binds_tighter_than_binary() {
    assert_eq!(run_number("-2+3"), 1.0);
    assert_eq!(run_number("-(2+3)"), -5.0);
}

#[test]
fn left_associative_chains() {
    assert_eq!(run_number("10-3-2"), 5.0);
    assert_eq!(run_number("100/10/2"), 5.0);
}

#[test]
fn arithmetic_exact_values() {
    assert_eq!(run_number("5-2"), 3.0);
    assert_eq!(run_number("4*2.5"), 10.0);
    assert_eq!(run_number("7/2"), 3.5);
}

#[test]
fn division_by_zero_is_infinite() {
    assert_eq!(run_number("1/0"), f64::INFINITY);
    assert_eq!(run_number("-1/0"), f64::NEG_INFINITY);
}

#[test]
fn division_zero_by_zero_is_nan_not_an_error() {
    let out = run_source("0/0").expect("float division never fails");
    match &out[0] {
        Value::Number(bits) => assert!(f64::from_bits(*bits).is_nan()),
        other => panic!("expected a number, got {:?}", other),
    }
}

#[test]
fn string_coercion_on_add() {
    assert_eq!(run_one("\"a\" + 1"), Value::Str("a1".to_string()));
    assert_eq!(run_one("1 + \"a\""), Value::Str("1a".to_string()));
    assert_eq!(run_one("\"a\" + \"b\""), Value::Str("ab".to_string()));
}

#[test]
fn string_coercion_with_other_tags() {
    assert_eq!(run_one("\"a\" + true"), Value::Str("atrue".to_string()));
    assert_eq!(run_one("nil + \"b\""), Value::Str("Nilb".to_string()));
}

#[test]
fn truthiness() {
    assert_eq!(run_one("!nil"), Value::Bool(true));
    assert_eq!(run_one("!false"), Value::Bool(true));
    assert_eq!(run_one("!true"), Value::Bool(false));
    assert_eq!(run_one("!0"), Value::Bool(false));
    assert_eq!(run_one("!\"\""), Value::Bool(false));
}

#[test]
fn inverted_comparisons() {
    assert_eq!(run_one("1 >= 1"), Value::Bool(true));
    assert_eq!(run_one("2 <= 1"), Value::Bool(false));
    assert_eq!(run_one("1 != 1"), Value::Bool(false));
    assert_eq!(run_one("1 != 2"), Value::Bool(true));
}

#[test]
fn inverted_comparisons_equal_their_decomposition() {
    assert_eq!(run_one("1 >= 1"), run_one("!(1 < 1)"));
    assert_eq!(run_one("2 <= 1"), run_one("!(2 > 1)"));
    assert_eq!(run_one("1 != 2"), run_one("!(1 == 2)"));
}

#[test]
fn plain_comparisons() {
    assert_eq!(run_one("2 > 1"), Value::Bool(true));
    assert_eq!(run_one("1 < 1"), Value::Bool(false));
    assert_eq!(run_one("1 == 1"), Value::Bool(true));
}

#[test]
fn equality_never_coerces_across_tags() {
    assert_eq!(run_one("1 == \"1\""), Value::Bool(false));
    assert_eq!(run_one("nil == false"), Value::Bool(false));
    assert_eq!(run_one("\"x\" == \"x\""), Value::Bool(true));
}

#[test]
fn literals_use_no_pool_entry() {
    let tokens = lex("true").unwrap();
    let mut compiler = Compiler::new(tokens);
    compiler.compile().unwrap();
    assert_eq!(compiler.bytecode, vec![Op::OpTrue.to_repr()]);
    assert!(compiler.const_pool.is_empty());
}

#[test]
fn negate_emits_after_operand() {
    let tokens = lex("-1").unwrap();
    let mut compiler = Compiler::new(tokens);
    compiler.compile().unwrap();
    assert_eq!(
        compiler.bytecode,
        vec![Op::OpConstant.to_repr(), 0, Op::OpNegate.to_repr()]
    );
}
