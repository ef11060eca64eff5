//! Every error, compile-time and runtime, reached from an input that
//! provokes it.

use expr_vm::compile::{CompileErrorKind, Compiler};
use expr_vm::lex::{lex, Token, TokenType};
use expr_vm::value::Value;
use expr_vm::vm::{Chunk, Op, RuntimeError, Vm, VmError};

fn compile_failure(src: &str) -> CompileErrorKind {
    let tokens = lex(src).expect("lexing failed");
    let mut compiler = Compiler::new(tokens);
    compiler.compile().expect_err("compiling should fail").kind
}

fn run_error(src: &str) -> RuntimeError {
    let tokens = lex(src).expect("lexing failed");
    let mut compiler = Compiler::new(tokens);
    compiler.compile().expect("compiling failed");
    let mut chunk = Chunk { bytecode: compiler.bytecode.clone(), const_pool: compiler.const_pool.clone() };
    chunk.bytecode.push(Op::OpReturn.to_repr());
    let mut vm = Vm::new();
    vm.interpret(&chunk).expect_err("running should fail")
}

fn run_raw(bytecode: Vec<u8>, const_pool: Vec<Value>) -> Result<Vec<Value>, RuntimeError> {
    let chunk = Chunk { bytecode, const_pool };
    let mut vm = Vm::new();
    vm.interpret(&chunk)
}

#[test]
fn pool_of_256_constants_still_compiles() {
    let src = (0..256).map(|i| i.to_string()).collect::<Vec<_>>().join("+");
    let tokens = lex(&src).unwrap();
    let mut compiler = Compiler::new(tokens);
    compiler.compile().expect("256 constants must fit");
    assert_eq!(compiler.const_pool.len(), 256);
}

#[test]
fn pool_overflows_on_the_257th_constant() {
    let src = (0..257).map(|i| i.to_string()).collect::<Vec<_>>().join("+");
    assert_eq!(compile_failure(&src), CompileErrorKind::ConstPoolFull);
}

#[test]
fn deep_nesting_overflows_the_stack() {
    // 257 pushes before any Add executes: one more than the 256 slots.
    let mut src = String::new();
    for _ in 0..257 {
        src.push_str("nil+(");
    }
    src.push_str("nil");
    for _ in 0..257 {
        src.push(')');
    }
    assert_eq!(run_error(&src), RuntimeError::StackOverflow);
}

#[test]
fn nesting_up_to_the_stack_limit_runs() {
    let mut src = String::new();
    for _ in 0..255 {
        src.push_str("1+(");
    }
    src.push_str("1");
    for _ in 0..255 {
        src.push(')');
    }
    let tokens = lex(&src).unwrap();
    let mut compiler = Compiler::new(tokens);
    compiler.compile().unwrap();
    let mut chunk = Chunk { bytecode: compiler.bytecode.clone(), const_pool: compiler.const_pool.clone() };
    chunk.bytecode.push(Op::OpReturn.to_repr());
    let mut vm = Vm::new();
    let out = vm.interpret(&chunk).expect("256 live slots must fit");
    assert_eq!(out, vec![Value::Number(256f64.to_bits())]);
}

#[test]
fn expected_expression() {
    assert_eq!(compile_failure("*"), CompileErrorKind::ExpectedExpression);
    assert_eq!(compile_failure("1+*2"), CompileErrorKind::ExpectedExpression);
}

#[test]
fn expected_right_paren() {
    assert_eq!(compile_failure("(1"), CompileErrorKind::ExpectedRightParen);
    assert_eq!(compile_failure("(1 2"), CompileErrorKind::ExpectedRightParen);
}

#[test]
fn trailing_input() {
    assert_eq!(compile_failure("1 2"), CompileErrorKind::TrailingInput);
    assert_eq!(compile_failure("1)"), CompileErrorKind::TrailingInput);
}

#[test]
fn unexpected_end_without_sentinel() {
    let mut compiler = Compiler::new(Vec::new());
    let err = compiler.compile().expect_err("no tokens to compile");
    assert_eq!(err.kind, CompileErrorKind::UnexpectedEnd);
}

#[test]
fn bad_number_literal() {
    let tokens = vec![
        Token { kind: TokenType::Number, line_num: 0, content: "abc".to_string() },
        Token { kind: TokenType::Eof, line_num: 0, content: String::new() },
    ];
    let mut compiler = Compiler::new(tokens);
    let err = compiler.compile().expect_err("the literal text is not a numeral");
    assert_eq!(err.kind, CompileErrorKind::BadNumberLiteral);
}

#[test]
fn error_carries_the_line() {
    let tokens = lex("1 +\n*").expect("lexing failed");
    let mut compiler = Compiler::new(tokens);
    let err = compiler.compile().expect_err("compiling should fail");
    assert_eq!(err.kind, CompileErrorKind::ExpectedExpression);
    assert_eq!(err.line, 1);
}

#[test]
fn negate_requires_a_number() {
    assert_eq!(run_error("-nil"), RuntimeError::OperandMustBeNumber);
    assert_eq!(run_error("-\"a\""), RuntimeError::OperandMustBeNumber);
}

#[test]
fn add_requires_numbers_or_strings() {
    assert_eq!(run_error("1 + nil"), RuntimeError::InvalidOperandType);
    assert_eq!(run_error("true + 1"), RuntimeError::InvalidOperandType);
}

#[test]
fn arithmetic_requires_numbers() {
    assert_eq!(run_error("1 - nil"), RuntimeError::OperandMustBeNumber);
    assert_eq!(run_error("\"a\" * 2"), RuntimeError::OperandMustBeNumber);
    assert_eq!(run_error("true / true"), RuntimeError::OperandMustBeNumber);
}

#[test]
fn comparison_requires_numbers() {
    assert_eq!(run_error("1 < \"a\""), RuntimeError::OperandMustBeNumber);
    assert_eq!(run_error("true > false"), RuntimeError::OperandMustBeNumber);
}

#[test]
fn invalid_opcode_byte() {
    assert_eq!(run_raw(vec![200], vec![]), Err(RuntimeError::InvalidOpcode));
}

#[test]
fn constant_without_operand() {
    assert_eq!(
        run_raw(vec![Op::OpConstant.to_repr()], vec![]),
        Err(RuntimeError::MissingOperand)
    );
}

#[test]
fn constant_with_dangling_index() {
    assert_eq!(
        run_raw(vec![Op::OpConstant.to_repr(), 5], vec![]),
        Err(RuntimeError::BadConstantIndex)
    );
}

#[test]
fn return_on_empty_stack_underflows() {
    assert_eq!(
        run_raw(vec![Op::OpReturn.to_repr()], vec![]),
        Err(RuntimeError::StackUnderflow)
    );
}

#[test]
fn unterminated_string_is_a_lexical_error() {
    assert_eq!(lex("\"abc").expect_err("must not lex"), VmError::CompileError);
}

#[test]
fn unrecognized_character_is_a_lexical_error() {
    assert_eq!(lex("#").expect_err("must not lex"), VmError::CompileError);
}
