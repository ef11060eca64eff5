//! The disassembler's per-instruction rendering and the value display texts
//! it leans on.

use expr_vm::compile::Compiler;
use expr_vm::lex::lex;
use expr_vm::value::Value;
use expr_vm::vm::{Chunk, Op, RuntimeError};

fn compile_chunk(src: &str) -> Chunk {
    let tokens = lex(src).expect("lexing failed");
    let mut compiler = Compiler::new(tokens);
    compiler.compile().expect("compiling failed");
    let mut chunk = Chunk { bytecode: compiler.bytecode.clone(), const_pool: compiler.const_pool.clone() };
    chunk.bytecode.push(Op::OpReturn.to_repr());
    chunk
}

#[test]
fn disassembly_of_a_sum() {
    let chunk = compile_chunk("1+2");
    let text = chunk.disassemble().expect("well-formed chunk");
    assert_eq!(
        text,
        "0000 OpConstant    0 '1'\n0002 OpConstant    1 '2'\n0004 OpAdd\n0005 OpReturn\n"
    );
}

#[test]
fn disassembly_reproduces_opcode_and_operand_index() {
    // The offsets, opcode names and operand indices of every
    // `Constant`-bearing instruction read back from the text.
    let src = (0..12).map(|i| i.to_string()).collect::<Vec<_>>().join("+");
    let chunk = compile_chunk(&src);
    let text = chunk.disassemble().expect("well-formed chunk");
    let mut constants = 0;
    for line in text.lines() {
        let rest = line.splitn(2, ' ').nth(1).unwrap();
        if let Some(tail) = rest.strip_prefix("OpConstant    ") {
            let shown: usize = tail.split(' ').next().unwrap().parse().unwrap();
            assert_eq!(shown, constants);
            constants += 1;
        }
    }
    assert_eq!(constants, 12);
}

#[test]
fn disassembly_of_literals_and_strings() {
    let chunk = compile_chunk("!(\"hi\" == nil)");
    let text = chunk.disassemble().expect("well-formed chunk");
    assert_eq!(
        text,
        "0000 OpConstant    0 'hi'\n0002 OpNil\n0003 OpEqual\n0004 OpNot\n0005 OpReturn\n"
    );
}

#[test]
fn disassembly_rejects_malformed_chunks() {
    let chunk = Chunk { bytecode: vec![250], const_pool: vec![] };
    assert_eq!(chunk.disassemble(), Err(RuntimeError::InvalidOpcode));
    let chunk = Chunk { bytecode: vec![Op::OpConstant.to_repr()], const_pool: vec![] };
    assert_eq!(chunk.disassemble(), Err(RuntimeError::MissingOperand));
    let chunk = Chunk { bytecode: vec![Op::OpConstant.to_repr(), 9], const_pool: vec![] };
    assert_eq!(chunk.disassemble(), Err(RuntimeError::BadConstantIndex));
}

#[test]
fn new_chunk_is_empty() {
    let chunk = Chunk::new();
    assert!(chunk.bytecode.is_empty());
    assert!(chunk.const_pool.is_empty());
    assert_eq!(chunk.disassemble().unwrap(), "");
}

#[test]
fn opcode_bytes_round_trip() {
    let ops = [
        Op::OpConstant,
        Op::OpTrue,
        Op::OpFalse,
        Op::OpNil,
        Op::OpReturn,
        Op::OpAdd,
        Op::OpSubtract,
        Op::OpMultiply,
        Op::OpDivide,
        Op::OpNegate,
        Op::OpNot,
        Op::OpEqual,
        Op::OpGreater,
        Op::OpLess,
    ];
    for (i, op) in ops.iter().enumerate() {
        assert_eq!(op.to_repr(), i as u8);
        assert_eq!(Op::from_repr(i as u8), Some(*op));
    }
    assert_eq!(Op::from_repr(14), None);
}

#[test]
fn value_display_texts() {
    assert_eq!(Value::Nil.display_text(), "Nil");
    assert_eq!(Value::Bool(true).display_text(), "true");
    assert_eq!(Value::Bool(false).display_text(), "false");
    assert_eq!(Value::Number(1f64.to_bits()).display_text(), "1");
    assert_eq!(Value::Number(1.5f64.to_bits()).display_text(), "1.5");
    assert_eq!(Value::Number((-0.25f64).to_bits()).display_text(), "-0.25");
    assert_eq!(Value::Str("hi".to_string()).display_text(), "hi");
}
