//! The bytecode instruction set, the chunk that carries a compiled program,
//! and the stack machine that executes it.

use crate::num::{num_add, num_div, num_gt, num_lt, num_mul, num_neg, num_sub};
use crate::num::{num_add_exec, num_div_exec, num_gt_exec, num_lt_exec, num_mul_exec,
    num_neg_exec, num_sub_exec};
use crate::value::{spec_display, spec_is_falsy, spec_value_eq, view_values, SpecValue, Value};
use vstd::prelude::*;
use vstd::string::StringExecFns;

verus! {

/// The coarse error families of a whole compile/run cycle.
#[derive(Debug, Clone, Copy, PartialEq, Eq, Structural)]
pub enum VmError {
    CompileError,
    RuntimeError,
}

/// The reason a run of the virtual machine failed.
#[derive(Debug, Clone, Copy, PartialEq, Eq, Structural)]
pub enum RuntimeError {
    /// An instruction byte that is not an opcode.
    InvalidOpcode,
    /// A `Constant` opcode at the end of the bytecode, with no operand byte.
    MissingOperand,
    /// A `Constant` operand byte that is not an index into the constant pool.
    BadConstantIndex,
    /// An instruction that pops needed more values than the stack held.
    StackUnderflow,
    /// A push onto a stack already holding 256 values.
    StackOverflow,
    /// An arithmetic, comparison or negation operand that is not a number.
    OperandMustBeNumber,
    /// An `Add` whose operands are neither numbers nor strings.
    InvalidOperandType,
}

/// The opcodes. Only `OpConstant` carries an operand: the byte that follows
/// it indexes the constant pool.
#[derive(Debug, Clone, Copy, PartialEq, Eq, Structural)]
pub enum Op {
    OpConstant,
    OpTrue,
    OpFalse,
    OpNil,
    OpReturn,
    OpAdd,
    OpSubtract,
    OpMultiply,
    OpDivide,
    OpNegate,
    OpNot,
    OpEqual,
    OpGreater,
    OpLess,
}

/// The instruction byte that encodes each opcode.
pub open spec fn spec_op_code(op: Op) -> u8 {
    match op {
        Op::OpConstant => 0,
        Op::OpTrue => 1,
        Op::OpFalse => 2,
        Op::OpNil => 3,
        Op::OpReturn => 4,
        Op::OpAdd => 5,
        Op::OpSubtract => 6,
        Op::OpMultiply => 7,
        Op::OpDivide => 8,
        Op::OpNegate => 9,
        Op::OpNot => 10,
        Op::OpEqual => 11,
        Op::OpGreater => 12,
        Op::OpLess => 13,
    }
}

/// The opcode a byte decodes to, or `None` when the byte is not an opcode.
pub open spec fn spec_op_from(b: u8) -> Option<Op> {
    if b == 0 {
        Some(Op::OpConstant)
    } else if b == 1 {
        Some(Op::OpTrue)
    } else if b == 2 {
        Some(Op::OpFalse)
    } else if b == 3 {
        Some(Op::OpNil)
    } else if b == 4 {
        Some(Op::OpReturn)
    } else if b == 5 {
        Some(Op::OpAdd)
    } else if b == 6 {
        Some(Op::OpSubtract)
    } else if b == 7 {
        Some(Op::OpMultiply)
    } else if b == 8 {
        Some(Op::OpDivide)
    } else if b == 9 {
        Some(Op::OpNegate)
    } else if b == 10 {
        Some(Op::OpNot)
    } else if b == 11 {
        Some(Op::OpEqual)
    } else if b == 12 {
        Some(Op::OpGreater)
    } else if b == 13 {
        Some(Op::OpLess)
    } else {
        None
    }
}

impl Op {
    /// The instruction byte of this opcode.
    pub fn to_repr(self) -> (r: u8)
        ensures
            r == spec_op_code(self),
    {
        match self {
            Op::OpConstant => 0,
            Op::OpTrue => 1,
            Op::OpFalse => 2,
            Op::OpNil => 3,
            Op::OpReturn => 4,
            Op::OpAdd => 5,
            Op::OpSubtract => 6,
            Op::OpMultiply => 7,
            Op::OpDivide => 8,
            Op::OpNegate => 9,
            Op::OpNot => 10,
            Op::OpEqual => 11,
            Op::OpGreater => 12,
            Op::OpLess => 13,
        }
    }

    /// Decode an instruction byte.
    pub fn from_repr(b: u8) -> (r: Option<Op>)
        ensures
            r == spec_op_from(b),
    {
        match b {
            0 => Some(Op::OpConstant),
            1 => Some(Op::OpTrue),
            2 => Some(Op::OpFalse),
            3 => Some(Op::OpNil),
            4 => Some(Op::OpReturn),
            5 => Some(Op::OpAdd),
            6 => Some(Op::OpSubtract),
            7 => Some(Op::OpMultiply),
            8 => Some(Op::OpDivide),
            9 => Some(Op::OpNegate),
            10 => Some(Op::OpNot),
            11 => Some(Op::OpEqual),
            12 => Some(Op::OpGreater),
            13 => Some(Op::OpLess),
            _ => None,
        }
    }
}

/// The name of each opcode, as the disassembler prints it.
pub open spec fn spec_op_name(op: Op) -> Seq<char> {
    match op {
        Op::OpConstant => "OpConstant"@,
        Op::OpTrue => "OpTrue"@,
        Op::OpFalse => "OpFalse"@,
        Op::OpNil => "OpNil"@,
        Op::OpReturn => "OpReturn"@,
        Op::OpAdd => "OpAdd"@,
        Op::OpSubtract => "OpSubtract"@,
        Op::OpMultiply => "OpMultiply"@,
        Op::OpDivide => "OpDivide"@,
        Op::OpNegate => "OpNegate"@,
        Op::OpNot => "OpNot"@,
        Op::OpEqual => "OpEqual"@,
        Op::OpGreater => "OpGreater"@,
        Op::OpLess => "OpLess"@,
    }
}

impl Op {
    /// The opcode's name (see [`spec_op_name`]).
    pub fn name(self) -> (r: &'static str)
        ensures
            r@ == spec_op_name(self),
    {
        match self {
            Op::OpConstant => "OpConstant",
            Op::OpTrue => "OpTrue",
            Op::OpFalse => "OpFalse",
            Op::OpNil => "OpNil",
            Op::OpReturn => "OpReturn",
            Op::OpAdd => "OpAdd",
            Op::OpSubtract => "OpSubtract",
            Op::OpMultiply => "OpMultiply",
            Op::OpDivide => "OpDivide",
            Op::OpNegate => "OpNegate",
            Op::OpNot => "OpNot",
            Op::OpEqual => "OpEqual",
            Op::OpGreater => "OpGreater",
            Op::OpLess => "OpLess",
        }
    }
}

/// Encoding and decoding of opcodes invert each other.
pub proof fn lemma_op_repr_roundtrip(op: Op, b: u8)
    ensures
        spec_op_from(spec_op_code(op)) == Some(op),
        spec_op_from(b) == Some(op) ==> spec_op_code(op) == b,
{
}

/// A compiled program: a flat instruction byte sequence and the constant
/// pool its `OpConstant` operands index into.
#[derive(Debug)]
pub struct Chunk {
    pub bytecode: Vec<u8>,
    pub const_pool: Vec<Value>,
}

impl Chunk {
    /// An empty chunk.
    pub fn new() -> (r: Self)
        ensures
            r.bytecode@ == Seq::<u8>::empty(),
            r.const_pool@ == Seq::<Value>::empty(),
    {
        Chunk { bytecode: Vec::new(), const_pool: Vec::new() }
    }
}

impl Default for Chunk {
    fn default() -> (r: Chunk)
        ensures
            r.bytecode@ == Seq::<u8>::empty(),
            r.const_pool@ == Seq::<Value>::empty(),
    {
        Chunk::new()
    }
}

#[verifier::external_type_specification]
#[verifier::external_body]
#[verifier::reject_recursive_types(T)]
pub struct ExArrayVec<T, const CAP: usize>(arrayvec::ArrayVec<T, CAP>);

/// The values the operand stack holds, bottom first.
pub uninterp spec fn stack_model(s: arrayvec::ArrayVec<Value, 256>) -> Seq<SpecValue>;

/// Relies on `arrayvec::ArrayVec::new`: a new vector is empty.
#[verifier::external_body]
pub(crate) fn stack_new() -> (r: arrayvec::ArrayVec<Value, 256>)
    ensures
        stack_model(r) == Seq::<SpecValue>::empty(),
{
    arrayvec::ArrayVec::new()
}

/// Relies on `arrayvec::ArrayVec::try_push`: below the capacity (the 256 of
/// the vector's type) the element is appended and `Ok` returned; at capacity
/// the vector is unchanged and the element comes back in a `CapacityError`.
#[verifier::external_body]
pub(crate) fn stack_push(s: &mut arrayvec::ArrayVec<Value, 256>, v: Value) -> (r: bool)
    ensures
        stack_model(*old(s)).len() < 256 ==> r && stack_model(*final(s)) == stack_model(
            *old(s),
        ).push(v@),
        stack_model(*old(s)).len() >= 256 ==> !r && stack_model(*final(s)) == stack_model(*old(s)),
{
    s.try_push(v).is_ok()
}

/// Relies on `arrayvec::ArrayVec::pop`: the last element is removed and
/// returned, or `None` when the vector is empty.
#[verifier::external_body]
pub(crate) fn stack_pop(s: &mut arrayvec::ArrayVec<Value, 256>) -> (r: Option<Value>)
    ensures
        match r {
            Some(v) => stack_model(*old(s)).len() > 0 && v@ == stack_model(*old(s)).last()
                && stack_model(*final(s)) == stack_model(*old(s)).drop_last(),
            None => stack_model(*old(s)).len() == 0 && stack_model(*final(s)) == stack_model(
                *old(s),
            ),
        },
{
    s.pop()
}

/// The virtual machine: a program counter into the bytecode and a bounded
/// operand stack of 256 slots.
pub struct Vm {
    pub pc: usize,
    pub stack: arrayvec::ArrayVec<Value, 256>,
}

/// One complete run of the machine, as a function: executing `code` against
/// `pool` from program counter `pc` with operand stack `stack` (bottom
/// first), having already displayed `out`, either returns every value
/// displayed at a `Return` instruction, or fails with the first runtime
/// error. Execution stops when the program counter passes the end of the
/// bytecode; only a push can overflow the 256-slot stack.
pub open spec fn spec_exec(
    code: Seq<u8>,
    pool: Seq<SpecValue>,
    pc: nat,
    stack: Seq<SpecValue>,
    out: Seq<SpecValue>,
) -> Result<Seq<SpecValue>, RuntimeError>
    decreases code.len() - pc,
{
    if pc >= code.len() {
        Ok(out)
    } else {
        match spec_op_from(code[pc as int]) {
            None => Err(RuntimeError::InvalidOpcode),
            Some(op) => match op {
                Op::OpConstant => {
                    if pc + 1 >= code.len() {
                        Err(RuntimeError::MissingOperand)
                    } else if code[pc as int + 1] as int >= pool.len() {
                        Err(RuntimeError::BadConstantIndex)
                    } else if stack.len() >= 256 {
                        Err(RuntimeError::StackOverflow)
                    } else {
                        spec_exec(code, pool, pc + 2, stack.push(pool[code[pc as int + 1] as int]), out)
                    }
                },
                Op::OpTrue => {
                    if stack.len() >= 256 {
                        Err(RuntimeError::StackOverflow)
                    } else {
                        spec_exec(code, pool, pc + 1, stack.push(SpecValue::Bool(true)), out)
                    }
                },
                Op::OpFalse => {
                    if stack.len() >= 256 {
                        Err(RuntimeError::StackOverflow)
                    } else {
                        spec_exec(code, pool, pc + 1, stack.push(SpecValue::Bool(false)), out)
                    }
                },
                Op::OpNil => {
                    if stack.len() >= 256 {
                        Err(RuntimeError::StackOverflow)
                    } else {
                        spec_exec(code, pool, pc + 1, stack.push(SpecValue::Nil), out)
                    }
                },
                Op::OpReturn => {
                    if stack.len() == 0 {
                        Err(RuntimeError::StackUnderflow)
                    } else {
                        spec_exec(code, pool, pc + 1, stack.drop_last(), out.push(stack.last()))
                    }
                },
                Op::OpNegate => {
                    if stack.len() == 0 {
                        Err(RuntimeError::StackUnderflow)
                    } else {
                        match stack.last() {
                            SpecValue::Number(x) => spec_exec(
                                code,
                                pool,
                                pc + 1,
                                stack.drop_last().push(SpecValue::Number(num_neg(x))),
                                out,
                            ),
                            _ => Err(RuntimeError::OperandMustBeNumber),
                        }
                    }
                },
                Op::OpNot => {
                    if stack.len() == 0 {
                        Err(RuntimeError::StackUnderflow)
                    } else {
                        spec_exec(
                            code,
                            pool,
                            pc + 1,
                            stack.drop_last().push(SpecValue::Bool(spec_is_falsy(stack.last()))),
                            out,
                        )
                    }
                },
                Op::OpAdd => {
                    if stack.len() < 2 {
                        Err(RuntimeError::StackUnderflow)
                    } else {
                        let b = stack.last();
                        let a = stack[stack.len() - 2];
                        let rest = stack.drop_last().drop_last();
                        match (a, b) {
                            (SpecValue::Number(x), SpecValue::Number(y)) => spec_exec(
                                code,
                                pool,
                                pc + 1,
                                rest.push(SpecValue::Number(num_add(x, y))),
                                out,
                            ),
                            (SpecValue::Str(_), _) => spec_exec(
                                code,
                                pool,
                                pc + 1,
                                rest.push(SpecValue::Str(spec_display(a) + spec_display(b))),
                                out,
                            ),
                            (_, SpecValue::Str(_)) => spec_exec(
                                code,
                                pool,
                                pc + 1,
                                rest.push(SpecValue::Str(spec_display(a) + spec_display(b))),
                                out,
                            ),
                            _ => Err(RuntimeError::InvalidOperandType),
                        }
                    }
                },
                Op::OpSubtract => {
                    if stack.len() < 2 {
                        Err(RuntimeError::StackUnderflow)
                    } else {
                        let b = stack.last();
                        let a = stack[stack.len() - 2];
                        let rest = stack.drop_last().drop_last();
                        match (a, b) {
                            (SpecValue::Number(x), SpecValue::Number(y)) => spec_exec(
                                code,
                                pool,
                                pc + 1,
                                rest.push(SpecValue::Number(num_sub(x, y))),
                                out,
                            ),
                            _ => Err(RuntimeError::OperandMustBeNumber),
                        }
                    }
                },
                Op::OpMultiply => {
                    if stack.len() < 2 {
                        Err(RuntimeError::StackUnderflow)
                    } else {
                        let b = stack.last();
                        let a = stack[stack.len() - 2];
                        let rest = stack.drop_last().drop_last();
                        match (a, b) {
                            (SpecValue::Number(x), SpecValue::Number(y)) => spec_exec(
                                code,
                                pool,
                                pc + 1,
                                rest.push(SpecValue::Number(num_mul(x, y))),
                                out,
                            ),
                            _ => Err(RuntimeError::OperandMustBeNumber),
                        }
                    }
                },
                Op::OpDivide => {
                    if stack.len() < 2 {
                        Err(RuntimeError::StackUnderflow)
                    } else {
                        let b = stack.last();
                        let a = stack[stack.len() - 2];
                        let rest = stack.drop_last().drop_last();
                        match (a, b) {
                            (SpecValue::Number(x), SpecValue::Number(y)) => spec_exec(
                                code,
                                pool,
                                pc + 1,
                                rest.push(SpecValue::Number(num_div(x, y))),
                                out,
                            ),
                            _ => Err(RuntimeError::OperandMustBeNumber),
                        }
                    }
                },
                Op::OpEqual => {
                    if stack.len() < 2 {
                        Err(RuntimeError::StackUnderflow)
                    } else {
                        let top = stack.last();
                        let sec = stack[stack.len() - 2];
                        let rest = stack.drop_last().drop_last();
                        spec_exec(
                            code,
                            pool,
                            pc + 1,
                            rest.push(SpecValue::Bool(spec_value_eq(top, sec))),
                            out,
                        )
                    }
                },
                Op::OpGreater => {
                    if stack.len() < 2 {
                        Err(RuntimeError::StackUnderflow)
                    } else {
                        let b = stack.last();
                        let a = stack[stack.len() - 2];
                        let rest = stack.drop_last().drop_last();
                        match (a, b) {
                            (SpecValue::Number(x), SpecValue::Number(y)) => spec_exec(
                                code,
                                pool,
                                pc + 1,
                                rest.push(SpecValue::Bool(num_gt(x, y))),
                                out,
                            ),
                            _ => Err(RuntimeError::OperandMustBeNumber),
                        }
                    }
                },
                Op::OpLess => {
                    if stack.len() < 2 {
                        Err(RuntimeError::StackUnderflow)
                    } else {
                        let b = stack.last();
                        let a = stack[stack.len() - 2];
                        let rest = stack.drop_last().drop_last();
                        match (a, b) {
                            (SpecValue::Number(x), SpecValue::Number(y)) => spec_exec(
                                code,
                                pool,
                                pc + 1,
                                rest.push(SpecValue::Bool(num_lt(x, y))),
                                out,
                            ),
                            _ => Err(RuntimeError::OperandMustBeNumber),
                        }
                    }
                },
            },
        }
    }
}

/// `Add` coerces to string concatenation whenever either operand is a
/// string: the non-string operand (if any) contributes its display text.
/// Stated as one step of [`spec_exec`] at an `OpAdd` instruction.
pub proof fn lemma_add_string_coercion(
    code: Seq<u8>,
    pool: Seq<SpecValue>,
    pc: nat,
    stack: Seq<SpecValue>,
    out: Seq<SpecValue>,
)
    requires
        pc < code.len(),
        spec_op_from(code[pc as int]) == Some(Op::OpAdd),
        stack.len() >= 2,
        stack.last() matches SpecValue::Str(_) || stack[stack.len() - 2] matches SpecValue::Str(
            _,
        ),
    ensures
        spec_exec(code, pool, pc, stack, out) == spec_exec(
            code,
            pool,
            pc + 1,
            stack.drop_last().drop_last().push(
                SpecValue::Str(
                    spec_display(stack[stack.len() - 2]) + spec_display(stack.last()),
                ),
            ),
            out,
        ),
{
}

/// The static stack discipline of a code segment: decode instruction by
/// instruction, starting from `d` values on the stack. `None` when an
/// instruction is malformed (an unknown opcode, a `Constant` with no
/// operand byte or with an operand that does not index a pool of
/// `pool_len` constants) or pops more values than are there; otherwise
/// `Some` of the depth after the segment. Overflow of the bounded stack is
/// a dynamic matter, not counted here.
pub open spec fn seg_effect(code: Seq<u8>, pool_len: nat, d: nat) -> Option<nat>
    decreases code.len(),
{
    if code.len() == 0 {
        Some(d)
    } else {
        match spec_op_from(code[0]) {
            None => None,
            Some(op) => match op {
                Op::OpConstant => {
                    if code.len() < 2 {
                        None
                    } else if code[1] as nat >= pool_len {
                        None
                    } else {
                        seg_effect(code.skip(2), pool_len, d + 1)
                    }
                },
                Op::OpTrue | Op::OpFalse | Op::OpNil => seg_effect(code.skip(1), pool_len, d + 1),
                Op::OpReturn => {
                    if d < 1 {
                        None
                    } else {
                        seg_effect(code.skip(1), pool_len, (d - 1) as nat)
                    }
                },
                Op::OpNegate | Op::OpNot => {
                    if d < 1 {
                        None
                    } else {
                        seg_effect(code.skip(1), pool_len, d)
                    }
                },
                _ => {
                    if d < 2 {
                        None
                    } else {
                        seg_effect(code.skip(1), pool_len, (d - 1) as nat)
                    }
                },
            },
        }
    }
}

/// How many `Return` instructions a code segment holds, counted instruction
/// by instruction (meaningful for segments whose stack discipline checks
/// out, which decode all the way).
pub open spec fn seg_returns(code: Seq<u8>) -> nat
    decreases code.len(),
{
    if code.len() == 0 {
        0
    } else {
        match spec_op_from(code[0]) {
            None => 0,
            Some(op) => match op {
                Op::OpConstant => {
                    if code.len() < 2 {
                        0
                    } else {
                        seg_returns(code.skip(2))
                    }
                },
                Op::OpReturn => 1 + seg_returns(code.skip(1)),
                _ => seg_returns(code.skip(1)),
            },
        }
    }
}

/// `Return` instructions are counted segment by segment: for a first
/// segment whose stack discipline checks out, the count of `a + b` is the
/// sum of the counts.
pub proof fn lemma_seg_returns_concat(a: Seq<u8>, b: Seq<u8>, pool_len: nat, d: nat, d2: nat)
    requires
        seg_effect(a, pool_len, d) == Some(d2),
    ensures
        seg_returns(a + b) == seg_returns(a) + seg_returns(b),
    decreases a.len(),
{
    if a.len() == 0 {
        assert(a + b =~= b);
    } else {
        let ab = a + b;
        assert(ab[0] == a[0]);
        let op = spec_op_from(a[0]).unwrap();
        let k: int = if op == Op::OpConstant {
            2
        } else {
            1
        };
        let nd: nat = match op {
            Op::OpConstant | Op::OpTrue | Op::OpFalse | Op::OpNil => d + 1,
            Op::OpReturn => (d - 1) as nat,
            Op::OpNegate | Op::OpNot => d,
            _ => (d - 1) as nat,
        };
        if op == Op::OpConstant {
            assert(ab[1] == a[1]);
        }
        assert(ab.skip(k) =~= a.skip(k) + b);
        lemma_seg_returns_concat(a.skip(k), b, pool_len, nd, d2);
    }
}

/// Composition: the effect of `a + b` from `d` is the effect of `b` from
/// wherever `a` lands.
pub proof fn lemma_seg_concat(a: Seq<u8>, b: Seq<u8>, pool_len: nat, d: nat, d2: nat)
    requires
        seg_effect(a, pool_len, d) == Some(d2),
    ensures
        seg_effect(a + b, pool_len, d) == seg_effect(b, pool_len, d2),
    decreases a.len(),
{
    if a.len() == 0 {
        assert(a + b =~= b);
    } else {
        let ab = a + b;
        assert(ab[0] == a[0]);
        let op = spec_op_from(a[0]).unwrap();
        let k: int = if op == Op::OpConstant {
            2
        } else {
            1
        };
        let nd: nat = match op {
            Op::OpConstant | Op::OpTrue | Op::OpFalse | Op::OpNil => d + 1,
            Op::OpReturn => (d - 1) as nat,
            Op::OpNegate | Op::OpNot => d,
            _ => (d - 1) as nat,
        };
        if op == Op::OpConstant {
            assert(ab[1] == a[1]);
        }
        assert(ab.skip(k) =~= a.skip(k) + b);
        lemma_seg_concat(a.skip(k), b, pool_len, nd, d2);
    }
}

/// Starting deeper only shifts the effect: extra values below the segment's
/// working area are untouched.
pub proof fn lemma_seg_depth(code: Seq<u8>, pool_len: nat, d: nat, d2: nat, j: nat)
    requires
        seg_effect(code, pool_len, d) == Some(d2),
    ensures
        seg_effect(code, pool_len, (d + j) as nat) == Some((d2 + j) as nat),
    decreases code.len(),
{
    if code.len() == 0 {
    } else {
        let op = spec_op_from(code[0]).unwrap();
        let k: int = if op == Op::OpConstant {
            2
        } else {
            1
        };
        let nd: nat = match op {
            Op::OpConstant | Op::OpTrue | Op::OpFalse | Op::OpNil => d + 1,
            Op::OpReturn => (d - 1) as nat,
            Op::OpNegate | Op::OpNot => d,
            _ => (d - 1) as nat,
        };
        lemma_seg_depth(code.skip(k), pool_len, nd, d2, j);
    }
}

/// A segment well formed against a pool stays well formed when the pool
/// grows: its operand bytes still index the larger pool.
pub proof fn lemma_seg_pool(code: Seq<u8>, pool_len: nat, larger: nat, d: nat, d2: nat)
    requires
        seg_effect(code, pool_len, d) == Some(d2),
        pool_len <= larger,
    ensures
        seg_effect(code, larger, d) == Some(d2),
    decreases code.len(),
{
    if code.len() == 0 {
    } else {
        let op = spec_op_from(code[0]).unwrap();
        let k: int = if op == Op::OpConstant {
            2
        } else {
            1
        };
        let nd: nat = match op {
            Op::OpConstant | Op::OpTrue | Op::OpFalse | Op::OpNil => d + 1,
            Op::OpReturn => (d - 1) as nat,
            Op::OpNegate | Op::OpNot => d,
            _ => (d - 1) as nat,
        };
        lemma_seg_pool(code.skip(k), pool_len, larger, nd, d2);
    }
}

/// Code whose stack discipline checks out never trips over its own shape:
/// executing it can fail only dynamically — on the bounded stack's
/// capacity or an operand of the wrong type — never on an unknown opcode,
/// a missing or dangling `Constant` operand, or an underflowing pop.
pub proof fn lemma_wf_code_runs(
    code: Seq<u8>,
    pool: Seq<SpecValue>,
    pc: nat,
    stack: Seq<SpecValue>,
    out: Seq<SpecValue>,
    d2: nat,
)
    requires
        pc <= code.len(),
        seg_effect(code.skip(pc as int), pool.len(), stack.len()) == Some(d2),
    ensures
        match spec_exec(code, pool, pc, stack, out) {
            Ok(o) => o.len() == out.len() + seg_returns(code.skip(pc as int)),
            Err(e) => e == RuntimeError::StackOverflow || e == RuntimeError::OperandMustBeNumber
                || e == RuntimeError::InvalidOperandType,
        },
    decreases code.len() - pc,
{
    if pc >= code.len() {
        assert(code.skip(pc as int) =~= Seq::<u8>::empty());
    } else {
        let rest = code.skip(pc as int);
        assert(rest[0] == code[pc as int]);
        let op = spec_op_from(code[pc as int]).unwrap();
        let k: int = if op == Op::OpConstant {
            2
        } else {
            1
        };
        assert(rest.skip(k) =~= code.skip(pc as int + k));
        if op == Op::OpConstant {
            assert(rest[1] == code[pc as int + 1]);
            if stack.len() < 256 {
                let v = pool[code[pc as int + 1] as int];
                lemma_wf_code_runs(code, pool, pc + 2, stack.push(v), out, d2);
            }
        } else {
            match op {
                Op::OpTrue => {
                    if stack.len() < 256 {
                        lemma_wf_code_runs(
                            code,
                            pool,
                            pc + 1,
                            stack.push(SpecValue::Bool(true)),
                            out,
                            d2,
                        );
                    }
                },
                Op::OpFalse => {
                    if stack.len() < 256 {
                        lemma_wf_code_runs(
                            code,
                            pool,
                            pc + 1,
                            stack.push(SpecValue::Bool(false)),
                            out,
                            d2,
                        );
                    }
                },
                Op::OpNil => {
                    if stack.len() < 256 {
                        lemma_wf_code_runs(code, pool, pc + 1, stack.push(SpecValue::Nil), out, d2);
                    }
                },
                Op::OpReturn => {
                    lemma_wf_code_runs(
                        code,
                        pool,
                        pc + 1,
                        stack.drop_last(),
                        out.push(stack.last()),
                        d2,
                    );
                },
                Op::OpNegate => {
                    match stack.last() {
                        SpecValue::Number(x) => {
                            lemma_wf_code_runs(
                                code,
                                pool,
                                pc + 1,
                                stack.drop_last().push(SpecValue::Number(num_neg(x))),
                                out,
                                d2,
                            );
                        },
                        _ => {},
                    }
                },
                Op::OpNot => {
                    lemma_wf_code_runs(
                        code,
                        pool,
                        pc + 1,
                        stack.drop_last().push(SpecValue::Bool(spec_is_falsy(stack.last()))),
                        out,
                        d2,
                    );
                },
                _ => {
                    let b = stack.last();
                    let a = stack[stack.len() - 2];
                    let rest2 = stack.drop_last().drop_last();
                    assert(rest2.len() == stack.len() - 2);
                    match op {
                        Op::OpAdd => {
                            match (a, b) {
                                (SpecValue::Number(x), SpecValue::Number(y)) => {
                                    lemma_wf_code_runs(
                                        code,
                                        pool,
                                        pc + 1,
                                        rest2.push(SpecValue::Number(num_add(x, y))),
                                        out,
                                        d2,
                                    );
                                },
                                (SpecValue::Str(_), _) => {
                                    lemma_wf_code_runs(
                                        code,
                                        pool,
                                        pc + 1,
                                        rest2.push(
                                            SpecValue::Str(spec_display(a) + spec_display(b)),
                                        ),
                                        out,
                                        d2,
                                    );
                                },
                                (_, SpecValue::Str(_)) => {
                                    lemma_wf_code_runs(
                                        code,
                                        pool,
                                        pc + 1,
                                        rest2.push(
                                            SpecValue::Str(spec_display(a) + spec_display(b)),
                                        ),
                                        out,
                                        d2,
                                    );
                                },
                                _ => {},
                            }
                        },
                        Op::OpSubtract => {
                            match (a, b) {
                                (SpecValue::Number(x), SpecValue::Number(y)) => {
                                    lemma_wf_code_runs(
                                        code,
                                        pool,
                                        pc + 1,
                                        rest2.push(SpecValue::Number(num_sub(x, y))),
                                        out,
                                        d2,
                                    );
                                },
                                _ => {},
                            }
                        },
                        Op::OpMultiply => {
                            match (a, b) {
                                (SpecValue::Number(x), SpecValue::Number(y)) => {
                                    lemma_wf_code_runs(
                                        code,
                                        pool,
                                        pc + 1,
                                        rest2.push(SpecValue::Number(num_mul(x, y))),
                                        out,
                                        d2,
                                    );
                                },
                                _ => {},
                            }
                        },
                        Op::OpDivide => {
                            match (a, b) {
                                (SpecValue::Number(x), SpecValue::Number(y)) => {
                                    lemma_wf_code_runs(
                                        code,
                                        pool,
                                        pc + 1,
                                        rest2.push(SpecValue::Number(num_div(x, y))),
                                        out,
                                        d2,
                                    );
                                },
                                _ => {},
                            }
                        },
                        Op::OpEqual => {
                            lemma_wf_code_runs(
                                code,
                                pool,
                                pc + 1,
                                rest2.push(SpecValue::Bool(spec_value_eq(b, a))),
                                out,
                                d2,
                            );
                        },
                        Op::OpGreater => {
                            match (a, b) {
                                (SpecValue::Number(x), SpecValue::Number(y)) => {
                                    lemma_wf_code_runs(
                                        code,
                                        pool,
                                        pc + 1,
                                        rest2.push(SpecValue::Bool(num_gt(x, y))),
                                        out,
                                        d2,
                                    );
                                },
                                _ => {},
                            }
                        },
                        Op::OpLess => {
                            match (a, b) {
                                (SpecValue::Number(x), SpecValue::Number(y)) => {
                                    lemma_wf_code_runs(
                                        code,
                                        pool,
                                        pc + 1,
                                        rest2.push(SpecValue::Bool(num_lt(x, y))),
                                        out,
                                        d2,
                                    );
                                },
                                _ => {},
                            }
                        },
                        _ => {},
                    }
                },
            }
        }
    }
}

impl Vm {
    /// A fresh machine: program counter at the start, empty stack.
    pub fn new() -> (r: Vm)
        ensures
            r.pc == 0,
            stack_model(r.stack) == Seq::<SpecValue>::empty(),
    {
        Vm { pc: 0, stack: stack_new() }
    }

    /// Execute `chunk` from the machine's current state. The result — the
    /// values displayed at `Return` instructions, or the first runtime
    /// error — is exactly what [`spec_exec`] gives for the machine's
    /// starting state.
    pub fn interpret(&mut self, chunk: &Chunk) -> (r: Result<Vec<Value>, RuntimeError>)
        requires
            stack_model(old(self).stack).len() <= 256,
        ensures
            match r {
                Ok(out) => spec_exec(
                    chunk.bytecode@,
                    view_values(chunk.const_pool@),
                    old(self).pc as nat,
                    stack_model(old(self).stack),
                    Seq::<SpecValue>::empty(),
                ) == Ok::<Seq<SpecValue>, RuntimeError>(view_values(out@)),
                Err(e) => spec_exec(
                    chunk.bytecode@,
                    view_values(chunk.const_pool@),
                    old(self).pc as nat,
                    stack_model(old(self).stack),
                    Seq::<SpecValue>::empty(),
                ) == Err::<Seq<SpecValue>, RuntimeError>(e),
            },
    {
        let ghost code = chunk.bytecode@;
        let ghost pool = view_values(chunk.const_pool@);
        let ghost start = spec_exec(
            code,
            pool,
            old(self).pc as nat,
            stack_model(old(self).stack),
            Seq::<SpecValue>::empty(),
        );
        let mut out: Vec<Value> = Vec::new();

        proof {
            assert(view_values(out@) =~= Seq::<SpecValue>::empty());
        }

        while self.pc < chunk.bytecode.len()
            invariant
                code == chunk.bytecode@,
                pool == view_values(chunk.const_pool@),
                stack_model(self.stack).len() <= 256,
                start == spec_exec(
                    code,
                    pool,
                    old(self).pc as nat,
                    stack_model(old(self).stack),
                    Seq::<SpecValue>::empty(),
                ),
                spec_exec(code, pool, self.pc as nat, stack_model(self.stack), view_values(out@))
                    == start,
            decreases code.len() - self.pc,
        {
            let instr = chunk.bytecode[self.pc];
            let op = match Op::from_repr(instr) {
                Some(op) => op,
                None => {
                    return Err(RuntimeError::InvalidOpcode);
                },
            };
            match op {
                Op::OpConstant => {
                    if self.pc + 1 >= chunk.bytecode.len() {
                        return Err(RuntimeError::MissingOperand);
                    }
                    let idx = chunk.bytecode[self.pc + 1] as usize;
                    if idx >= chunk.const_pool.len() {
                        return Err(RuntimeError::BadConstantIndex);
                    }
                    let v = chunk.const_pool[idx].clone();
                    if !stack_push(&mut self.stack, v) {
                        return Err(RuntimeError::StackOverflow);
                    }
                    self.pc = self.pc + 2;
                },
                Op::OpTrue => {
                    if !stack_push(&mut self.stack, Value::Bool(true)) {
                        return Err(RuntimeError::StackOverflow);
                    }
                    self.pc = self.pc + 1;
                },
                Op::OpFalse => {
                    if !stack_push(&mut self.stack, Value::Bool(false)) {
                        return Err(RuntimeError::StackOverflow);
                    }
                    self.pc = self.pc + 1;
                },
                Op::OpNil => {
                    if !stack_push(&mut self.stack, Value::Nil) {
                        return Err(RuntimeError::StackOverflow);
                    }
                    self.pc = self.pc + 1;
                },
                Op::OpReturn => {
                    let v = match stack_pop(&mut self.stack) {
                        Some(v) => v,
                        None => {
                            return Err(RuntimeError::StackUnderflow);
                        },
                    };
                    let ghost out0 = out@;
                    out.push(v);
                    proof {
                        assert(view_values(out@) =~= view_values(out0).push(v@));
                    }
                    self.pc = self.pc + 1;
                },
                Op::OpNegate => {
                    let v = match stack_pop(&mut self.stack) {
                        Some(v) => v,
                        None => {
                            return Err(RuntimeError::StackUnderflow);
                        },
                    };
                    let x = match v {
                        Value::Number(x) => x,
                        _ => {
                            return Err(RuntimeError::OperandMustBeNumber);
                        },
                    };
                    let _pushed = stack_push(&mut self.stack, Value::Number(num_neg_exec(x)));
                    self.pc = self.pc + 1;
                },
                Op::OpNot => {
                    let v = match stack_pop(&mut self.stack) {
                        Some(v) => v,
                        None => {
                            return Err(RuntimeError::StackUnderflow);
                        },
                    };
                    let _pushed = stack_push(&mut self.stack, Value::Bool(v.is_falsy()));
                    self.pc = self.pc + 1;
                },
                Op::OpAdd => {
                    let b = match stack_pop(&mut self.stack) {
                        Some(v) => v,
                        None => {
                            return Err(RuntimeError::StackUnderflow);
                        },
                    };
                    let a = match stack_pop(&mut self.stack) {
                        Some(v) => v,
                        None => {
                            return Err(RuntimeError::StackUnderflow);
                        },
                    };
                    match (&a, &b) {
                        (Value::Number(x), Value::Number(y)) => {
                            let _pushed = stack_push(
                                &mut self.stack,
                                Value::Number(num_add_exec(*x, *y)),
                            );
                        },
                        (Value::Str(_), _) | (_, Value::Str(_)) => {
                            let mut text = a.display_text();
                            let tb = b.display_text();
                            text.append(tb.as_str());
                            let _pushed = stack_push(&mut self.stack, Value::Str(text));
                        },
                        _ => {
                            return Err(RuntimeError::InvalidOperandType);
                        },
                    }
                    self.pc = self.pc + 1;
                },
                Op::OpSubtract => {
                    let (x, y) = match self.pop_two_numbers() {
                        Ok(p) => p,
                        Err(e) => {
                            return Err(e);
                        },
                    };
                    let _pushed = stack_push(&mut self.stack, Value::Number(num_sub_exec(x, y)));
                    self.pc = self.pc + 1;
                },
                Op::OpMultiply => {
                    let (x, y) = match self.pop_two_numbers() {
                        Ok(p) => p,
                        Err(e) => {
                            return Err(e);
                        },
                    };
                    let _pushed = stack_push(&mut self.stack, Value::Number(num_mul_exec(x, y)));
                    self.pc = self.pc + 1;
                },
                Op::OpDivide => {
                    let (x, y) = match self.pop_two_numbers() {
                        Ok(p) => p,
                        Err(e) => {
                            return Err(e);
                        },
                    };
                    let _pushed = stack_push(&mut self.stack, Value::Number(num_div_exec(x, y)));
                    self.pc = self.pc + 1;
                },
                Op::OpEqual => {
                    let top = match stack_pop(&mut self.stack) {
                        Some(v) => v,
                        None => {
                            return Err(RuntimeError::StackUnderflow);
                        },
                    };
                    let sec = match stack_pop(&mut self.stack) {
                        Some(v) => v,
                        None => {
                            return Err(RuntimeError::StackUnderflow);
                        },
                    };
                    let _pushed = stack_push(&mut self.stack, Value::Bool(top.eq_value(&sec)));
                    self.pc = self.pc + 1;
                },
                Op::OpGreater => {
                    let (x, y) = match self.pop_two_numbers() {
                        Ok(p) => p,
                        Err(e) => {
                            return Err(e);
                        },
                    };
                    let _pushed = stack_push(&mut self.stack, Value::Bool(num_gt_exec(x, y)));
                    self.pc = self.pc + 1;
                },
                Op::OpLess => {
                    let (x, y) = match self.pop_two_numbers() {
                        Ok(p) => p,
                        Err(e) => {
                            return Err(e);
                        },
                    };
                    let _pushed = stack_push(&mut self.stack, Value::Bool(num_lt_exec(x, y)));
                    self.pc = self.pc + 1;
                },
            }
        }
        Ok(out)
    }

    /// Pop the two operands of a numeric binary instruction: the right
    /// operand sits on top of the left. Fails when fewer than two values are
    /// on the stack or either is not a number, leaving the error to the
    /// caller; the stack afterwards matters only on success.
    fn pop_two_numbers(&mut self) -> (r: Result<(u64, u64), RuntimeError>)
        ensures
            match r {
                Ok((x, y)) => {
                    &&& stack_model(old(self).stack).len() >= 2
                    &&& stack_model(old(self).stack).last() == SpecValue::Number(y)
                    &&& stack_model(old(self).stack)[stack_model(old(self).stack).len() - 2]
                        == SpecValue::Number(x)
                    &&& stack_model(final(self).stack) == stack_model(
                        old(self).stack,
                    ).drop_last().drop_last()
                    &&& final(self).pc == old(self).pc
                },
                Err(e) => {
                    &&& final(self).pc == old(self).pc
                    &&& (e == RuntimeError::StackUnderflow || e
                        == RuntimeError::OperandMustBeNumber)
                    &&& (e == RuntimeError::StackUnderflow <==> stack_model(old(self).stack).len() < 2)
                    &&& (stack_model(old(self).stack).len() >= 2 ==> (e
                        == RuntimeError::OperandMustBeNumber && !(stack_model(old(self).stack).last()
                        matches SpecValue::Number(_) && stack_model(old(self).stack)[stack_model(
                        old(self).stack,
                    ).len() - 2] matches SpecValue::Number(_))))
                },
            },
    {
        let b = match stack_pop(&mut self.stack) {
            Some(v) => v,
            None => {
                return Err(RuntimeError::StackUnderflow);
            },
        };
        let a = match stack_pop(&mut self.stack) {
            Some(v) => v,
            None => {
                return Err(RuntimeError::StackUnderflow);
            },
        };
        match (&a, &b) {
            (Value::Number(x), Value::Number(y)) => Ok((*x, *y)),
            _ => Err(RuntimeError::OperandMustBeNumber),
        }
    }
}

} // verus!
