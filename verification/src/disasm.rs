//! The disassembler: a diagnostic, per-instruction rendering of a chunk.
//!
//! Each instruction prints as a 4-digit zero-padded byte offset, the
//! opcode's name and — for `OpConstant` — the operand index and the
//! constant's display text. The format carries no compatibility guarantee;
//! what is proved of it is that it reproduces the opcode name and operand
//! index that were emitted (see [`lemma_constant_line_roundtrip`]).

use crate::lex::spec_is_digit;
use crate::value::{spec_display, view_values, SpecValue};
use crate::vm::{spec_op_from, spec_op_name, Chunk, Op, RuntimeError};
use vstd::prelude::*;
use vstd::string::{StrSliceExecFns, StringExecFns};

verus! {

/// The digit character for `d` (meaningful for `d` below ten).
pub open spec fn spec_digit(d: nat) -> char {
    if d == 0 {
        '0'
    } else if d == 1 {
        '1'
    } else if d == 2 {
        '2'
    } else if d == 3 {
        '3'
    } else if d == 4 {
        '4'
    } else if d == 5 {
        '5'
    } else if d == 6 {
        '6'
    } else if d == 7 {
        '7'
    } else if d == 8 {
        '8'
    } else {
        '9'
    }
}

/// The value of a digit character (meaningful for the ten digits).
pub open spec fn spec_digit_val(c: char) -> nat {
    if 48 <= c as u32 && c as u32 <= 57 {
        (c as u32 - 48) as nat
    } else {
        0
    }
}

/// The decimal numeral for `n`, most significant digit first.
pub open spec fn spec_dec(n: nat) -> Seq<char>
    decreases n,
{
    if n < 10 {
        seq![spec_digit(n)]
    } else {
        spec_dec(n / 10).push(spec_digit(n % 10))
    }
}

/// The number a digit string reads back as.
pub open spec fn spec_dec_val(s: Seq<char>) -> nat
    decreases s.len(),
{
    if s.len() == 0 {
        0
    } else {
        spec_dec_val(s.drop_last()) * 10 + spec_digit_val(s.last())
    }
}

/// Decimal rendering round-trips: the numeral for `n` is a nonempty digit
/// string that reads back as exactly `n`.
pub proof fn lemma_dec_roundtrip(n: nat)
    ensures
        spec_dec_val(spec_dec(n)) == n,
        spec_dec(n).len() >= 1,
        forall|i: int| 0 <= i < spec_dec(n).len() ==> spec_is_digit(#[trigger] spec_dec(n)[i]),
    decreases n,
{
    if n < 10 {
        assert(spec_dec(n).drop_last() =~= Seq::<char>::empty());
        assert(spec_dec_val(Seq::<char>::empty()) == 0);
        assert(spec_digit_val(spec_digit(n)) == n);
        assert(spec_dec_val(spec_dec(n)) == 0 * 10 + spec_digit_val(spec_dec(n).last()));
    } else {
        lemma_dec_roundtrip(n / 10);
        assert(spec_dec(n).drop_last() =~= spec_dec(n / 10));
        assert(spec_dec(n).last() == spec_digit(n % 10));
        assert(spec_digit_val(spec_digit(n % 10)) == n % 10);
        assert(spec_dec_val(spec_dec(n)) == (n / 10) * 10 + n % 10);
        assert((n / 10) * 10 + n % 10 == n) by (nonlinear_arith);
    }
}

/// `k` zero characters.
pub open spec fn spec_zeros(k: nat) -> Seq<char> {
    Seq::new(k, |i: int| '0')
}

/// The decimal numeral for `n`, zero-padded on the left to at least four
/// characters.
pub open spec fn spec_pad4(n: nat) -> Seq<char> {
    let d = spec_dec(n);
    if d.len() >= 4 {
        d
    } else {
        spec_zeros((4 - d.len()) as nat) + d
    }
}

/// The one-character string for digit `d`.
fn digit_str(d: u8) -> (r: &'static str)
    requires
        d < 10,
    ensures
        r@ == seq![spec_digit(d as nat)],
{
    proof {
        reveal_strlit("0");
        reveal_strlit("1");
        reveal_strlit("2");
        reveal_strlit("3");
        reveal_strlit("4");
        reveal_strlit("5");
        reveal_strlit("6");
        reveal_strlit("7");
        reveal_strlit("8");
        reveal_strlit("9");
    }
    let r = match d {
        0 => "0",
        1 => "1",
        2 => "2",
        3 => "3",
        4 => "4",
        5 => "5",
        6 => "6",
        7 => "7",
        8 => "8",
        _ => "9",
    };
    proof {
        assert(r@ =~= seq![spec_digit(d as nat)]);
    }
    r
}

/// Render `n` in decimal.
fn dec_string(n: usize) -> (r: String)
    ensures
        r@ == spec_dec(n as nat),
    decreases n,
{
    if n < 10 {
        String::from_str(digit_str(n as u8))
    } else {
        let mut s = dec_string(n / 10);
        s.append(digit_str((n % 10) as u8));
        proof {
            assert(s@ =~= spec_dec((n / 10) as nat).push(spec_digit((n % 10) as nat)));
        }
        s
    }
}

/// Render `n` in decimal, zero-padded to at least four characters.
fn pad4_string(n: usize) -> (r: String)
    ensures
        r@ == spec_pad4(n as nat),
{
    let d = dec_string(n);
    let dl = d.as_str().unicode_len();
    if dl >= 4 {
        d
    } else {
        let mut s = String::new();
        let mut k: usize = 0;
        proof {
            assert(s@ =~= spec_zeros(0));
        }
        while k < 4 - dl
            invariant
                dl == spec_dec(n as nat).len(),
                dl < 4,
                k <= 4 - dl,
                s@ == spec_zeros(k as nat),
            decreases 4 - dl - k,
        {
            s.append("0");
            proof {
                reveal_strlit("0");
                assert(s@ =~= spec_zeros((k + 1) as nat));
            }
            k = k + 1;
        }
        s.append(d.as_str());
        proof {
            assert(s@ =~= spec_pad4(n as nat));
        }
        s
    }
}

/// The text of one disassembled instruction: the zero-padded offset, a
/// space, the opcode name and — for `OpConstant`, whose operand pair gives
/// the pool index and the constant it names — the index and the constant's
/// display text, then a newline.
pub open spec fn spec_instr_line(offset: nat, op: Op, operand: Option<(u8, SpecValue)>) -> Seq<
    char,
> {
    let head = spec_pad4(offset) + " "@ + spec_op_name(op);
    match operand {
        None => head + "\n"@,
        Some((idx, v)) => head + "    "@ + spec_dec(idx as nat) + " '"@ + spec_display(v)
            + "'\n"@,
    }
}

/// The whole disassembly from byte offset `i` on: the concatenation of one
/// line per instruction, or the first malformed instruction's error.
pub open spec fn spec_disasm(code: Seq<u8>, pool: Seq<SpecValue>, i: nat) -> Result<
    Seq<char>,
    RuntimeError,
>
    decreases code.len() - i,
{
    if i >= code.len() {
        Ok(Seq::<char>::empty())
    } else {
        match spec_op_from(code[i as int]) {
            None => Err(RuntimeError::InvalidOpcode),
            Some(op) => {
                if op == Op::OpConstant {
                    if i + 1 >= code.len() {
                        Err(RuntimeError::MissingOperand)
                    } else if code[i as int + 1] as int >= pool.len() {
                        Err(RuntimeError::BadConstantIndex)
                    } else {
                        match spec_disasm(code, pool, i + 2) {
                            Err(e) => Err(e),
                            Ok(t) => Ok(
                                spec_instr_line(
                                    i,
                                    op,
                                    Some((code[i as int + 1], pool[code[i as int + 1] as int])),
                                ) + t,
                            ),
                        }
                    }
                } else {
                    match spec_disasm(code, pool, i + 1) {
                        Err(e) => Err(e),
                        Ok(t) => Ok(spec_instr_line(i, op, None) + t),
                    }
                }
            },
        }
    }
}

impl Chunk {
    /// Disassemble the chunk (see [`spec_disasm`]): one line per
    /// instruction, or the first malformed instruction's error.
    pub fn disassemble(&self) -> (r: Result<String, RuntimeError>)
        ensures
            match r {
                Ok(s) => spec_disasm(self.bytecode@, view_values(self.const_pool@), 0) == Ok::<
                    Seq<char>,
                    RuntimeError,
                >(s@),
                Err(e) => spec_disasm(self.bytecode@, view_values(self.const_pool@), 0) == Err::<
                    Seq<char>,
                    RuntimeError,
                >(e),
            },
    {
        let ghost code = self.bytecode@;
        let ghost pool = view_values(self.const_pool@);
        let mut s = String::new();
        let mut i: usize = 0;

        while i < self.bytecode.len()
            invariant
                code == self.bytecode@,
                pool == view_values(self.const_pool@),
                i <= code.len(),
                match spec_disasm(code, pool, i as nat) {
                    Ok(t) => spec_disasm(code, pool, 0) == Ok::<Seq<char>, RuntimeError>(s@ + t),
                    Err(e) => spec_disasm(code, pool, 0) == Err::<Seq<char>, RuntimeError>(e),
                },
            decreases code.len() - i,
        {
            let ghost s0 = s@;
            let b = self.bytecode[i];
            let op = match Op::from_repr(b) {
                Some(op) => op,
                None => {
                    return Err(RuntimeError::InvalidOpcode);
                },
            };
            let mut line = pad4_string(i);
            line.append(" ");
            line.append(op.name());
            match op {
                Op::OpConstant => {
                    if i + 1 >= self.bytecode.len() {
                        return Err(RuntimeError::MissingOperand);
                    }
                    let idx = self.bytecode[i + 1];
                    if (idx as usize) >= self.const_pool.len() {
                        return Err(RuntimeError::BadConstantIndex);
                    }
                    line.append("    ");
                    let numeral = dec_string(idx as usize);
                    line.append(numeral.as_str());
                    line.append(" '");
                    let text = self.const_pool[idx as usize].display_text();
                    line.append(text.as_str());
                    line.append("'\n");
                    proof {
                        assert(pool[idx as int] == self.const_pool@[idx as int]@);
                        assert(line@ =~= spec_instr_line(
                            i as nat,
                            op,
                            Some((idx, pool[idx as int])),
                        ));
                    }
                    s.append(line.as_str());
                    proof {
                        if let Ok(t) = spec_disasm(code, pool, (i + 2) as nat) {
                            assert(s0 + (line@ + t) =~= (s0 + line@) + t);
                        }
                    }
                    i = i + 2;
                },
                _ => {
                    line.append("\n");
                    proof {
                        assert(line@ =~= spec_instr_line(i as nat, op, None));
                    }
                    s.append(line.as_str());
                    proof {
                        if let Ok(t) = spec_disasm(code, pool, (i + 1) as nat) {
                            assert(s0 + (line@ + t) =~= (s0 + line@) + t);
                        }
                    }
                    i = i + 1;
                },
            }
        }
        proof {
            assert(s@ + Seq::<char>::empty() =~= s@);
        }
        Ok(s)
    }
}

/// Disassembling reproduces what was emitted: in the line printed for an
/// `OpConstant` instruction, the characters between the offset's trailing
/// space and the operand spacing spell the opcode's name, and the numeral
/// after that spacing reads back as exactly the operand index that was
/// emitted — whatever constant text follows.
pub proof fn lemma_constant_line_roundtrip(offset: nat, idx: u8, v: SpecValue)
    ensures
        ({
            let line = spec_instr_line(offset, Op::OpConstant, Some((idx, v)));
            let p = spec_pad4(offset).len() as int;
            let name = spec_op_name(Op::OpConstant);
            let nl = name.len() as int;
            let dl = spec_dec(idx as nat).len() as int;
            &&& line.subrange(p + 1, p + 1 + nl) == name
            &&& spec_dec_val(line.subrange(p + 1 + nl + 4, p + 1 + nl + 4 + dl)) == idx as nat
        }),
{
    lemma_dec_roundtrip(idx as nat);
    reveal_strlit(" ");
    reveal_strlit("    ");
    reveal_strlit(" '");
    reveal_strlit("'\n");
    let line = spec_instr_line(offset, Op::OpConstant, Some((idx, v)));
    let p = spec_pad4(offset).len() as int;
    let name = spec_op_name(Op::OpConstant);
    let nl = name.len() as int;
    let dl = spec_dec(idx as nat).len() as int;
    assert(line.subrange(p + 1, p + 1 + nl) =~= name);
    assert(line.subrange(p + 1 + nl + 4, p + 1 + nl + 4 + dl) =~= spec_dec(idx as nat));
}

} // verus!
