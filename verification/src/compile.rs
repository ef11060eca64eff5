//! The compiler: a two-token-lookahead, precedence-climbing parser that
//! turns a token stream directly into bytecode and a constant pool.
//!
//! The whole compilation is specified by the spec functions below
//! ([`spec_compile_st`] and the handlers it reaches); the executable
//! [`Compiler`] is proved to return exactly what they describe.

use crate::lex::{view_tokens, SpecToken, Token, TokenType};
use crate::num::{num_of_text, num_of_text_exec};
use crate::value::{view_values, SpecValue, Value};
use crate::vm::{lemma_seg_concat, lemma_seg_depth, lemma_seg_pool, lemma_seg_returns_concat,
    lemma_wf_code_runs, seg_effect, seg_returns, spec_exec, spec_op_code, Op, RuntimeError};
use vstd::prelude::*;
use vstd::string::StrSliceExecFns;

verus! {

/// A compile-time failure: the source line it was noticed on, and its kind.
#[derive(Debug, Clone, Copy, PartialEq, Eq, Structural)]
pub struct CompileError {
    pub line: usize,
    pub kind: CompileErrorKind,
}

/// The kinds of compile-time failure.
#[derive(Debug, Clone, Copy, PartialEq, Eq, Structural)]
pub enum CompileErrorKind {
    /// A token with no prefix rule stood where an expression had to begin.
    ExpectedExpression,
    /// A grouping was not closed by `)`.
    ExpectedRightParen,
    /// A 257th constant would not fit in the pool.
    ConstPoolFull,
    /// A numeric literal whose text is not a decimal numeral.
    BadNumberLiteral,
    /// Tokens other than the end-of-input sentinel follow the expression.
    TrailingInput,
    /// The token stream ran out where another token was needed.
    UnexpectedEnd,
}

/// The precedence levels, a strict total order. Only used as a comparison
/// threshold (see [`spec_prec_val`]), never stored per value.
#[derive(Debug, Clone, Copy, PartialEq, Eq, Structural)]
pub enum Precedence {
    Null,
    Assignment,
    Or,
    And,
    Equality,
    Comparison,
    Term,
    Factor,
    Unary,
    Call,
    Primary,
}

/// The rank of a precedence level in the total order.
pub open spec fn spec_prec_val(p: Precedence) -> nat {
    match p {
        Precedence::Null => 0,
        Precedence::Assignment => 1,
        Precedence::Or => 2,
        Precedence::And => 3,
        Precedence::Equality => 4,
        Precedence::Comparison => 5,
        Precedence::Term => 6,
        Precedence::Factor => 7,
        Precedence::Unary => 8,
        Precedence::Call => 9,
        Precedence::Primary => 10,
    }
}

/// The next-higher precedence level. The table's infix precedences stop at
/// `Factor`, so the saturation at `Primary` is never reached from there.
pub open spec fn spec_prec_next(p: Precedence) -> Precedence {
    match p {
        Precedence::Null => Precedence::Assignment,
        Precedence::Assignment => Precedence::Or,
        Precedence::Or => Precedence::And,
        Precedence::And => Precedence::Equality,
        Precedence::Equality => Precedence::Comparison,
        Precedence::Comparison => Precedence::Term,
        Precedence::Term => Precedence::Factor,
        Precedence::Factor => Precedence::Unary,
        Precedence::Unary => Precedence::Call,
        Precedence::Call => Precedence::Primary,
        Precedence::Primary => Precedence::Primary,
    }
}

/// The rank of a precedence level.
fn prec_value(p: Precedence) -> (r: u8)
    ensures
        r as nat == spec_prec_val(p),
{
    match p {
        Precedence::Null => 0,
        Precedence::Assignment => 1,
        Precedence::Or => 2,
        Precedence::And => 3,
        Precedence::Equality => 4,
        Precedence::Comparison => 5,
        Precedence::Term => 6,
        Precedence::Factor => 7,
        Precedence::Unary => 8,
        Precedence::Call => 9,
        Precedence::Primary => 10,
    }
}

/// The next-higher precedence level.
fn prec_next(p: Precedence) -> (r: Precedence)
    ensures
        r == spec_prec_next(p),
{
    match p {
        Precedence::Null => Precedence::Assignment,
        Precedence::Assignment => Precedence::Or,
        Precedence::Or => Precedence::And,
        Precedence::And => Precedence::Equality,
        Precedence::Equality => Precedence::Comparison,
        Precedence::Comparison => Precedence::Term,
        Precedence::Term => Precedence::Factor,
        Precedence::Factor => Precedence::Unary,
        Precedence::Unary => Precedence::Call,
        Precedence::Call => Precedence::Primary,
        Precedence::Primary => Precedence::Primary,
    }
}

/// What a handler slot of the parse-rule table holds: an explicit no-rule
/// marker, or the tag of the handler to run (dispatched by exhaustive
/// matching, never by comparing function addresses).
#[derive(Debug, Clone, Copy, PartialEq, Eq, Structural)]
pub enum Handler {
    HNone,
    HGrouping,
    HUnary,
    HBinary,
    HNumber,
    HString,
    HLiteral,
}

/// One row of the parse-rule table.
#[derive(Debug, Clone, Copy, PartialEq, Eq, Structural)]
pub struct ParseRule {
    pub prefix: Handler,
    pub infix: Handler,
    pub prec: Precedence,
}

/// The parse-rule table: for each token kind, its prefix handler, its infix
/// handler, and its infix precedence. Total: every kind without a rule maps
/// to the explicit no-rule row.
pub open spec fn spec_rule(kind: TokenType) -> ParseRule {
    match kind {
        TokenType::LeftParen => ParseRule {
            prefix: Handler::HGrouping,
            infix: Handler::HNone,
            prec: Precedence::Null,
        },
        TokenType::Minus => ParseRule {
            prefix: Handler::HUnary,
            infix: Handler::HBinary,
            prec: Precedence::Term,
        },
        TokenType::Plus => ParseRule {
            prefix: Handler::HNone,
            infix: Handler::HBinary,
            prec: Precedence::Term,
        },
        TokenType::Slash => ParseRule {
            prefix: Handler::HNone,
            infix: Handler::HBinary,
            prec: Precedence::Factor,
        },
        TokenType::Star => ParseRule {
            prefix: Handler::HNone,
            infix: Handler::HBinary,
            prec: Precedence::Factor,
        },
        TokenType::Number => ParseRule {
            prefix: Handler::HNumber,
            infix: Handler::HNone,
            prec: Precedence::Null,
        },
        TokenType::True => ParseRule {
            prefix: Handler::HLiteral,
            infix: Handler::HNone,
            prec: Precedence::Null,
        },
        TokenType::False => ParseRule {
            prefix: Handler::HLiteral,
            infix: Handler::HNone,
            prec: Precedence::Null,
        },
        TokenType::Nil => ParseRule {
            prefix: Handler::HLiteral,
            infix: Handler::HNone,
            prec: Precedence::Null,
        },
        TokenType::Bang => ParseRule {
            prefix: Handler::HUnary,
            infix: Handler::HNone,
            prec: Precedence::Null,
        },
        TokenType::BangEqual => ParseRule {
            prefix: Handler::HNone,
            infix: Handler::HBinary,
            prec: Precedence::Equality,
        },
        TokenType::EqualEqual => ParseRule {
            prefix: Handler::HNone,
            infix: Handler::HBinary,
            prec: Precedence::Equality,
        },
        TokenType::Greater => ParseRule {
            prefix: Handler::HNone,
            infix: Handler::HBinary,
            prec: Precedence::Comparison,
        },
        TokenType::GreaterEqual => ParseRule {
            prefix: Handler::HNone,
            infix: Handler::HBinary,
            prec: Precedence::Comparison,
        },
        TokenType::Less => ParseRule {
            prefix: Handler::HNone,
            infix: Handler::HBinary,
            prec: Precedence::Comparison,
        },
        TokenType::LessEqual => ParseRule {
            prefix: Handler::HNone,
            infix: Handler::HBinary,
            prec: Precedence::Comparison,
        },
        TokenType::Str => ParseRule {
            prefix: Handler::HString,
            infix: Handler::HNone,
            prec: Precedence::Null,
        },
        _ => ParseRule { prefix: Handler::HNone, infix: Handler::HNone, prec: Precedence::Null },
    }
}

/// Look a token kind up in the parse-rule table.
fn get_rule(kind: TokenType) -> (r: ParseRule)
    ensures
        r == spec_rule(kind),
{
    match kind {
        TokenType::LeftParen => ParseRule {
            prefix: Handler::HGrouping,
            infix: Handler::HNone,
            prec: Precedence::Null,
        },
        TokenType::Minus => ParseRule {
            prefix: Handler::HUnary,
            infix: Handler::HBinary,
            prec: Precedence::Term,
        },
        TokenType::Plus => ParseRule {
            prefix: Handler::HNone,
            infix: Handler::HBinary,
            prec: Precedence::Term,
        },
        TokenType::Slash => ParseRule {
            prefix: Handler::HNone,
            infix: Handler::HBinary,
            prec: Precedence::Factor,
        },
        TokenType::Star => ParseRule {
            prefix: Handler::HNone,
            infix: Handler::HBinary,
            prec: Precedence::Factor,
        },
        TokenType::Number => ParseRule {
            prefix: Handler::HNumber,
            infix: Handler::HNone,
            prec: Precedence::Null,
        },
        TokenType::True => ParseRule {
            prefix: Handler::HLiteral,
            infix: Handler::HNone,
            prec: Precedence::Null,
        },
        TokenType::False => ParseRule {
            prefix: Handler::HLiteral,
            infix: Handler::HNone,
            prec: Precedence::Null,
        },
        TokenType::Nil => ParseRule {
            prefix: Handler::HLiteral,
            infix: Handler::HNone,
            prec: Precedence::Null,
        },
        TokenType::Bang => ParseRule {
            prefix: Handler::HUnary,
            infix: Handler::HNone,
            prec: Precedence::Null,
        },
        TokenType::BangEqual => ParseRule {
            prefix: Handler::HNone,
            infix: Handler::HBinary,
            prec: Precedence::Equality,
        },
        TokenType::EqualEqual => ParseRule {
            prefix: Handler::HNone,
            infix: Handler::HBinary,
            prec: Precedence::Equality,
        },
        TokenType::Greater => ParseRule {
            prefix: Handler::HNone,
            infix: Handler::HBinary,
            prec: Precedence::Comparison,
        },
        TokenType::GreaterEqual => ParseRule {
            prefix: Handler::HNone,
            infix: Handler::HBinary,
            prec: Precedence::Comparison,
        },
        TokenType::Less => ParseRule {
            prefix: Handler::HNone,
            infix: Handler::HBinary,
            prec: Precedence::Comparison,
        },
        TokenType::LessEqual => ParseRule {
            prefix: Handler::HNone,
            infix: Handler::HBinary,
            prec: Precedence::Comparison,
        },
        TokenType::Str => ParseRule {
            prefix: Handler::HString,
            infix: Handler::HNone,
            prec: Precedence::Null,
        },
        _ => ParseRule { prefix: Handler::HNone, infix: Handler::HNone, prec: Precedence::Null },
    }
}

/// The opcode a binary operator token emits (the inverted comparisons emit
/// their positive counterpart, followed by `OpNot`: see
/// [`spec_negated_cmp`]).
pub open spec fn spec_binary_op(kind: TokenType) -> Option<Op> {
    match kind {
        TokenType::Plus => Some(Op::OpAdd),
        TokenType::Minus => Some(Op::OpSubtract),
        TokenType::Star => Some(Op::OpMultiply),
        TokenType::Slash => Some(Op::OpDivide),
        TokenType::BangEqual => Some(Op::OpEqual),
        TokenType::EqualEqual => Some(Op::OpEqual),
        TokenType::Greater => Some(Op::OpGreater),
        TokenType::LessEqual => Some(Op::OpGreater),
        TokenType::Less => Some(Op::OpLess),
        TokenType::GreaterEqual => Some(Op::OpLess),
        _ => None,
    }
}

/// Whether a binary operator is one of the inverted comparisons (`!=`, `>=`,
/// `<=`), which are decomposed into the positive opcode followed by `OpNot`.
pub open spec fn spec_negated_cmp(kind: TokenType) -> bool {
    kind == TokenType::BangEqual || kind == TokenType::GreaterEqual || kind
        == TokenType::LessEqual
}

/// The parser cursor and the output built so far: the mathematical state of
/// a compilation.
#[verifier::ext_equal]
pub ghost struct CSt {
    /// Index of the next token to read.
    pub pos: nat,
    /// The token most recently consumed.
    pub previous: SpecToken,
    /// The lookahead token.
    pub current: SpecToken,
    /// The bytecode emitted so far.
    pub code: Seq<u8>,
    /// The constant pool built so far.
    pub pool: Seq<SpecValue>,
}

/// The sentinel token the cursor starts on.
pub open spec fn spec_blank_token() -> SpecToken {
    SpecToken { kind: TokenType::Blank, line: 0, text: Seq::<char>::empty() }
}

/// The state a fresh compiler starts in.
pub open spec fn spec_init_st() -> CSt {
    CSt {
        pos: 0,
        previous: spec_blank_token(),
        current: spec_blank_token(),
        code: Seq::<u8>::empty(),
        pool: Seq::<SpecValue>::empty(),
    }
}

/// How many tokens are left to read (zero when the cursor has run out).
pub open spec fn rem(tokens: Seq<SpecToken>, st: CSt) -> nat {
    if st.pos <= tokens.len() {
        (tokens.len() - st.pos) as nat
    } else {
        0
    }
}

/// Append one instruction byte.
pub open spec fn spec_emit(st: CSt, b: u8) -> CSt {
    CSt { code: st.code.push(b), ..st }
}

/// Shift the lookahead into `previous` and read the next token, or fail when
/// the stream has run out.
pub open spec fn spec_advance(tokens: Seq<SpecToken>, st: CSt) -> Result<CSt, CompileError> {
    if st.pos < tokens.len() {
        Ok(CSt { pos: st.pos + 1, previous: st.current, current: tokens[st.pos as int], ..st })
    } else {
        Err(
            CompileError {
                line: st.current.line as usize,
                kind: CompileErrorKind::UnexpectedEnd,
            },
        )
    }
}

/// The `number` prefix handler: parse the previous token's text into a
/// number, append it to the pool (if the pool is not already full), and emit
/// `OpConstant` with the new entry's index.
pub open spec fn spec_number(st: CSt) -> Result<CSt, CompileError> {
    match num_of_text(st.previous.text) {
        None => Err(
            CompileError {
                line: st.previous.line as usize,
                kind: CompileErrorKind::BadNumberLiteral,
            },
        ),
        Some(bits) => {
            if st.pool.len() >= 256 {
                Err(
                    CompileError {
                        line: st.previous.line as usize,
                        kind: CompileErrorKind::ConstPoolFull,
                    },
                )
            } else {
                Ok(
                    CSt {
                        code: st.code.push(spec_op_code(Op::OpConstant)).push(st.pool.len() as u8),
                        pool: st.pool.push(SpecValue::Number(bits)),
                        ..st
                    },
                )
            }
        },
    }
}

/// The `string` prefix handler: strip the previous token's enclosing quotes,
/// append the string to the pool (if it is not already full), and emit
/// `OpConstant` with the new entry's index.
pub open spec fn spec_string(st: CSt) -> Result<CSt, CompileError> {
    let text = st.previous.text;
    let inner = if text.len() >= 2 {
        text.subrange(1, text.len() - 1)
    } else {
        text
    };
    if st.pool.len() >= 256 {
        Err(
            CompileError {
                line: st.previous.line as usize,
                kind: CompileErrorKind::ConstPoolFull,
            },
        )
    } else {
        Ok(
            CSt {
                code: st.code.push(spec_op_code(Op::OpConstant)).push(st.pool.len() as u8),
                pool: st.pool.push(SpecValue::Str(inner)),
                ..st
            },
        )
    }
}

/// The `literal` prefix handler: `true`, `false` and `nil` emit their
/// zero-operand opcode directly, using no pool entry.
pub open spec fn spec_literal(st: CSt) -> Result<CSt, CompileError> {
    match st.previous.kind {
        TokenType::True => Ok(spec_emit(st, spec_op_code(Op::OpTrue))),
        TokenType::False => Ok(spec_emit(st, spec_op_code(Op::OpFalse))),
        TokenType::Nil => Ok(spec_emit(st, spec_op_code(Op::OpNil))),
        _ => Err(
            CompileError {
                line: st.previous.line as usize,
                kind: CompileErrorKind::ExpectedExpression,
            },
        ),
    }
}

/// The core of the parser: consume one token, run its prefix handler, then
/// fold in every following operator whose precedence is at least `prec`.
///
/// The bound `st.pos < st2.pos <= tokens.len()` under which the infix loop
/// is entered always holds (a prefix handler starts after `spec_advance`);
/// it makes the recursion visibly bounded.
pub open spec fn spec_parse_precedence(
    tokens: Seq<SpecToken>,
    st: CSt,
    prec: Precedence,
) -> Result<CSt, CompileError>
    decreases rem(tokens, st), 0nat,
{
    match spec_advance(tokens, st) {
        Err(e) => Err(e),
        Ok(st1) => {
            let rule = spec_rule(st1.previous.kind);
            let r2 = match rule.prefix {
                Handler::HNone => Err(
                    CompileError {
                        line: st1.current.line as usize,
                        kind: CompileErrorKind::ExpectedExpression,
                    },
                ),
                Handler::HGrouping => spec_grouping(tokens, st1),
                Handler::HUnary => spec_unary(tokens, st1),
                Handler::HNumber => spec_number(st1),
                Handler::HString => spec_string(st1),
                Handler::HLiteral => spec_literal(st1),
                Handler::HBinary => Err(
                    CompileError {
                        line: st1.current.line as usize,
                        kind: CompileErrorKind::ExpectedExpression,
                    },
                ),
            };
            match r2 {
                Err(e) => Err(e),
                Ok(st2) => {
                    if st.pos < st2.pos <= tokens.len() {
                        spec_infix_loop(tokens, st2, prec)
                    } else {
                        Ok(st2)
                    }
                },
            }
        },
    }
}

/// A complete expression: anything at assignment precedence or above.
pub open spec fn spec_expression(tokens: Seq<SpecToken>, st: CSt) -> Result<CSt, CompileError>
    decreases rem(tokens, st), 1nat,
{
    spec_parse_precedence(tokens, st, Precedence::Assignment)
}

/// The `grouping` prefix handler: a parenthesized expression, whose closing
/// `)` must be the lookahead afterwards and is then consumed.
pub open spec fn spec_grouping(tokens: Seq<SpecToken>, st: CSt) -> Result<CSt, CompileError>
    decreases rem(tokens, st), 2nat,
{
    match spec_expression(tokens, st) {
        Err(e) => Err(e),
        Ok(st1) => {
            if st1.current.kind == TokenType::RightParen {
                spec_advance(tokens, st1)
            } else {
                Err(
                    CompileError {
                        line: st1.current.line as usize,
                        kind: CompileErrorKind::ExpectedRightParen,
                    },
                )
            }
        },
    }
}

/// The `unary` prefix handler: parse the operand at unary precedence (so
/// unary binds tighter than any binary operator), then emit the operator.
pub open spec fn spec_unary(tokens: Seq<SpecToken>, st: CSt) -> Result<CSt, CompileError>
    decreases rem(tokens, st), 2nat,
{
    let kind = st.previous.kind;
    match spec_parse_precedence(tokens, st, Precedence::Unary) {
        Err(e) => Err(e),
        Ok(st1) => match kind {
            TokenType::Minus => Ok(spec_emit(st1, spec_op_code(Op::OpNegate))),
            TokenType::Bang => Ok(spec_emit(st1, spec_op_code(Op::OpNot))),
            _ => Err(
                CompileError {
                    line: st1.current.line as usize,
                    kind: CompileErrorKind::ExpectedExpression,
                },
            ),
        },
    }
}

/// The `binary` infix handler: parse the right operand one level above the
/// operator's own precedence (which makes equal-precedence chains fold to
/// the left), then emit the operator's opcode — for `!=`, `>=` and `<=` the
/// positive counterpart followed by `OpNot`.
pub open spec fn spec_binary(tokens: Seq<SpecToken>, st: CSt) -> Result<CSt, CompileError>
    decreases rem(tokens, st), 2nat,
{
    let kind = st.previous.kind;
    let rule = spec_rule(kind);
    match spec_parse_precedence(tokens, st, spec_prec_next(rule.prec)) {
        Err(e) => Err(e),
        Ok(st1) => match spec_binary_op(kind) {
            Some(op) => {
                let st2 = spec_emit(st1, spec_op_code(op));
                Ok(
                    if spec_negated_cmp(kind) {
                        spec_emit(st2, spec_op_code(Op::OpNot))
                    } else {
                        st2
                    },
                )
            },
            None => Err(
                CompileError {
                    line: st1.current.line as usize,
                    kind: CompileErrorKind::ExpectedExpression,
                },
            ),
        },
    }
}

/// The infix loop of [`spec_parse_precedence`]: while the lookahead's table
/// precedence is at least `prec`, consume it and run its infix handler.
pub open spec fn spec_infix_loop(
    tokens: Seq<SpecToken>,
    st: CSt,
    prec: Precedence,
) -> Result<CSt, CompileError>
    decreases rem(tokens, st), 3nat,
{
    let rule = spec_rule(st.current.kind);
    if spec_prec_val(prec) <= spec_prec_val(rule.prec) {
        match spec_advance(tokens, st) {
            Err(e) => Err(e),
            Ok(st1) => {
                let r2 = match rule.infix {
                    Handler::HBinary => spec_binary(tokens, st1),
                    _ => Err(
                        CompileError {
                            line: st1.current.line as usize,
                            kind: CompileErrorKind::ExpectedExpression,
                        },
                    ),
                };
                match r2 {
                    Err(e) => Err(e),
                    Ok(st2) => {
                        if st.pos < st2.pos <= tokens.len() {
                            spec_infix_loop(tokens, st2, prec)
                        } else {
                            Ok(st2)
                        }
                    },
                }
            },
        }
    } else {
        Ok(st)
    }
}

/// A whole compilation from state `st`: prime the lookahead, parse one
/// complete expression, and require the lookahead to be the end-of-input
/// sentinel afterwards.
pub open spec fn spec_compile_st(tokens: Seq<SpecToken>, st: CSt) -> Result<CSt, CompileError> {
    match spec_advance(tokens, st) {
        Err(e) => Err(e),
        Ok(st1) => match spec_expression(tokens, st1) {
            Err(e) => Err(e),
            Ok(st2) => {
                if st2.current.kind == TokenType::Eof {
                    Ok(st2)
                } else {
                    Err(
                        CompileError {
                            line: st2.current.line as usize,
                            kind: CompileErrorKind::TrailingInput,
                        },
                    )
                }
            },
        },
    }
}

/// What compiling a fresh token stream yields.
pub open spec fn spec_compile(tokens: Seq<SpecToken>) -> Result<CSt, CompileError> {
    spec_compile_st(tokens, spec_init_st())
}

/// The compiler: the token stream, the two-token lookahead cursor, and the
/// bytecode and constant pool being built.
pub struct Compiler {
    pub tokens: Vec<Token>,
    pub pos: usize,
    pub previous: Token,
    pub current: Token,
    pub bytecode: Vec<u8>,
    pub const_pool: Vec<Value>,
}

impl Compiler {
    /// The models of the tokens this compiler reads.
    pub open spec fn toks(self) -> Seq<SpecToken> {
        view_tokens(self.tokens@)
    }

    /// The mathematical state of the compilation.
    pub open spec fn st(self) -> CSt {
        CSt {
            pos: self.pos as nat,
            previous: self.previous@,
            current: self.current@,
            code: self.bytecode@,
            pool: view_values(self.const_pool@),
        }
    }

    /// The cursor never points past the end of the token stream.
    pub open spec fn wf(self) -> bool {
        self.pos <= self.tokens@.len()
    }

    /// A compiler over `tokens`, with the cursor primed on blank sentinels
    /// and nothing emitted yet.
    pub fn new(tokens: Vec<Token>) -> (r: Compiler)
        ensures
            r.wf(),
            r.toks() == view_tokens(tokens@),
            r.st() == spec_init_st(),
    {
        let r = Compiler {
            tokens,
            pos: 0,
            previous: Token { kind: TokenType::Blank, line_num: 0, content: String::new() },
            current: Token { kind: TokenType::Blank, line_num: 0, content: String::new() },
            bytecode: Vec::new(),
            const_pool: Vec::new(),
        };
        proof {
            assert(r.st() =~= spec_init_st());
        }
        r
    }

    /// Compile the token stream: prime the lookahead, parse one complete
    /// expression, and require the end-of-input sentinel afterwards. On
    /// success the emitted bytecode and constant pool are exactly what
    /// [`spec_compile_st`] describes; on failure the error is exactly its.
    pub fn compile(&mut self) -> (r: Result<(), CompileError>)
        requires
            old(self).wf(),
        ensures
            final(self).wf(),
            final(self).toks() == old(self).toks(),
            match spec_compile_st(old(self).toks(), old(self).st()) {
                Ok(s) => r is Ok && final(self).st() == s && final(self).bytecode@ == s.code
                    && view_values(final(self).const_pool@) == s.pool,
                Err(e) => r == Err::<(), CompileError>(e),
            },
    {
        match self.advance() {
            Err(e) => {
                return Err(e);
            },
            Ok(()) => {},
        }
        match self.expression() {
            Err(e) => {
                return Err(e);
            },
            Ok(()) => {},
        }
        if self.current.kind == TokenType::Eof {
            Ok(())
        } else {
            Err(CompileError { line: self.current.line_num, kind: CompileErrorKind::TrailingInput })
        }
    }

    /// Shift the lookahead into `previous` and read the next token.
    fn advance(&mut self) -> (r: Result<(), CompileError>)
        requires
            old(self).wf(),
        ensures
            final(self).wf(),
            final(self).toks() == old(self).toks(),
            match spec_advance(old(self).toks(), old(self).st()) {
                Ok(s) => r is Ok && final(self).st() == s,
                Err(e) => r == Err::<(), CompileError>(e) && final(self).st() == old(self).st(),
            },
    {
        if self.pos < self.tokens.len() {
            let t = self.tokens[self.pos].clone();
            let cur = self.current.clone();
            self.previous = cur;
            self.current = t;
            self.pos = self.pos + 1;
            Ok(())
        } else {
            Err(CompileError { line: self.current.line_num, kind: CompileErrorKind::UnexpectedEnd })
        }
    }

    /// Parse a complete expression (see [`spec_expression`]).
    fn expression(&mut self) -> (r: Result<(), CompileError>)
        requires
            old(self).wf(),
        ensures
            final(self).wf(),
            final(self).toks() == old(self).toks(),
            match spec_expression(old(self).toks(), old(self).st()) {
                Ok(s) => r is Ok && final(self).st() == s,
                Err(e) => r == Err::<(), CompileError>(e),
            },
            r is Ok ==> old(self).st().pos < final(self).st().pos,
        decreases rem(self.toks(), self.st()), 1nat,
    {
        self.parse_precedence(Precedence::Assignment)
    }

    /// Consume one token, run its prefix handler, then fold in the following
    /// operators of at-least-`prec` precedence (see
    /// [`spec_parse_precedence`]).
    fn parse_precedence(&mut self, prec: Precedence) -> (r: Result<(), CompileError>)
        requires
            old(self).wf(),
        ensures
            final(self).wf(),
            final(self).toks() == old(self).toks(),
            match spec_parse_precedence(old(self).toks(), old(self).st(), prec) {
                Ok(s) => r is Ok && final(self).st() == s,
                Err(e) => r == Err::<(), CompileError>(e),
            },
            r is Ok ==> old(self).st().pos < final(self).st().pos,
        decreases rem(self.toks(), self.st()), 0nat,
    {
        match self.advance() {
            Err(e) => {
                return Err(e);
            },
            Ok(()) => {},
        }
        let rule = get_rule(self.previous.kind);
        match rule.prefix {
            Handler::HNone => {
                return Err(
                    CompileError {
                        line: self.current.line_num,
                        kind: CompileErrorKind::ExpectedExpression,
                    },
                );
            },
            Handler::HGrouping => {
                match self.grouping() {
                    Err(e) => {
                        return Err(e);
                    },
                    Ok(()) => {},
                }
            },
            Handler::HUnary => {
                match self.unary() {
                    Err(e) => {
                        return Err(e);
                    },
                    Ok(()) => {},
                }
            },
            Handler::HNumber => {
                match self.number() {
                    Err(e) => {
                        return Err(e);
                    },
                    Ok(()) => {},
                }
            },
            Handler::HString => {
                match self.string() {
                    Err(e) => {
                        return Err(e);
                    },
                    Ok(()) => {},
                }
            },
            Handler::HLiteral => {
                match self.literal() {
                    Err(e) => {
                        return Err(e);
                    },
                    Ok(()) => {},
                }
            },
            Handler::HBinary => {
                return Err(
                    CompileError {
                        line: self.current.line_num,
                        kind: CompileErrorKind::ExpectedExpression,
                    },
                );
            },
        }
        self.infix_loop(prec)
    }

    /// While the lookahead's table precedence is at least `prec`, consume it
    /// and run its infix handler (see [`spec_infix_loop`]).
    fn infix_loop(&mut self, prec: Precedence) -> (r: Result<(), CompileError>)
        requires
            old(self).wf(),
        ensures
            final(self).wf(),
            final(self).toks() == old(self).toks(),
            match spec_infix_loop(old(self).toks(), old(self).st(), prec) {
                Ok(s) => r is Ok && final(self).st() == s,
                Err(e) => r == Err::<(), CompileError>(e),
            },
            r is Ok ==> old(self).st().pos <= final(self).st().pos,
        decreases rem(self.toks(), self.st()), 3nat,
    {
        let rule = get_rule(self.current.kind);
        if prec_value(prec) <= prec_value(rule.prec) {
            match self.advance() {
                Err(e) => {
                    return Err(e);
                },
                Ok(()) => {},
            }
            match rule.infix {
                Handler::HBinary => {
                    match self.binary() {
                        Err(e) => {
                            return Err(e);
                        },
                        Ok(()) => {},
                    }
                },
                _ => {
                    return Err(
                        CompileError {
                            line: self.current.line_num,
                            kind: CompileErrorKind::ExpectedExpression,
                        },
                    );
                },
            }
            self.infix_loop(prec)
        } else {
            Ok(())
        }
    }

    /// The `grouping` prefix handler (see [`spec_grouping`]).
    fn grouping(&mut self) -> (r: Result<(), CompileError>)
        requires
            old(self).wf(),
        ensures
            final(self).wf(),
            final(self).toks() == old(self).toks(),
            match spec_grouping(old(self).toks(), old(self).st()) {
                Ok(s) => r is Ok && final(self).st() == s,
                Err(e) => r == Err::<(), CompileError>(e),
            },
            r is Ok ==> old(self).st().pos <= final(self).st().pos,
        decreases rem(self.toks(), self.st()), 2nat,
    {
        match self.expression() {
            Err(e) => {
                return Err(e);
            },
            Ok(()) => {},
        }
        if self.current.kind == TokenType::RightParen {
            self.advance()
        } else {
            Err(
                CompileError {
                    line: self.current.line_num,
                    kind: CompileErrorKind::ExpectedRightParen,
                },
            )
        }
    }

    /// The `unary` prefix handler (see [`spec_unary`]).
    fn unary(&mut self) -> (r: Result<(), CompileError>)
        requires
            old(self).wf(),
        ensures
            final(self).wf(),
            final(self).toks() == old(self).toks(),
            match spec_unary(old(self).toks(), old(self).st()) {
                Ok(s) => r is Ok && final(self).st() == s,
                Err(e) => r == Err::<(), CompileError>(e),
            },
            r is Ok ==> old(self).st().pos <= final(self).st().pos,
        decreases rem(self.toks(), self.st()), 2nat,
    {
        let op_kind = self.previous.kind;
        match self.parse_precedence(Precedence::Unary) {
            Err(e) => {
                return Err(e);
            },
            Ok(()) => {},
        }
        match op_kind {
            TokenType::Minus => {
                self.bytecode.push(Op::OpNegate.to_repr());
                Ok(())
            },
            TokenType::Bang => {
                self.bytecode.push(Op::OpNot.to_repr());
                Ok(())
            },
            _ => Err(
                CompileError {
                    line: self.current.line_num,
                    kind: CompileErrorKind::ExpectedExpression,
                },
            ),
        }
    }

    /// The `binary` infix handler (see [`spec_binary`]).
    fn binary(&mut self) -> (r: Result<(), CompileError>)
        requires
            old(self).wf(),
        ensures
            final(self).wf(),
            final(self).toks() == old(self).toks(),
            match spec_binary(old(self).toks(), old(self).st()) {
                Ok(s) => r is Ok && final(self).st() == s,
                Err(e) => r == Err::<(), CompileError>(e),
            },
            r is Ok ==> old(self).st().pos <= final(self).st().pos,
        decreases rem(self.toks(), self.st()), 2nat,
    {
        let op_kind = self.previous.kind;
        let rule = get_rule(op_kind);
        match self.parse_precedence(prec_next(rule.prec)) {
            Err(e) => {
                return Err(e);
            },
            Ok(()) => {},
        }
        let op = match op_kind {
            TokenType::Plus => Op::OpAdd,
            TokenType::Minus => Op::OpSubtract,
            TokenType::Star => Op::OpMultiply,
            TokenType::Slash => Op::OpDivide,
            TokenType::BangEqual | TokenType::EqualEqual => Op::OpEqual,
            TokenType::Greater | TokenType::LessEqual => Op::OpGreater,
            TokenType::Less | TokenType::GreaterEqual => Op::OpLess,
            _ => {
                return Err(
                    CompileError {
                        line: self.current.line_num,
                        kind: CompileErrorKind::ExpectedExpression,
                    },
                );
            },
        };
        self.bytecode.push(op.to_repr());
        match op_kind {
            TokenType::BangEqual | TokenType::GreaterEqual | TokenType::LessEqual => {
                self.bytecode.push(Op::OpNot.to_repr());
            },
            _ => {},
        }
        Ok(())
    }

    /// The `number` prefix handler (see [`spec_number`]).
    fn number(&mut self) -> (r: Result<(), CompileError>)
        requires
            old(self).wf(),
        ensures
            final(self).wf(),
            final(self).toks() == old(self).toks(),
            match spec_number(old(self).st()) {
                Ok(s) => r is Ok && final(self).st() == s,
                Err(e) => r == Err::<(), CompileError>(e),
            },
            r is Ok ==> old(self).st().pos <= final(self).st().pos,
    {
        let bits = match num_of_text_exec(self.previous.content.as_str()) {
            Some(bits) => bits,
            None => {
                return Err(
                    CompileError {
                        line: self.previous.line_num,
                        kind: CompileErrorKind::BadNumberLiteral,
                    },
                );
            },
        };
        if self.const_pool.len() >= 256 {
            return Err(
                CompileError {
                    line: self.previous.line_num,
                    kind: CompileErrorKind::ConstPoolFull,
                },
            );
        }
        let idx = self.const_pool.len() as u8;
        let ghost pool0 = self.const_pool@;
        self.const_pool.push(Value::Number(bits));
        self.bytecode.push(Op::OpConstant.to_repr());
        self.bytecode.push(idx);
        proof {
            assert(view_values(self.const_pool@) =~= view_values(pool0).push(
                SpecValue::Number(bits),
            ));
        }
        Ok(())
    }

    /// The `string` prefix handler (see [`spec_string`]).
    fn string(&mut self) -> (r: Result<(), CompileError>)
        requires
            old(self).wf(),
        ensures
            final(self).wf(),
            final(self).toks() == old(self).toks(),
            match spec_string(old(self).st()) {
                Ok(s) => r is Ok && final(self).st() == s,
                Err(e) => r == Err::<(), CompileError>(e),
            },
            r is Ok ==> old(self).st().pos <= final(self).st().pos,
    {
        let len = self.previous.content.as_str().unicode_len();
        let inner: String = if len >= 2 {
            self.previous.content.as_str().substring_char(1, len - 1).to_owned()
        } else {
            self.previous.content.clone()
        };
        if self.const_pool.len() >= 256 {
            return Err(
                CompileError {
                    line: self.previous.line_num,
                    kind: CompileErrorKind::ConstPoolFull,
                },
            );
        }
        let idx = self.const_pool.len() as u8;
        let ghost pool0 = self.const_pool@;
        self.const_pool.push(Value::Str(inner));
        self.bytecode.push(Op::OpConstant.to_repr());
        self.bytecode.push(idx);
        proof {
            assert(view_values(self.const_pool@) =~= view_values(pool0).push(
                spec_string_pool_entry(old(self).st()),
            ));
        }
        Ok(())
    }

    /// The `literal` prefix handler (see [`spec_literal`]).
    fn literal(&mut self) -> (r: Result<(), CompileError>)
        requires
            old(self).wf(),
        ensures
            final(self).wf(),
            final(self).toks() == old(self).toks(),
            match spec_literal(old(self).st()) {
                Ok(s) => r is Ok && final(self).st() == s,
                Err(e) => r == Err::<(), CompileError>(e),
            },
            r is Ok ==> old(self).st().pos <= final(self).st().pos,
    {
        let op = match self.previous.kind {
            TokenType::True => Op::OpTrue,
            TokenType::False => Op::OpFalse,
            TokenType::Nil => Op::OpNil,
            _ => {
                return Err(
                    CompileError {
                        line: self.previous.line_num,
                        kind: CompileErrorKind::ExpectedExpression,
                    },
                );
            },
        };
        self.bytecode.push(op.to_repr());
        Ok(())
    }
}

/// What a prefix construct's compilation guarantees: `s` extends `st`'s
/// code with a segment that holds no `Return`, never pops below its own
/// start, and leaves exactly one value; the pool only grows, and stays
/// within its 256 slots.
pub open spec fn emits_expr(st: CSt, s: CSt) -> bool {
    &&& st.code.len() <= s.code.len()
    &&& s.code.subrange(0, st.code.len() as int) == st.code
    &&& st.pool.len() <= s.pool.len()
    &&& s.pool.len() <= 256
    &&& seg_effect(s.code.skip(st.code.len() as int), s.pool.len(), 0) == Some(1nat)
    &&& seg_returns(s.code.skip(st.code.len() as int)) == 0
}

/// What an infix operator's compilation guarantees: with the left operand's
/// one value already on the stack, the appended segment leaves exactly one
/// value again.
pub open spec fn emits_infix(st: CSt, s: CSt) -> bool {
    &&& st.code.len() <= s.code.len()
    &&& s.code.subrange(0, st.code.len() as int) == st.code
    &&& st.pool.len() <= s.pool.len()
    &&& s.pool.len() <= 256
    &&& seg_effect(s.code.skip(st.code.len() as int), s.pool.len(), 1) == Some(1nat)
    &&& seg_returns(s.code.skip(st.code.len() as int)) == 0
}

/// Stack discipline of [`spec_parse_precedence`], by construction.
pub proof fn lemma_parse_precedence_wf(tokens: Seq<SpecToken>, st: CSt, prec: Precedence)
    requires
        st.pool.len() <= 256,
    ensures
        match spec_parse_precedence(tokens, st, prec) {
            Ok(s) => emits_expr(st, s),
            Err(_) => true,
        },
    decreases rem(tokens, st), 0nat,
{
    if let Ok(st1) = spec_advance(tokens, st) {
        let rule = spec_rule(st1.previous.kind);
        match rule.prefix {
            Handler::HNone => {},
            Handler::HGrouping => {
                lemma_grouping_wf(tokens, st1);
            },
            Handler::HUnary => {
                lemma_unary_wf(tokens, st1);
            },
            Handler::HNumber => {
                if let Ok(s2) = spec_number(st1) {
                    let idx = st1.pool.len() as u8;
                    assert(s2.code.skip(st1.code.len() as int) =~= seq![
                        spec_op_code(Op::OpConstant),
                        idx,
                    ]);
                    assert(seq![spec_op_code(Op::OpConstant), idx].skip(2)
                        =~= Seq::<u8>::empty());
                    assert(seg_effect(Seq::<u8>::empty(), s2.pool.len(), 1) == Some(1nat));
                    assert(seg_effect(s2.code.skip(st1.code.len() as int), s2.pool.len(), 0)
                        == Some(1nat));
                    assert(seg_returns(Seq::<u8>::empty()) == 0);
                    assert(seg_returns(s2.code.skip(st1.code.len() as int)) == 0);
                    assert(s2.code.subrange(0, st1.code.len() as int) =~= st1.code);
                }
            },
            Handler::HString => {
                if let Ok(s2) = spec_string(st1) {
                    let idx = st1.pool.len() as u8;
                    assert(s2.code.skip(st1.code.len() as int) =~= seq![
                        spec_op_code(Op::OpConstant),
                        idx,
                    ]);
                    assert(seq![spec_op_code(Op::OpConstant), idx].skip(2)
                        =~= Seq::<u8>::empty());
                    assert(seg_effect(Seq::<u8>::empty(), s2.pool.len(), 1) == Some(1nat));
                    assert(seg_effect(s2.code.skip(st1.code.len() as int), s2.pool.len(), 0)
                        == Some(1nat));
                    assert(seg_returns(Seq::<u8>::empty()) == 0);
                    assert(seg_returns(s2.code.skip(st1.code.len() as int)) == 0);
                    assert(s2.code.subrange(0, st1.code.len() as int) =~= st1.code);
                }
            },
            Handler::HLiteral => {
                if let Ok(s2) = spec_literal(st1) {
                    assert(s2.code.skip(st1.code.len() as int) =~= seq![
                        s2.code.last(),
                    ]);
                    assert(seq![s2.code.last()].skip(1) =~= Seq::<u8>::empty());
                    assert(seg_effect(Seq::<u8>::empty(), s2.pool.len(), 1) == Some(1nat));
                    assert(seg_effect(s2.code.skip(st1.code.len() as int), s2.pool.len(), 0)
                        == Some(1nat));
                    assert(seg_returns(Seq::<u8>::empty()) == 0);
                    assert(seg_returns(s2.code.skip(st1.code.len() as int)) == 0);
                    assert(s2.code.subrange(0, st1.code.len() as int) =~= st1.code);
                }
            },
            Handler::HBinary => {},
        }
        let r2 = match rule.prefix {
            Handler::HNone => Err(
                CompileError {
                    line: st1.current.line as usize,
                    kind: CompileErrorKind::ExpectedExpression,
                },
            ),
            Handler::HGrouping => spec_grouping(tokens, st1),
            Handler::HUnary => spec_unary(tokens, st1),
            Handler::HNumber => spec_number(st1),
            Handler::HString => spec_string(st1),
            Handler::HLiteral => spec_literal(st1),
            Handler::HBinary => Err(
                CompileError {
                    line: st1.current.line as usize,
                    kind: CompileErrorKind::ExpectedExpression,
                },
            ),
        };
        if let Ok(st2) = r2 {
            assert(emits_expr(st, st2));
            if st.pos < st2.pos <= tokens.len() {
                lemma_infix_loop_wf(tokens, st, st2, prec);
            }
        }
    }
}

/// Stack discipline of [`spec_expression`].
pub proof fn lemma_expression_wf(tokens: Seq<SpecToken>, st: CSt)
    requires
        st.pool.len() <= 256,
    ensures
        match spec_expression(tokens, st) {
            Ok(s) => emits_expr(st, s),
            Err(_) => true,
        },
    decreases rem(tokens, st), 1nat,
{
    lemma_parse_precedence_wf(tokens, st, Precedence::Assignment);
}

/// Stack discipline of [`spec_grouping`]: the parentheses emit nothing of
/// their own.
pub proof fn lemma_grouping_wf(tokens: Seq<SpecToken>, st: CSt)
    requires
        st.pool.len() <= 256,
    ensures
        match spec_grouping(tokens, st) {
            Ok(s) => emits_expr(st, s),
            Err(_) => true,
        },
    decreases rem(tokens, st), 2nat,
{
    lemma_expression_wf(tokens, st);
}

/// Stack discipline of [`spec_unary`]: the operand's one value is replaced
/// by the operator's one result.
pub proof fn lemma_unary_wf(tokens: Seq<SpecToken>, st: CSt)
    requires
        st.pool.len() <= 256,
    ensures
        match spec_unary(tokens, st) {
            Ok(s) => emits_expr(st, s),
            Err(_) => true,
        },
    decreases rem(tokens, st), 2nat,
{
    lemma_parse_precedence_wf(tokens, st, Precedence::Unary);
    if let Ok(s1) = spec_parse_precedence(tokens, st, Precedence::Unary) {
        match st.previous.kind {
            TokenType::Minus | TokenType::Bang => {
                let b = if st.previous.kind == TokenType::Minus {
                    spec_op_code(Op::OpNegate)
                } else {
                    spec_op_code(Op::OpNot)
                };
                let s = spec_emit(s1, b);
                let delta = s1.code.skip(st.code.len() as int);
                lemma_seg_concat(delta, seq![b], s1.pool.len(), 0, 1);
                lemma_seg_returns_concat(delta, seq![b], s1.pool.len(), 0, 1);
                assert(seq![b].skip(1) =~= Seq::<u8>::empty());
                assert(seg_effect(Seq::<u8>::empty(), s1.pool.len(), 1) == Some(1nat));
                assert(seg_effect(seq![b], s1.pool.len(), 1) == Some(1nat));
                assert(seg_returns(Seq::<u8>::empty()) == 0);
                assert(seg_returns(seq![b]) == 0);
                assert(s.code.skip(st.code.len() as int) =~= delta + seq![b]);
                assert(s.code.subrange(0, st.code.len() as int) =~= st.code);
            },
            _ => {},
        }
    }
}

/// Stack discipline of [`spec_binary`]: with the left operand on the
/// stack, the right operand's segment and the operator (and the `OpNot` of
/// an inverted comparison) leave exactly one value again.
pub proof fn lemma_binary_wf(tokens: Seq<SpecToken>, st: CSt)
    requires
        st.pool.len() <= 256,
    ensures
        match spec_binary(tokens, st) {
            Ok(s) => emits_infix(st, s),
            Err(_) => true,
        },
    decreases rem(tokens, st), 2nat,
{
    let kind = st.previous.kind;
    let rule = spec_rule(kind);
    lemma_parse_precedence_wf(tokens, st, spec_prec_next(rule.prec));
    if let Ok(s1) = spec_parse_precedence(tokens, st, spec_prec_next(rule.prec)) {
        if let Some(op) = spec_binary_op(kind) {
            let b = spec_op_code(op);
            let delta = s1.code.skip(st.code.len() as int);
            let pl = s1.pool.len();
            lemma_seg_depth(delta, pl, 0, 1, 1);
            lemma_seg_concat(delta, seq![b], pl, 1, 2);
            lemma_seg_returns_concat(delta, seq![b], pl, 1, 2);
            assert(seq![b].skip(1) =~= Seq::<u8>::empty());
            assert(seg_effect(Seq::<u8>::empty(), pl, 1) == Some(1nat));
            assert(seg_effect(seq![b], pl, 2) == Some(1nat));
            assert(seg_returns(Seq::<u8>::empty()) == 0);
            assert(seg_returns(seq![b]) == 0);
            let st2 = spec_emit(s1, b);
            assert(st2.code.skip(st.code.len() as int) =~= delta + seq![b]);
            if spec_negated_cmp(kind) {
                let nb = spec_op_code(Op::OpNot);
                lemma_seg_concat(delta + seq![b], seq![nb], pl, 1, 1);
                lemma_seg_returns_concat(delta + seq![b], seq![nb], pl, 1, 1);
                assert(seq![nb].skip(1) =~= Seq::<u8>::empty());
                assert(seg_effect(seq![nb], pl, 1) == Some(1nat));
                assert(seg_returns(seq![nb]) == 0);
                let st3 = spec_emit(st2, nb);
                assert(st3.code.skip(st.code.len() as int) =~= (delta + seq![b]) + seq![nb]);
                assert(st3.code.subrange(0, st.code.len() as int) =~= st.code);
            } else {
                assert(st2.code.subrange(0, st.code.len() as int) =~= st.code);
            }
        }
    }
}

/// Stack discipline of [`spec_infix_loop`]: each folded operator keeps the
/// running segment's effect at exactly one value.
pub proof fn lemma_infix_loop_wf(tokens: Seq<SpecToken>, st0: CSt, st: CSt, prec: Precedence)
    requires
        emits_expr(st0, st),
    ensures
        match spec_infix_loop(tokens, st, prec) {
            Ok(s) => emits_expr(st0, s),
            Err(_) => true,
        },
    decreases rem(tokens, st), 3nat,
{
    let rule = spec_rule(st.current.kind);
    if spec_prec_val(prec) <= spec_prec_val(rule.prec) {
        if let Ok(st1) = spec_advance(tokens, st) {
            if rule.infix == Handler::HBinary {
                lemma_binary_wf(tokens, st1);
                if let Ok(st2) = spec_binary(tokens, st1) {
                    let delta0 = st.code.skip(st0.code.len() as int);
                    let delta2 = st2.code.skip(st.code.len() as int);
                    lemma_seg_pool(delta0, st.pool.len(), st2.pool.len(), 0, 1);
                    lemma_seg_concat(delta0, delta2, st2.pool.len(), 0, 1);
                    lemma_seg_returns_concat(delta0, delta2, st2.pool.len(), 0, 1);
                    assert(st2.code.skip(st0.code.len() as int) =~= delta0 + delta2);
                    assert(st2.code.subrange(0, st0.code.len() as int) =~= st0.code);
                    assert(emits_expr(st0, st2));
                    if st.pos < st2.pos <= tokens.len() {
                        lemma_infix_loop_wf(tokens, st0, st2, prec);
                    }
                }
            }
        }
    }
}

/// Everything the compiler emits is well formed by construction: the
/// constant pool holds at most 256 entries, every `Constant` operand byte
/// indexes it, and the bytecode's cumulative stack effect never pops more
/// values than have been pushed by that point and leaves exactly one value.
pub proof fn lemma_compile_chunk_wf(tokens: Seq<SpecToken>)
    ensures
        match spec_compile(tokens) {
            Ok(s) => seg_effect(s.code, s.pool.len(), 0) == Some(1nat) && seg_returns(s.code)
                == 0 && s.pool.len() <= 256,
            Err(_) => true,
        },
{
    if let Ok(st1) = spec_advance(tokens, spec_init_st()) {
        lemma_expression_wf(tokens, st1);
        if let Ok(s) = spec_expression(tokens, st1) {
            assert(s.code.skip(0) =~= s.code);
        }
    }
}

/// A compiled chunk, with the driver's trailing `Return`, runs without
/// tripping over its own shape: execution can fail only dynamically — on
/// the bounded stack's capacity or an operand of the wrong type — never on
/// an unknown opcode, a dangling `Constant` operand, or an underflowing
/// pop. And when it succeeds, exactly one value is displayed, at that
/// one `Return`: the expression's result.
pub proof fn lemma_compiled_chunk_runs(tokens: Seq<SpecToken>)
    ensures
        match spec_compile(tokens) {
            Ok(s) => match spec_exec(
                s.code.push(spec_op_code(Op::OpReturn)),
                s.pool,
                0,
                Seq::<SpecValue>::empty(),
                Seq::<SpecValue>::empty(),
            ) {
                Ok(out) => out.len() == 1,
                Err(e) => e == RuntimeError::StackOverflow || e
                    == RuntimeError::OperandMustBeNumber || e
                    == RuntimeError::InvalidOperandType,
            },
            Err(_) => true,
        },
{
    lemma_compile_chunk_wf(tokens);
    if let Ok(s) = spec_compile(tokens) {
        let ret = spec_op_code(Op::OpReturn);
        let full = s.code.push(ret);
        assert(full =~= s.code + seq![ret]);
        lemma_seg_concat(s.code, seq![ret], s.pool.len(), 0, 1);
        lemma_seg_returns_concat(s.code, seq![ret], s.pool.len(), 0, 1);
        assert(seq![ret].skip(1) =~= Seq::<u8>::empty());
        assert(seg_effect(Seq::<u8>::empty(), s.pool.len(), 0) == Some(0nat));
        assert(seg_effect(seq![ret], s.pool.len(), 1) == Some(0nat));
        assert(seg_returns(Seq::<u8>::empty()) == 0);
        assert(seg_returns(seq![ret]) == 1);
        assert(full.skip(0) =~= full);
        lemma_wf_code_runs(full, s.pool, 0, Seq::<SpecValue>::empty(), Seq::<SpecValue>::empty(), 0);
    }
}

/// A lone numeric literal round-trips: for any token stream holding one
/// number token (whose text denotes a number) and the end sentinel,
/// compilation succeeds, and running the chunk with the driver's trailing
/// `Return` displays exactly that number.
pub proof fn lemma_number_literal_roundtrip(t: SpecToken, eof: SpecToken, bits: u64)
    requires
        t.kind == TokenType::Number,
        num_of_text(t.text) == Some(bits),
        eof.kind == TokenType::Eof,
    ensures
        match spec_compile(seq![t, eof]) {
            Ok(s) => spec_exec(
                s.code.push(spec_op_code(Op::OpReturn)),
                s.pool,
                0,
                Seq::<SpecValue>::empty(),
                Seq::<SpecValue>::empty(),
            ) == Ok::<Seq<SpecValue>, RuntimeError>(seq![SpecValue::Number(bits)]),
            Err(_) => false,
        },
{
    let tokens = seq![t, eof];
    let s0 = spec_init_st();
    let s1 = CSt { pos: 1, previous: spec_blank_token(), current: t, ..s0 };
    assert(spec_advance(tokens, s0) == Ok::<CSt, CompileError>(s1));
    let s2 = CSt { pos: 2, previous: t, current: eof, ..s1 };
    assert(spec_advance(tokens, s1) == Ok::<CSt, CompileError>(s2));
    let s3 = CSt {
        code: Seq::<u8>::empty().push(spec_op_code(Op::OpConstant)).push(0u8),
        pool: Seq::<SpecValue>::empty().push(SpecValue::Number(bits)),
        ..s2
    };
    assert(spec_number(s2) == Ok::<CSt, CompileError>(s3));
    assert(spec_infix_loop(tokens, s3, Precedence::Assignment) == Ok::<CSt, CompileError>(s3));
    assert(spec_parse_precedence(tokens, s1, Precedence::Assignment) == Ok::<
        CSt,
        CompileError,
    >(s3));
    assert(spec_expression(tokens, s1) == Ok::<CSt, CompileError>(s3));
    assert(spec_compile(tokens) == Ok::<CSt, CompileError>(s3));

    let code = s3.code.push(spec_op_code(Op::OpReturn));
    let pool = s3.pool;
    assert(code.len() == 3 && code[0] == 0 && code[1] == 0 && code[2] == 4);
    let stack1 = Seq::<SpecValue>::empty().push(SpecValue::Number(bits));
    let out1 = Seq::<SpecValue>::empty().push(SpecValue::Number(bits));
    assert(spec_exec(code, pool, 3, stack1.drop_last(), out1) == Ok::<
        Seq<SpecValue>,
        RuntimeError,
    >(out1));
    assert(spec_exec(code, pool, 2, stack1, Seq::<SpecValue>::empty()) == Ok::<
        Seq<SpecValue>,
        RuntimeError,
    >(out1));
    assert(Seq::<SpecValue>::empty().push(pool[0]) == stack1);
    assert(spec_exec(code, pool, 0, Seq::<SpecValue>::empty(), Seq::<SpecValue>::empty()) == Ok::<
        Seq<SpecValue>,
        RuntimeError,
    >(out1));
    assert(out1 =~= seq![SpecValue::Number(bits)]);
}

/// The inverted comparisons are exactly their `Not` decomposition: for any
/// two numeric literals, compiling `a >= b` emits the same bytecode and the
/// same constant pool as compiling `!(a < b)` — and likewise `a <= b`
/// against `!(a > b)`, and `a != b` against `!(a == b)`.
pub proof fn lemma_inverted_comparison_decomposition(
    ta: SpecToken,
    tb: SpecToken,
    top: SpecToken,
    tin: SpecToken,
    bang: SpecToken,
    lp: SpecToken,
    rp: SpecToken,
    eof: SpecToken,
    abits: u64,
    bbits: u64,
)
    requires
        ta.kind == TokenType::Number,
        num_of_text(ta.text) == Some(abits),
        tb.kind == TokenType::Number,
        num_of_text(tb.text) == Some(bbits),
        (top.kind == TokenType::GreaterEqual && tin.kind == TokenType::Less) || (top.kind
            == TokenType::LessEqual && tin.kind == TokenType::Greater) || (top.kind
            == TokenType::BangEqual && tin.kind == TokenType::EqualEqual),
        bang.kind == TokenType::Bang,
        lp.kind == TokenType::LeftParen,
        rp.kind == TokenType::RightParen,
        eof.kind == TokenType::Eof,
    ensures
        match (
            spec_compile(seq![ta, top, tb, eof]),
            spec_compile(seq![bang, lp, ta, tin, tb, rp, eof]),
        ) {
            (Ok(direct), Ok(via_not)) => direct.code == via_not.code && direct.pool
                == via_not.pool,
            _ => false,
        },
{
    let op = spec_binary_op(top.kind).unwrap();
    let code_exp = Seq::<u8>::empty().push(spec_op_code(Op::OpConstant)).push(0u8).push(
        spec_op_code(Op::OpConstant),
    ).push(1u8).push(spec_op_code(op)).push(spec_op_code(Op::OpNot));
    let pool_exp = Seq::<SpecValue>::empty().push(SpecValue::Number(abits)).push(
        SpecValue::Number(bbits),
    );

    // The direct form: `a (op) b`.
    let tokens = seq![ta, top, tb, eof];
    let s0 = spec_init_st();
    let s1 = CSt { pos: 1, previous: spec_blank_token(), current: ta, ..s0 };
    assert(spec_advance(tokens, s0) == Ok::<CSt, CompileError>(s1));
    let s2 = CSt { pos: 2, previous: ta, current: top, ..s1 };
    assert(spec_advance(tokens, s1) == Ok::<CSt, CompileError>(s2));
    let s3 = CSt {
        code: Seq::<u8>::empty().push(spec_op_code(Op::OpConstant)).push(0u8),
        pool: Seq::<SpecValue>::empty().push(SpecValue::Number(abits)),
        ..s2
    };
    assert(spec_number(s2) == Ok::<CSt, CompileError>(s3));
    let s4 = CSt { pos: 3, previous: top, current: tb, ..s3 };
    assert(spec_advance(tokens, s3) == Ok::<CSt, CompileError>(s4));
    let s5 = CSt { pos: 4, previous: tb, current: eof, ..s4 };
    assert(spec_advance(tokens, s4) == Ok::<CSt, CompileError>(s5));
    let s6 = CSt {
        code: s5.code.push(spec_op_code(Op::OpConstant)).push(1u8),
        pool: pool_exp,
        ..s5
    };
    assert(spec_number(s5) == Ok::<CSt, CompileError>(s6));
    assert(spec_infix_loop(tokens, s6, spec_prec_next(spec_rule(top.kind).prec)) == Ok::<
        CSt,
        CompileError,
    >(s6));
    assert(spec_parse_precedence(tokens, s4, spec_prec_next(spec_rule(top.kind).prec)) == Ok::<
        CSt,
        CompileError,
    >(s6));
    let s7 = CSt { code: code_exp, ..s6 };
    assert(spec_binary(tokens, s4) == Ok::<CSt, CompileError>(s7));
    assert(spec_infix_loop(tokens, s7, Precedence::Assignment) == Ok::<CSt, CompileError>(s7));
    assert(spec_infix_loop(tokens, s3, Precedence::Assignment) == Ok::<CSt, CompileError>(s7));
    assert(spec_parse_precedence(tokens, s1, Precedence::Assignment) == Ok::<
        CSt,
        CompileError,
    >(s7));
    assert(spec_expression(tokens, s1) == Ok::<CSt, CompileError>(s7));
    assert(spec_compile(tokens) == Ok::<CSt, CompileError>(s7));

    // The decomposed form: `!(a (inner) b)`.
    let tokens2 = seq![bang, lp, ta, tin, tb, rp, eof];
    let u1 = CSt { pos: 1, previous: spec_blank_token(), current: bang, ..s0 };
    assert(spec_advance(tokens2, s0) == Ok::<CSt, CompileError>(u1));
    let u2 = CSt { pos: 2, previous: bang, current: lp, ..u1 };
    assert(spec_advance(tokens2, u1) == Ok::<CSt, CompileError>(u2));
    let u3 = CSt { pos: 3, previous: lp, current: ta, ..u2 };
    assert(spec_advance(tokens2, u2) == Ok::<CSt, CompileError>(u3));
    let u4 = CSt { pos: 4, previous: ta, current: tin, ..u3 };
    assert(spec_advance(tokens2, u3) == Ok::<CSt, CompileError>(u4));
    let u5 = CSt {
        code: Seq::<u8>::empty().push(spec_op_code(Op::OpConstant)).push(0u8),
        pool: Seq::<SpecValue>::empty().push(SpecValue::Number(abits)),
        ..u4
    };
    assert(spec_number(u4) == Ok::<CSt, CompileError>(u5));
    let u6 = CSt { pos: 5, previous: tin, current: tb, ..u5 };
    assert(spec_advance(tokens2, u5) == Ok::<CSt, CompileError>(u6));
    let u7 = CSt { pos: 6, previous: tb, current: rp, ..u6 };
    assert(spec_advance(tokens2, u6) == Ok::<CSt, CompileError>(u7));
    let u8st = CSt {
        code: u7.code.push(spec_op_code(Op::OpConstant)).push(1u8),
        pool: pool_exp,
        ..u7
    };
    assert(spec_number(u7) == Ok::<CSt, CompileError>(u8st));
    assert(spec_binary_op(tin.kind) == Some(op));
    assert(!spec_negated_cmp(tin.kind));
    assert(spec_infix_loop(tokens2, u8st, spec_prec_next(spec_rule(tin.kind).prec)) == Ok::<
        CSt,
        CompileError,
    >(u8st));
    assert(spec_parse_precedence(tokens2, u6, spec_prec_next(spec_rule(tin.kind).prec)) == Ok::<
        CSt,
        CompileError,
    >(u8st));
    let u9 = CSt { code: u8st.code.push(spec_op_code(op)), ..u8st };
    assert(spec_binary(tokens2, u6) == Ok::<CSt, CompileError>(u9));
    assert(spec_infix_loop(tokens2, u9, Precedence::Assignment) == Ok::<CSt, CompileError>(u9));
    assert(spec_infix_loop(tokens2, u5, Precedence::Assignment) == Ok::<CSt, CompileError>(u9));
    assert(spec_parse_precedence(tokens2, u3, Precedence::Assignment) == Ok::<
        CSt,
        CompileError,
    >(u9));
    assert(spec_expression(tokens2, u3) == Ok::<CSt, CompileError>(u9));
    let u10 = CSt { pos: 7, previous: rp, current: eof, ..u9 };
    assert(spec_advance(tokens2, u9) == Ok::<CSt, CompileError>(u10));
    assert(spec_grouping(tokens2, u3) == Ok::<CSt, CompileError>(u10));
    assert(spec_infix_loop(tokens2, u10, Precedence::Unary) == Ok::<CSt, CompileError>(u10));
    assert(spec_parse_precedence(tokens2, u2, Precedence::Unary) == Ok::<CSt, CompileError>(u10));
    let u11 = CSt { code: u10.code.push(spec_op_code(Op::OpNot)), ..u10 };
    assert(spec_unary(tokens2, u2) == Ok::<CSt, CompileError>(u11));
    assert(spec_infix_loop(tokens2, u11, Precedence::Assignment) == Ok::<CSt, CompileError>(u11));
    assert(spec_parse_precedence(tokens2, u1, Precedence::Assignment) == Ok::<
        CSt,
        CompileError,
    >(u11));
    assert(spec_expression(tokens2, u1) == Ok::<CSt, CompileError>(u11));
    assert(spec_compile(tokens2) == Ok::<CSt, CompileError>(u11));

    assert(u11.code =~= code_exp);
}

/// The string value [`spec_string`] appends to the pool.
pub open spec fn spec_string_pool_entry(st: CSt) -> SpecValue {
    let text = st.previous.text;
    SpecValue::Str(
        if text.len() >= 2 {
            text.subrange(1, text.len() - 1)
        } else {
            text
        },
    )
}

} // verus!
