//! Tokens and the lexer that produces them from raw source text.
//!
//! The lexer is a peripheral collaborator of the compiler: it merges
//! two-character operators into single tokens, strips comments and
//! whitespace, and terminates the stream with an `Eof` sentinel. It fails
//! (with a lexical error) on an unterminated string or an unrecognized
//! character.

use crate::vm::VmError;
use vstd::prelude::*;
use vstd::string::StrSliceExecFns;
use vstd::string::StringExecFns;

verus! {

/// The kind of a token.
#[derive(Debug, Clone, Copy, PartialEq, Eq, Structural)]
pub enum TokenType {
    LeftParen,
    RightParen,
    LeftBrace,
    RightBrace,
    Comma,
    Dot,
    Minus,
    Plus,
    Semicolon,
    Slash,
    Star,
    Bang,
    BangEqual,
    Equal,
    EqualEqual,
    Greater,
    GreaterEqual,
    Less,
    LessEqual,
    Identifier,
    Str,
    Number,
    And,
    Class,
    Else,
    False,
    For,
    Fun,
    If,
    Nil,
    Or,
    Print,
    Return,
    Super,
    This,
    True,
    Var,
    While,
    Newline,
    Eof,
    Blank,
}

/// A token: its kind, the source line it starts on, and its text (for a
/// string literal the text keeps the enclosing quotes).
#[derive(Debug)]
pub struct Token {
    pub kind: TokenType,
    pub line_num: usize,
    pub content: String,
}

/// The mathematical model of a [`Token`].
pub ghost struct SpecToken {
    pub kind: TokenType,
    pub line: nat,
    pub text: Seq<char>,
}

impl View for Token {
    type V = SpecToken;

    open spec fn view(&self) -> SpecToken {
        SpecToken { kind: self.kind, line: self.line_num as nat, text: self.content@ }
    }
}

impl Clone for Token {
    fn clone(&self) -> (r: Token)
        ensures
            r == *self,
    {
        Token { kind: self.kind, line_num: self.line_num, content: self.content.clone() }
    }
}

/// Whether `c` is whitespace, in Unicode's sense.
pub uninterp spec fn is_space_char(c: char) -> bool;

/// Relies on `char::is_whitespace` from std: whether `c` has the Unicode
/// whitespace property, a function of the character alone.
#[verifier::external_body]
pub(crate) fn is_space_char_exec(c: char) -> (r: bool)
    ensures
        r == is_space_char(c),
{
    c.is_whitespace()
}

/// Whether `c` is alphabetic, in Unicode's sense.
pub uninterp spec fn is_alpha_char(c: char) -> bool;

/// Relies on `char::is_alphabetic` from std: whether `c` is in one of the
/// Unicode letter categories, a function of the character alone.
#[verifier::external_body]
pub(crate) fn is_alpha_char_exec(c: char) -> (r: bool)
    ensures
        r == is_alpha_char(c),
{
    c.is_alphabetic()
}

/// Whether `c` is one of the ten ASCII digits.
pub open spec fn spec_is_digit(c: char) -> bool {
    48 <= c as u32 && c as u32 <= 57
}

/// Whether `c` is one of the ten ASCII digits.
pub fn is_digit_char(c: char) -> (r: bool)
    ensures
        r == spec_is_digit(c),
{
    let v = c as u32;
    48 <= v && v <= 57
}

/// The keyword kind spelled by `s`, or `Identifier` when `s` spells none.
pub open spec fn spec_keyword_kind(s: Seq<char>) -> TokenType {
    if s == "and"@ {
        TokenType::And
    } else if s == "class"@ {
        TokenType::Class
    } else if s == "else"@ {
        TokenType::Else
    } else if s == "false"@ {
        TokenType::False
    } else if s == "for"@ {
        TokenType::For
    } else if s == "fun"@ {
        TokenType::Fun
    } else if s == "if"@ {
        TokenType::If
    } else if s == "nil"@ {
        TokenType::Nil
    } else if s == "or"@ {
        TokenType::Or
    } else if s == "print"@ {
        TokenType::Print
    } else if s == "return"@ {
        TokenType::Return
    } else if s == "super"@ {
        TokenType::Super
    } else if s == "this"@ {
        TokenType::This
    } else if s == "true"@ {
        TokenType::True
    } else if s == "var"@ {
        TokenType::Var
    } else if s == "while"@ {
        TokenType::While
    } else {
        TokenType::Identifier
    }
}

/// The keyword kind spelled by `lexeme`, or `Identifier`.
fn keyword_kind(lexeme: &String) -> (k: TokenType)
    ensures
        k == spec_keyword_kind(lexeme@),
{
    if *lexeme == String::from_str("and") {
        TokenType::And
    } else if *lexeme == String::from_str("class") {
        TokenType::Class
    } else if *lexeme == String::from_str("else") {
        TokenType::Else
    } else if *lexeme == String::from_str("false") {
        TokenType::False
    } else if *lexeme == String::from_str("for") {
        TokenType::For
    } else if *lexeme == String::from_str("fun") {
        TokenType::Fun
    } else if *lexeme == String::from_str("if") {
        TokenType::If
    } else if *lexeme == String::from_str("nil") {
        TokenType::Nil
    } else if *lexeme == String::from_str("or") {
        TokenType::Or
    } else if *lexeme == String::from_str("print") {
        TokenType::Print
    } else if *lexeme == String::from_str("return") {
        TokenType::Return
    } else if *lexeme == String::from_str("super") {
        TokenType::Super
    } else if *lexeme == String::from_str("this") {
        TokenType::This
    } else if *lexeme == String::from_str("true") {
        TokenType::True
    } else if *lexeme == String::from_str("var") {
        TokenType::Var
    } else if *lexeme == String::from_str("while") {
        TokenType::While
    } else {
        TokenType::Identifier
    }
}

/// The models of a sequence of tokens, element by element.
pub open spec fn view_tokens(s: Seq<Token>) -> Seq<SpecToken> {
    s.map_values(|t: Token| t@)
}

/// The first position at or after `i` holding something other than a
/// decimal digit.
pub open spec fn spec_scan_digits(s: Seq<char>, i: nat) -> nat
    decreases s.len() - i,
{
    if i >= s.len() {
        i
    } else if !spec_is_digit(s[i as int]) {
        i
    } else {
        spec_scan_digits(s, i + 1)
    }
}

/// Where a numeric literal ends: digits, then at most one dot followed by
/// more digits.
pub open spec fn spec_scan_number(s: Seq<char>, i: nat) -> nat {
    let j = spec_scan_digits(s, i);
    if j < s.len() && s[j as int] == '.' {
        spec_scan_digits(s, j + 1)
    } else {
        j
    }
}

/// The first newline at or after `i`, or the end of the text.
pub open spec fn spec_scan_comment(s: Seq<char>, i: nat) -> nat
    decreases s.len() - i,
{
    if i >= s.len() {
        i
    } else if s[i as int] == '\n' {
        i
    } else {
        spec_scan_comment(s, i + 1)
    }
}

/// The first `"` at or after `i`, or the end of the text.
pub open spec fn spec_scan_string(s: Seq<char>, i: nat) -> nat
    decreases s.len() - i,
{
    if i >= s.len() {
        i
    } else if s[i as int] == '"' {
        i
    } else {
        spec_scan_string(s, i + 1)
    }
}

/// The first position at or after `i` holding neither an alphabetic
/// character nor `_`.
pub open spec fn spec_scan_ident(s: Seq<char>, i: nat) -> nat
    decreases s.len() - i,
{
    if i >= s.len() {
        i
    } else if is_alpha_char(s[i as int]) || s[i as int] == '_' {
        spec_scan_ident(s, i + 1)
    } else {
        i
    }
}

/// The operator or punctuation token starting at `i`, with the position
/// just past it (a comparison followed by `=` merges into the
/// two-character token); `None` when the character starts no token.
pub open spec fn spec_operator(s: Seq<char>, i: nat) -> Option<(TokenType, nat)> {
    if i >= s.len() {
        None
    } else {
        let c = s[i as int];
        let eq_follows = i + 1 < s.len() && s[i as int + 1] == '=';
        if c == '>' {
            if eq_follows {
                Some((TokenType::GreaterEqual, (i + 2) as nat))
            } else {
                Some((TokenType::Greater, (i + 1) as nat))
            }
        } else if c == '<' {
            if eq_follows {
                Some((TokenType::LessEqual, (i + 2) as nat))
            } else {
                Some((TokenType::Less, (i + 1) as nat))
            }
        } else if c == '=' {
            if eq_follows {
                Some((TokenType::EqualEqual, (i + 2) as nat))
            } else {
                Some((TokenType::Equal, (i + 1) as nat))
            }
        } else if c == '!' {
            if eq_follows {
                Some((TokenType::BangEqual, (i + 2) as nat))
            } else {
                Some((TokenType::Bang, (i + 1) as nat))
            }
        } else if c == '+' {
            Some((TokenType::Plus, (i + 1) as nat))
        } else if c == '-' {
            Some((TokenType::Minus, (i + 1) as nat))
        } else if c == '*' {
            Some((TokenType::Star, (i + 1) as nat))
        } else if c == '/' {
            Some((TokenType::Slash, (i + 1) as nat))
        } else if c == '(' {
            Some((TokenType::LeftParen, (i + 1) as nat))
        } else if c == ')' {
            Some((TokenType::RightParen, (i + 1) as nat))
        } else if c == '{' {
            Some((TokenType::LeftBrace, (i + 1) as nat))
        } else if c == '}' {
            Some((TokenType::RightBrace, (i + 1) as nat))
        } else if c == ',' {
            Some((TokenType::Comma, (i + 1) as nat))
        } else if c == '.' {
            Some((TokenType::Dot, (i + 1) as nat))
        } else if c == ';' {
            Some((TokenType::Semicolon, (i + 1) as nat))
        } else {
            None
        }
    }
}

/// Prepend one token to the outcome of lexing the rest.
pub open spec fn spec_lex_cons(t: SpecToken, rest: Result<Seq<SpecToken>, VmError>) -> Result<
    Seq<SpecToken>,
    VmError,
> {
    match rest {
        Ok(ts) => Ok(seq![t] + ts),
        Err(e) => Err(e),
    }
}

/// The token stream of `s` from position `i` on, with `line` lines already
/// passed. Whitespace is skipped (a newline counts a line), a `//` comment
/// runs to its line's end, a string runs to its closing quote and fails
/// unterminated, a character that starts no token fails, and the end of the
/// text yields the `Eof` sentinel. The bound checks around each recursion
/// always hold of the scan positions; they make the recursion visibly
/// bounded.
pub open spec fn spec_lex_from(s: Seq<char>, i: nat, line: nat) -> Result<Seq<SpecToken>, VmError>
    decreases s.len() - i,
{
    if i >= s.len() {
        Ok(seq![SpecToken { kind: TokenType::Eof, line, text: Seq::<char>::empty() }])
    } else {
        let c = s[i as int];
        if is_space_char(c) {
            spec_lex_from(
                s,
                i + 1,
                if c == '\n' {
                    line + 1
                } else {
                    line
                },
            )
        } else if c == '/' && i + 1 < s.len() && s[i as int + 1] == '/' {
            let j = spec_scan_comment(s, i + 2);
            if i < j <= s.len() {
                spec_lex_from(s, j, line)
            } else {
                Err(VmError::CompileError)
            }
        } else if c == '"' {
            let j = spec_scan_string(s, i + 1);
            if j >= s.len() {
                // Unterminated string literal.
                Err(VmError::CompileError)
            } else {
                let t = SpecToken {
                    kind: TokenType::Str,
                    line,
                    text: s.subrange(i as int, j as int + 1),
                };
                if i < j + 1 <= s.len() {
                    spec_lex_cons(t, spec_lex_from(s, j + 1, line))
                } else {
                    Err(VmError::CompileError)
                }
            }
        } else if spec_is_digit(c) {
            let j = spec_scan_number(s, i + 1);
            let t = SpecToken {
                kind: TokenType::Number,
                line,
                text: s.subrange(i as int, j as int),
            };
            if i < j <= s.len() {
                spec_lex_cons(t, spec_lex_from(s, j, line))
            } else {
                Err(VmError::CompileError)
            }
        } else if is_alpha_char(c) || c == '_' {
            let j = spec_scan_ident(s, i + 1);
            let t = SpecToken {
                kind: spec_keyword_kind(s.subrange(i as int, j as int)),
                line,
                text: s.subrange(i as int, j as int),
            };
            if i < j <= s.len() {
                spec_lex_cons(t, spec_lex_from(s, j, line))
            } else {
                Err(VmError::CompileError)
            }
        } else {
            match spec_operator(s, i) {
                None => Err(VmError::CompileError),
                Some((kind, j)) => {
                    let t = SpecToken { kind, line, text: s.subrange(i as int, j as int) };
                    if i < j <= s.len() {
                        spec_lex_cons(t, spec_lex_from(s, j, line))
                    } else {
                        Err(VmError::CompileError)
                    }
                },
            }
        }
    }
}

/// Lex `source` into a token stream terminated by an `Eof` sentinel.
///
/// The result is exactly what [`spec_lex_from`] gives for the whole text:
/// two-character operators merged, comments and whitespace stripped, each
/// token carrying its source text and line. Every token before the sentinel
/// is a real token (never `Eof`, `Blank` or `Newline`). The lexer fails,
/// with the coarse `CompileError` family, on an unterminated string literal
/// or an unrecognized character.
#[verifier::rlimit(100)]
pub fn lex(source: &str) -> (r: Result<Vec<Token>, VmError>)
    ensures
        match r {
            Ok(toks) => {
                &&& spec_lex_from(source@, 0, 0) == Ok::<Seq<SpecToken>, VmError>(
                    view_tokens(toks@),
                )
                &&& toks@.len() >= 1
                &&& toks@.last()@.kind == TokenType::Eof
                &&& toks@.last()@.text.len() == 0
                &&& forall|k: int|
                    0 <= k < toks@.len() - 1 ==> {
                        &&& (#[trigger] toks@[k])@.kind != TokenType::Eof
                        &&& toks@[k]@.kind != TokenType::Blank
                        &&& toks@[k]@.kind != TokenType::Newline
                    }
            },
            Err(e) => e == VmError::CompileError && spec_lex_from(source@, 0, 0) == Err::<
                Seq<SpecToken>,
                VmError,
            >(e),
        },
{
    let ghost s = source@;
    let n = source.unicode_len();
    let mut tokens: Vec<Token> = Vec::new();
    let mut i: usize = 0;
    let mut line_num: usize = 0;

    proof {
        assert(view_tokens(tokens@) =~= Seq::<SpecToken>::empty());
        if let Ok(ts) = spec_lex_from(s, 0, 0) {
            assert(view_tokens(tokens@) + ts =~= ts);
        }
    }

    while i < n
        invariant
            s == source@,
            n == s.len(),
            i <= n,
            line_num <= i,
            forall|k: int|
                0 <= k < tokens@.len() ==> {
                    &&& (#[trigger] tokens@[k])@.kind != TokenType::Eof
                    &&& tokens@[k]@.kind != TokenType::Blank
                    &&& tokens@[k]@.kind != TokenType::Newline
                },
            match spec_lex_from(s, i as nat, line_num as nat) {
                Ok(ts) => spec_lex_from(s, 0, 0) == Ok::<Seq<SpecToken>, VmError>(
                    view_tokens(tokens@) + ts,
                ),
                Err(e) => spec_lex_from(s, 0, 0) == Err::<Seq<SpecToken>, VmError>(e),
            },
        decreases n - i,
    {
        let ghost tokens0 = tokens@;
        let c = source.get_char(i);

        if is_space_char_exec(c) {
            if c == '\n' {
                line_num = line_num + 1;
            }
            i = i + 1;
            continue ;
        }
        // A line comment runs to the end of the line; the newline itself is
        // left for the whitespace branch so it still counts a line.

        if c == '/' && i + 1 < n && source.get_char(i + 1) == '/' {
            let ghost i0 = i;
            i = i + 2;
            while i < n && source.get_char(i) != '\n'
                invariant
                    s == source@,
                    n == s.len(),
                    i <= n,
                    i0 + 2 <= i,
                    line_num <= i0,
                    spec_scan_comment(s, (i0 + 2) as nat) == spec_scan_comment(s, i as nat),
                decreases n - i,
            {
                i = i + 1;
            }
            proof {
                assert(spec_scan_comment(s, i as nat) == i as nat);
            }
            continue ;
        }
        if c == '"' {
            let mut j = i + 1;
            while j < n && source.get_char(j) != '"'
                invariant
                    s == source@,
                    n == s.len(),
                    j <= n,
                    i < j,
                    spec_scan_string(s, (i + 1) as nat) == spec_scan_string(s, j as nat),
                decreases n - j,
            {
                j = j + 1;
            }
            proof {
                assert(spec_scan_string(s, j as nat) == j as nat);
            }
            if j == n {
                // Unterminated string literal.
                return Err(VmError::CompileError);
            }
            let content = source.substring_char(i, j + 1).to_owned();
            tokens.push(Token { kind: TokenType::Str, line_num, content });
            proof {
                let t = SpecToken {
                    kind: TokenType::Str,
                    line: line_num as nat,
                    text: s.subrange(i as int, j as int + 1),
                };
                assert(view_tokens(tokens@) =~= view_tokens(tokens0).push(t));
                if let Ok(ts) = spec_lex_from(s, (j + 1) as nat, line_num as nat) {
                    assert(view_tokens(tokens0) + (seq![t] + ts) =~= view_tokens(tokens@) + ts);
                }
            }
            i = j + 1;
            continue ;
        }
        if is_digit_char(c) {
            let mut j = i + 1;
            while j < n && is_digit_char(source.get_char(j))
                invariant
                    s == source@,
                    n == s.len(),
                    j <= n,
                    i < j,
                    spec_scan_digits(s, (i + 1) as nat) == spec_scan_digits(s, j as nat),
                decreases n - j,
            {
                j = j + 1;
            }
            proof {
                assert(spec_scan_digits(s, j as nat) == j as nat);
            }
            let ghost j0 = j;
            if j < n && source.get_char(j) == '.' {
                j = j + 1;
                let ghost jd = j;
                while j < n && is_digit_char(source.get_char(j))
                    invariant
                        s == source@,
                        n == s.len(),
                        j <= n,
                        i < j,
                        jd <= j,
                        spec_scan_digits(s, jd as nat) == spec_scan_digits(s, j as nat),
                    decreases n - j,
                {
                    j = j + 1;
                }
                proof {
                    assert(spec_scan_digits(s, j as nat) == j as nat);
                }
            }
            proof {
                assert(j as nat == spec_scan_number(s, (i + 1) as nat));
            }
            let content = source.substring_char(i, j).to_owned();
            tokens.push(Token { kind: TokenType::Number, line_num, content });
            proof {
                let t = SpecToken {
                    kind: TokenType::Number,
                    line: line_num as nat,
                    text: s.subrange(i as int, j as int),
                };
                assert(view_tokens(tokens@) =~= view_tokens(tokens0).push(t));
                if let Ok(ts) = spec_lex_from(s, j as nat, line_num as nat) {
                    assert(view_tokens(tokens0) + (seq![t] + ts) =~= view_tokens(tokens@) + ts);
                }
            }
            i = j;
            continue ;
        }
        if is_alpha_char_exec(c) || c == '_' {
            let mut j = i + 1;
            while j < n && (is_alpha_char_exec(source.get_char(j)) || source.get_char(j) == '_')
                invariant
                    s == source@,
                    n == s.len(),
                    j <= n,
                    i < j,
                    spec_scan_ident(s, (i + 1) as nat) == spec_scan_ident(s, j as nat),
                decreases n - j,
            {
                j = j + 1;
            }
            proof {
                assert(spec_scan_ident(s, j as nat) == j as nat);
            }
            let content = source.substring_char(i, j).to_owned();
            let kind = keyword_kind(&content);
            tokens.push(Token { kind, line_num, content });
            proof {
                let t = SpecToken {
                    kind: spec_keyword_kind(s.subrange(i as int, j as int)),
                    line: line_num as nat,
                    text: s.subrange(i as int, j as int),
                };
                assert(view_tokens(tokens@) =~= view_tokens(tokens0).push(t));
                if let Ok(ts) = spec_lex_from(s, j as nat, line_num as nat) {
                    assert(view_tokens(tokens0) + (seq![t] + ts) =~= view_tokens(tokens@) + ts);
                }
            }
            i = j;
            continue ;
        }
        let (kind, next) = if c == '>' {
            if i + 1 < n && source.get_char(i + 1) == '=' {
                (TokenType::GreaterEqual, i + 2)
            } else {
                (TokenType::Greater, i + 1)
            }
        } else if c == '<' {
            if i + 1 < n && source.get_char(i + 1) == '=' {
                (TokenType::LessEqual, i + 2)
            } else {
                (TokenType::Less, i + 1)
            }
        } else if c == '=' {
            if i + 1 < n && source.get_char(i + 1) == '=' {
                (TokenType::EqualEqual, i + 2)
            } else {
                (TokenType::Equal, i + 1)
            }
        } else if c == '!' {
            if i + 1 < n && source.get_char(i + 1) == '=' {
                (TokenType::BangEqual, i + 2)
            } else {
                (TokenType::Bang, i + 1)
            }
        } else if c == '+' {
            (TokenType::Plus, i + 1)
        } else if c == '-' {
            (TokenType::Minus, i + 1)
        } else if c == '*' {
            (TokenType::Star, i + 1)
        } else if c == '/' {
            (TokenType::Slash, i + 1)
        } else if c == '(' {
            (TokenType::LeftParen, i + 1)
        } else if c == ')' {
            (TokenType::RightParen, i + 1)
        } else if c == '{' {
            (TokenType::LeftBrace, i + 1)
        } else if c == '}' {
            (TokenType::RightBrace, i + 1)
        } else if c == ',' {
            (TokenType::Comma, i + 1)
        } else if c == '.' {
            (TokenType::Dot, i + 1)
        } else if c == ';' {
            (TokenType::Semicolon, i + 1)
        } else {
            // Unrecognized character.
            proof {
                assert(spec_operator(s, i as nat) is None);
            }
            return Err(VmError::CompileError);
        };
        proof {
            assert(spec_operator(s, i as nat) == Some((kind, next as nat)));
        }
        let content = source.substring_char(i, next).to_owned();
        tokens.push(Token { kind, line_num, content });
        proof {
            let t = SpecToken {
                kind,
                line: line_num as nat,
                text: s.subrange(i as int, next as int),
            };
            assert(view_tokens(tokens@) =~= view_tokens(tokens0).push(t));
            if let Ok(ts) = spec_lex_from(s, next as nat, line_num as nat) {
                assert(view_tokens(tokens0) + (seq![t] + ts) =~= view_tokens(tokens@) + ts);
            }
        }
        i = next;
    }
    let ghost tokens0 = tokens@;
    tokens.push(Token { kind: TokenType::Eof, line_num, content: String::new() });
    proof {
        let t = SpecToken {
            kind: TokenType::Eof,
            line: line_num as nat,
            text: Seq::<char>::empty(),
        };
        assert(view_tokens(tokens@) =~= view_tokens(tokens0).push(t));
        assert(view_tokens(tokens0) + seq![t] =~= view_tokens(tokens@));
    }
    Ok(tokens)
}

} // verus!
