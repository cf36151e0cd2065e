use vstd::prelude::*;

use crate::chunk::Chunk;
use crate::chunk::Op;
use crate::chunk::code_consts_ok;
use crate::chunk::stack_out;
use crate::chunk::lemma_stack_out_append;
use crate::chunk::lemma_stack_out_one;
use crate::chunk::lemma_stack_out_shift;
use crate::number::decimal_to_bits;
use crate::number::ieee_of_decimal;
use crate::scanner::LexError;
use crate::scanner::Scanner;
use crate::scanner::Token;
use crate::scanner::TokenType;
use crate::scanner::lemma_scan_shape;
use crate::scanner::number_lexeme;
use crate::scanner::spec_scan;
use crate::scanner::spec_skip_errors;
use crate::scanner::spec_skip_ws;
use crate::scanner::SpecToken;
use crate::value::Value;
use vstd::slice::slice_to_vec;

verus! {

/// The precedence scale, lowest to highest; binary operators bind their
/// right-hand operand one level above their own, which makes them
/// left-associative.
#[derive(Copy, Clone, Debug, PartialEq, Eq, Structural)]
pub enum Precedence {
    Lowest,
    Assignment,
    Or,
    And,
    Equality,
    Comparison,
    Term,
    Factor,
    Unary,
    Call,
    Primary,
}

impl Precedence {
    /// The scale as numeric levels, for comparisons.
    pub open spec fn spec_level(self) -> int {
        match self {
            Precedence::Lowest => 0,
            Precedence::Assignment => 1,
            Precedence::Or => 2,
            Precedence::And => 3,
            Precedence::Equality => 4,
            Precedence::Comparison => 5,
            Precedence::Term => 6,
            Precedence::Factor => 7,
            Precedence::Unary => 8,
            Precedence::Call => 9,
            Precedence::Primary => 10,
        }
    }

    fn level(&self) -> (r: u8)
        ensures
            r == self.spec_level(),
    {
        match self {
            Precedence::Lowest => 0,
            Precedence::Assignment => 1,
            Precedence::Or => 2,
            Precedence::And => 3,
            Precedence::Equality => 4,
            Precedence::Comparison => 5,
            Precedence::Term => 6,
            Precedence::Factor => 7,
            Precedence::Unary => 8,
            Precedence::Call => 9,
            Precedence::Primary => 10,
        }
    }

    pub open spec fn spec_next(self) -> Precedence {
        match self {
            Precedence::Lowest => Precedence::Assignment,
            Precedence::Assignment => Precedence::Or,
            Precedence::Or => Precedence::And,
            Precedence::And => Precedence::Equality,
            Precedence::Equality => Precedence::Comparison,
            Precedence::Comparison => Precedence::Term,
            Precedence::Term => Precedence::Factor,
            Precedence::Factor => Precedence::Unary,
            Precedence::Unary => Precedence::Call,
            Precedence::Call => Precedence::Primary,
            Precedence::Primary => Precedence::Lowest,
        }
    }

    /// The next level up the scale (and back to the bottom from the top).
    pub fn next(&self) -> (r: Self)
        ensures
            r == self.spec_next(),
    {
        match self {
            Precedence::Lowest => Precedence::Assignment,
            Precedence::Assignment => Precedence::Or,
            Precedence::Or => Precedence::And,
            Precedence::And => Precedence::Equality,
            Precedence::Equality => Precedence::Comparison,
            Precedence::Comparison => Precedence::Term,
            Precedence::Term => Precedence::Factor,
            Precedence::Factor => Precedence::Unary,
            Precedence::Unary => Precedence::Call,
            Precedence::Call => Precedence::Primary,
            Precedence::Primary => Precedence::Lowest,
        }
    }
}

/// The prefix grammar actions: what a token can start an expression with.
#[derive(Copy, Clone, Debug, PartialEq, Eq, Structural)]
pub enum PrefixFn {
    Grouping,
    Unary,
    Number,
    Literal,
}

/// The infix grammar actions: what a token can continue an expression
/// with. Every infix operator of this grammar is a binary operator.
#[derive(Copy, Clone, Debug, PartialEq, Eq, Structural)]
pub enum InfixFn {
    Binary,
}

/// One row of the parse table: an optional prefix action, an optional
/// infix action, and the token's infix precedence.
#[derive(Copy, Clone, Debug, PartialEq, Eq, Structural)]
pub struct ParseRule {
    pub prefix: Option<PrefixFn>,
    pub infix: Option<InfixFn>,
    pub precedence: Precedence,
}

impl ParseRule {
    pub fn new(prefix: Option<PrefixFn>, infix: Option<InfixFn>, precedence: Precedence) -> (r:
        Self)
        ensures
            r.prefix == prefix,
            r.infix == infix,
            r.precedence == precedence,
    {
        Self { prefix, infix, precedence }
    }
}

/// The fixed parse table, as a function of the token kind.
pub open spec fn spec_rule(kind: TokenType) -> ParseRule {
    match kind {
        TokenType::LeftParen => ParseRule {
            prefix: Some(PrefixFn::Grouping),
            infix: None,
            precedence: Precedence::Lowest,
        },
        TokenType::Minus => ParseRule {
            prefix: Some(PrefixFn::Unary),
            infix: Some(InfixFn::Binary),
            precedence: Precedence::Term,
        },
        TokenType::Plus => ParseRule {
            prefix: None,
            infix: Some(InfixFn::Binary),
            precedence: Precedence::Term,
        },
        TokenType::Slash => ParseRule {
            prefix: None,
            infix: Some(InfixFn::Binary),
            precedence: Precedence::Factor,
        },
        TokenType::Star => ParseRule {
            prefix: None,
            infix: Some(InfixFn::Binary),
            precedence: Precedence::Factor,
        },
        TokenType::Bang => ParseRule {
            prefix: Some(PrefixFn::Unary),
            infix: None,
            precedence: Precedence::Lowest,
        },
        TokenType::BangEqual => ParseRule {
            prefix: None,
            infix: Some(InfixFn::Binary),
            precedence: Precedence::Equality,
        },
        TokenType::EqualEqual => ParseRule {
            prefix: None,
            infix: Some(InfixFn::Binary),
            precedence: Precedence::Equality,
        },
        TokenType::Greater => ParseRule {
            prefix: None,
            infix: Some(InfixFn::Binary),
            precedence: Precedence::Comparison,
        },
        TokenType::GreaterEqual => ParseRule {
            prefix: None,
            infix: Some(InfixFn::Binary),
            precedence: Precedence::Comparison,
        },
        TokenType::Less => ParseRule {
            prefix: None,
            infix: Some(InfixFn::Binary),
            precedence: Precedence::Comparison,
        },
        TokenType::LessEqual => ParseRule {
            prefix: None,
            infix: Some(InfixFn::Binary),
            precedence: Precedence::Comparison,
        },
        TokenType::Number => ParseRule {
            prefix: Some(PrefixFn::Number),
            infix: None,
            precedence: Precedence::Lowest,
        },
        TokenType::False => ParseRule {
            prefix: Some(PrefixFn::Literal),
            infix: None,
            precedence: Precedence::Lowest,
        },
        TokenType::True => ParseRule {
            prefix: Some(PrefixFn::Literal),
            infix: None,
            precedence: Precedence::Lowest,
        },
        TokenType::Nil => ParseRule {
            prefix: Some(PrefixFn::Literal),
            infix: None,
            precedence: Precedence::Lowest,
        },
        _ => ParseRule { prefix: None, infix: None, precedence: Precedence::Lowest },
    }
}

/// Looks a token kind up in the parse table.
fn get_rule(kind: TokenType) -> (r: ParseRule)
    ensures
        r == spec_rule(kind),
{
    match kind {
        TokenType::LeftParen => ParseRule::new(Some(PrefixFn::Grouping), None, Precedence::Lowest),
        TokenType::Minus => ParseRule::new(
            Some(PrefixFn::Unary),
            Some(InfixFn::Binary),
            Precedence::Term,
        ),
        TokenType::Plus => ParseRule::new(None, Some(InfixFn::Binary), Precedence::Term),
        TokenType::Slash => ParseRule::new(None, Some(InfixFn::Binary), Precedence::Factor),
        TokenType::Star => ParseRule::new(None, Some(InfixFn::Binary), Precedence::Factor),
        TokenType::Bang => ParseRule::new(Some(PrefixFn::Unary), None, Precedence::Lowest),
        TokenType::BangEqual => ParseRule::new(None, Some(InfixFn::Binary), Precedence::Equality),
        TokenType::EqualEqual => ParseRule::new(None, Some(InfixFn::Binary), Precedence::Equality),
        TokenType::Greater => ParseRule::new(None, Some(InfixFn::Binary), Precedence::Comparison),
        TokenType::GreaterEqual => ParseRule::new(
            None,
            Some(InfixFn::Binary),
            Precedence::Comparison,
        ),
        TokenType::Less => ParseRule::new(None, Some(InfixFn::Binary), Precedence::Comparison),
        TokenType::LessEqual => ParseRule::new(None, Some(InfixFn::Binary), Precedence::Comparison),
        TokenType::Number => ParseRule::new(Some(PrefixFn::Number), None, Precedence::Lowest),
        TokenType::False => ParseRule::new(Some(PrefixFn::Literal), None, Precedence::Lowest),
        TokenType::True => ParseRule::new(Some(PrefixFn::Literal), None, Precedence::Lowest),
        TokenType::Nil => ParseRule::new(Some(PrefixFn::Literal), None, Precedence::Lowest),
        _ => ParseRule::new(None, None, Precedence::Lowest),
    }
}

/// What a derivation compiles to: the lookahead token just after the
/// expression, the instructions the expression emits, and the constants
/// it appends to the pool.
pub struct SpecEmit {
    pub next: SpecToken,
    pub code: Seq<Op>,
    pub consts: Seq<Value>,
}

/// The instruction a unary operator token compiles to.
pub open spec fn unary_op_of(kind: TokenType) -> Op {
    if kind == TokenType::Minus {
        Op::Negate
    } else {
        Op::Not
    }
}

/// The grammar and its compilation, phrased over the lexer's spec-level
/// tokens. `st` is the token a prefix action consumes; when the text from
/// `st` on forms a valid expression whose operators bind at least as
/// tightly as `prec`, the result holds the lookahead just after the
/// expression, the instructions it emits, and the constants it appends
/// to a pool that already holds `base` entries (load-constant operands
/// index from there). No error token may occur anywhere inside. `fuel`
/// bounds the recursion depth and only ever turns an answer into `None`:
/// validity means some fuel suffices.
pub open spec fn spec_expr(code: Seq<u8>, st: SpecToken, prec: int, base: nat, fuel: nat) -> Option<
    SpecEmit,
>
    decreases fuel, 1int,
{
    if fuel == 0 {
        None
    } else {
        let next = spec_scan(code, st.end, st.line);
        if next.kind == TokenType::Error {
            None
        } else {
            match spec_rule(st.kind).prefix {
                Option::None => None,
                Option::Some(PrefixFn::Grouping) => match spec_expr(
                    code,
                    next,
                    1,
                    base,
                    (fuel - 1) as nat,
                ) {
                    Option::Some(inner) => if inner.next.kind == TokenType::RightParen {
                        let behind = spec_scan(code, inner.next.end, inner.next.line);
                        if behind.kind == TokenType::Error {
                            None
                        } else {
                            match spec_infix(
                                code,
                                behind,
                                prec,
                                base + inner.consts.len(),
                                (fuel - 1) as nat,
                            ) {
                                Option::Some(rest) => Some(
                                    SpecEmit {
                                        next: rest.next,
                                        code: inner.code + rest.code,
                                        consts: inner.consts + rest.consts,
                                    },
                                ),
                                Option::None => None,
                            }
                        }
                    } else {
                        None
                    },
                    Option::None => None,
                },
                Option::Some(PrefixFn::Unary) => match spec_expr(
                    code,
                    next,
                    8,
                    base,
                    (fuel - 1) as nat,
                ) {
                    Option::Some(operand) => match spec_infix(
                        code,
                        operand.next,
                        prec,
                        base + operand.consts.len(),
                        (fuel - 1) as nat,
                    ) {
                        Option::Some(rest) => Some(
                            SpecEmit {
                                next: rest.next,
                                code: operand.code.push(unary_op_of(st.kind)) + rest.code,
                                consts: operand.consts + rest.consts,
                            },
                        ),
                        Option::None => None,
                    },
                    Option::None => None,
                },
                Option::Some(PrefixFn::Number) => match spec_infix(
                    code,
                    next,
                    prec,
                    base + 1,
                    (fuel - 1) as nat,
                ) {
                    Option::Some(rest) => Some(
                        SpecEmit {
                            next: rest.next,
                            code: seq![Op::Constant(base as usize)] + rest.code,
                            consts: seq![
                                Value::Number(
                                    ieee_of_decimal(code.subrange(st.start as int, st.end as int)),
                                ),
                            ] + rest.consts,
                        },
                    ),
                    Option::None => None,
                },
                Option::Some(PrefixFn::Literal) => match spec_infix(
                    code,
                    next,
                    prec,
                    base,
                    (fuel - 1) as nat,
                ) {
                    Option::Some(rest) => Some(
                        SpecEmit {
                            next: rest.next,
                            code: seq![literal_op(st.kind)] + rest.code,
                            consts: rest.consts,
                        },
                    ),
                    Option::None => None,
                },
            }
        }
    }
}

/// The infix half of the grammar: from lookahead `st`, consume operators
/// binding at least as tightly as `prec`, each followed by a right-hand
/// operand one level higher and the operator's own instruction; the
/// result is the lookahead, code and constants after the last operand.
pub open spec fn spec_infix(code: Seq<u8>, st: SpecToken, prec: int, base: nat, fuel: nat) -> Option<
    SpecEmit,
>
    decreases fuel, 0int,
{
    if prec <= spec_rule(st.kind).precedence.spec_level() {
        if fuel == 0 {
            None
        } else {
            let next = spec_scan(code, st.end, st.line);
            if next.kind == TokenType::Error {
                None
            } else {
                match spec_expr(
                    code,
                    next,
                    spec_rule(st.kind).precedence.spec_next().spec_level(),
                    base,
                    (fuel - 1) as nat,
                ) {
                    Option::Some(operand) => match spec_infix(
                        code,
                        operand.next,
                        prec,
                        base + operand.consts.len(),
                        (fuel - 1) as nat,
                    ) {
                        Option::Some(rest) => Some(
                            SpecEmit {
                                next: rest.next,
                                code: operand.code.push(binary_op_of(st.kind)) + rest.code,
                                consts: operand.consts + rest.consts,
                            },
                        ),
                        Option::None => None,
                    },
                    Option::None => None,
                }
            }
        }
    } else {
        Some(SpecEmit { next: st, code: Seq::empty(), consts: Seq::empty() })
    }
}

/// A syntactically valid compilation unit: the first token scanned from
/// the start is no error token, some fuel derives a complete expression
/// from it, and the lookahead after the expression is end-of-input.
pub open spec fn spec_valid_source(code: Seq<u8>) -> bool {
    let first = spec_scan(code, 0, 0);
    &&& first.kind != TokenType::Error
    &&& exists|fuel: nat|
        (#[trigger] spec_expr(code, first, 1, 0, fuel)) matches Some(em) && em.next.kind
            == TokenType::Eof
}

/// What a compile diagnostic points at: the end of input, an error token
/// (whose own text is the diagnostic), or an ordinary token's lexeme.
#[derive(Debug, Clone, PartialEq, Eq)]
pub enum DiagnosticContext {
    AtEnd,
    AtErrorToken,
    AtLexeme(Vec<u8>),
}

/// Every message a compile diagnostic can carry.
#[derive(Debug, Copy, Clone, PartialEq, Eq, Structural)]
pub enum CompileMessage {
    ExpectExpression,
    ExpectRightParen,
    ExpectEndOfExpression,
    UnexpectedCharacter,
    UnterminatedString,
}

/// One compile-time diagnostic: the offending token's source line, what
/// the diagnostic points at, and the message.
#[derive(Debug, Clone, PartialEq, Eq)]
pub struct CompileDiagnostic {
    pub line: usize,
    pub at: DiagnosticContext,
    pub message: CompileMessage,
}


/// A source line clamped to the line index's 16-bit range.
pub open spec fn spec_sat_line(line: nat) -> u16 {
    if line > 65535 {
        65535u16
    } else {
        line as u16
    }
}

/// The instruction a literal keyword compiles to.
pub open spec fn literal_op(kind: TokenType) -> Op {
    match kind {
        TokenType::False => Op::False,
        TokenType::True => Op::True,
        _ => Op::Nil,
    }
}

/// The instruction a binary operator token compiles to.
pub open spec fn binary_op_of(kind: TokenType) -> Op {
    match kind {
        TokenType::Plus => Op::Add,
        TokenType::Minus => Op::Subtract,
        TokenType::Star => Op::Multiply,
        TokenType::Slash => Op::Divide,
        TokenType::BangEqual => Op::NotEqual,
        TokenType::EqualEqual => Op::Equal,
        TokenType::Greater => Op::Greater,
        TokenType::GreaterEqual => Op::GreaterEqual,
        TokenType::Less => Op::Less,
        _ => Op::LessEqual,
    }
}

/// A token is harmless to the numeric-literal machinery unless it is a
/// number token, in which case its lexeme must have the literal shape.
pub open spec fn number_token_ok(t: Token) -> bool {
    t.kind == TokenType::Number ==> number_lexeme(t.lexeme@)
}

/// The compile message an error token's diagnostic carries.
pub open spec fn lex_message(error: Option<LexError>) -> CompileMessage {
    match error {
        Some(LexError::UnexpectedCharacter) => CompileMessage::UnexpectedCharacter,
        Some(LexError::UnterminatedString) => CompileMessage::UnterminatedString,
        None => CompileMessage::UnexpectedCharacter,
    }
}

/// The diagnostics grew by exactly one entry, reporting `message` at
/// `token`: the token's line, and as context the end of input, nothing
/// for an error token (whose own text is the diagnostic), or the token's
/// lexeme.
pub open spec fn reported_diagnostic<'sc>(
    pre: Seq<CompileDiagnostic>,
    post: Seq<CompileDiagnostic>,
    token: Token<'sc>,
    message: CompileMessage,
) -> bool {
    let d = post.last();
    &&& post == pre.push(d)
    &&& d.message == message
    &&& d.line == token.line
    &&& (token.kind == TokenType::Eof ==> d.at == DiagnosticContext::AtEnd)
    &&& (token.kind == TokenType::Error ==> d.at == DiagnosticContext::AtErrorToken)
    &&& ((token.kind != TokenType::Eof && token.kind != TokenType::Error) ==> (d.at
        matches DiagnosticContext::AtLexeme(lexeme) && lexeme@ == token.lexeme@))
}

/// The single-pass compiler: the two-token lookahead window, the error
/// flags, the chunk being emitted into, the lexer, and the diagnostics
/// collected so far. Errors do not abort parsing; an error latches
/// `had_error` (so compilation fails as a unit) and raises `panic_mode`,
/// which suppresses the cascade of follow-on reports and ends at the
/// next successful advance past the trouble.
pub struct Parser<'sc> {
    pub current: Token<'sc>,
    pub previous: Token<'sc>,
    pub had_error: bool,
    pub panic_mode: bool,
    pub chunk: Chunk,
    pub scanner: Scanner<'sc>,
    pub diagnostics: Vec<CompileDiagnostic>,
}

impl<'sc> Parser<'sc> {
    /// The parser's invariant: lexer and chunk well-formed, constants in
    /// bounds, emission lines non-decreasing and at or behind the token
    /// window, the window consistent with the lexer, the error flags
    /// consistent with the diagnostics, and number lexemes well-shaped.
    pub open spec fn wf(&self) -> bool {
        &&& self.scanner.wf()
        &&& self.chunk.wf()
        &&& code_consts_ok(self.chunk.code@, self.chunk.values@.len())
        &&& self.chunk.last_line() as nat <= self.previous.line as nat
        &&& self.previous.line <= self.current.line
        &&& self.current.line == self.scanner.line
        &&& (self.current.kind == TokenType::Eof ==> self.scanner.current
            == self.scanner.code@.len())
        &&& (self.panic_mode ==> self.had_error)
        &&& (self.had_error <==> self.diagnostics@.len() > 0)
        &&& number_token_ok(self.previous)
        &&& number_token_ok(self.current)
        &&& (self.current.kind == TokenType::Number ==> self.current.lexeme@
            == self.scanner.code@.subrange(self.scanner.start as int, self.scanner.current as int))
    }

    /// The lookahead token as the lexer's spec-level token: after any
    /// `advance`, this is exactly what `spec_scan` said at the previous
    /// cursor position.
    pub open spec fn lookahead_token(self) -> SpecToken {
        SpecToken {
            kind: self.current.kind,
            start: self.scanner.start as nat,
            end: self.scanner.current as nat,
            line: self.current.line as nat,
            error: self.current.error,
        }
    }

    /// The termination measure of the parsing recursion: the source not
    /// yet consumed, plus one for a lookahead token short of end-of-input.
    pub open spec fn measure(&self) -> int {
        self.scanner.code@.len() - self.scanner.current + if self.current.kind
            == TokenType::Eof {
            0int
        } else {
            1int
        }
    }

    /// What every parsing step guarantees: the source is fixed, a
    /// reported error is never unreported, the measure never grows, and
    /// the chunk only ever grows at the end.
    pub open spec fn parse_progress(pre: Self, post: Self) -> bool {
        &&& post.scanner.code@ == pre.scanner.code@
        &&& (pre.had_error ==> post.had_error)
        &&& post.measure() <= pre.measure()
        &&& pre.chunk.code@.is_prefix_of(post.chunk.code@)
        &&& pre.chunk.values@.is_prefix_of(post.chunk.values@)
    }

    /// An error-free parsing step emitted code that pushes exactly one
    /// value onto an empty stack: a complete expression.
    pub open spec fn emits_one(pre: Self, post: Self) -> bool {
        !post.had_error ==> stack_out(
            post.chunk.code@.skip(pre.chunk.code@.len() as int),
            0,
        ) == Some(1nat)
    }

    pub fn new(source: &'sc [u8]) -> (p: Self)
        ensures
            p.wf(),
            !p.had_error,
            !p.panic_mode,
            p.chunk.code@.len() == 0,
            p.chunk.values@.len() == 0,
            p.diagnostics@.len() == 0,
            p.scanner.code@ == source@,
            p.scanner.current == 0,
            p.scanner.line == 0,
            p.current.kind == TokenType::Nil,
    {
        Self {
            current: Token::new(),
            previous: Token::new(),
            had_error: false,
            panic_mode: false,
            chunk: Chunk::new(),
            scanner: Scanner::new(source),
            diagnostics: Vec::new(),
        }
    }

    /// Reports an error at the given token: sets both flags and, unless
    /// panic mode already suppresses reports, records the diagnostic:
    /// the token's line, what it points at (the end of input, nothing for
    /// an error token, or the token's lexeme), and the message.
    fn error_at(&mut self, token: Token<'sc>, message: CompileMessage)
        requires
            old(self).wf(),
        ensures
            final(self).wf(),
            final(self).had_error,
            final(self).panic_mode,
            final(self).chunk == old(self).chunk,
            final(self).scanner == old(self).scanner,
            final(self).current == old(self).current,
            final(self).previous == old(self).previous,
            old(self).panic_mode ==> final(self).diagnostics == old(self).diagnostics,
            !old(self).panic_mode ==> reported_diagnostic(
                old(self).diagnostics@,
                final(self).diagnostics@,
                token,
                message,
            ),
    {
        if self.panic_mode {
            return ;
        }
        self.panic_mode = true;
        self.had_error = true;
        let at = match token.kind {
            TokenType::Eof => DiagnosticContext::AtEnd,
            TokenType::Error => DiagnosticContext::AtErrorToken,
            _ => DiagnosticContext::AtLexeme(slice_to_vec(token.lexeme)),
        };
        self.diagnostics.push(CompileDiagnostic { line: token.line, at, message });
    }

    /// An error at the lookahead token.
    fn error_at_current(&mut self, message: CompileMessage)
        requires
            old(self).wf(),
        ensures
            final(self).wf(),
            final(self).had_error,
            final(self).panic_mode,
            final(self).chunk == old(self).chunk,
            final(self).scanner == old(self).scanner,
            final(self).current == old(self).current,
            final(self).previous == old(self).previous,
            old(self).panic_mode ==> final(self).diagnostics == old(self).diagnostics,
            !old(self).panic_mode ==> reported_diagnostic(
                old(self).diagnostics@,
                final(self).diagnostics@,
                old(self).current,
                message,
            ),
    {
        let token = self.current;
        self.error_at(token, message);
    }

    /// An error at the token just consumed.
    fn error(&mut self, message: CompileMessage)
        requires
            old(self).wf(),
        ensures
            final(self).wf(),
            final(self).had_error,
            final(self).panic_mode,
            final(self).chunk == old(self).chunk,
            final(self).scanner == old(self).scanner,
            final(self).current == old(self).current,
            final(self).previous == old(self).previous,
            old(self).panic_mode ==> final(self).diagnostics == old(self).diagnostics,
            !old(self).panic_mode ==> reported_diagnostic(
                old(self).diagnostics@,
                final(self).diagnostics@,
                old(self).previous,
                message,
            ),
    {
        let token = self.previous;
        self.error_at(token, message);
    }

    /// Shifts the lookahead into `previous` and lexes a new lookahead,
    /// reporting and absorbing any run of error tokens; panic mode
    /// suppresses the reports of all but the first error of a cascade,
    /// and ends once the cursor stands past the errors, on a healthy
    /// token — so a later, separate error is reported again. Returns
    /// whether compilation is still error-free.
    pub fn advance(&mut self) -> (r: bool)
        requires
            old(self).wf(),
        ensures
            final(self).wf(),
            Self::parse_progress(*old(self), *final(self)),
            final(self).chunk == old(self).chunk,
            final(self).previous == old(self).current,
            final(self).current.kind != TokenType::Error,
            old(self).current.kind != TokenType::Eof ==> final(self).measure() < old(
                self,
            ).measure(),
            old(self).current.kind == TokenType::Eof ==> final(self).current.kind
                == TokenType::Eof,
            r == !final(self).had_error,
            !final(self).panic_mode,
            Self::lookahead_token(*final(self)) == spec_skip_errors(
                old(self).scanner.code@,
                old(self).scanner.current as nat,
                old(self).scanner.line as nat,
            ),
            ({
                let st = spec_scan(
                    old(self).scanner.code@,
                    old(self).scanner.current as nat,
                    old(self).scanner.line as nat,
                );
                st.kind != TokenType::Error ==> {
                    &&& Self::lookahead_token(*final(self)) == st
                    &&& final(self).had_error == old(self).had_error
                    &&& final(self).diagnostics == old(self).diagnostics
                }
            }),
            ({
                let st = spec_scan(
                    old(self).scanner.code@,
                    old(self).scanner.current as nat,
                    old(self).scanner.line as nat,
                );
                st.kind == TokenType::Error ==> {
                    &&& final(self).had_error
                    &&& (old(self).panic_mode ==> final(self).diagnostics == old(self).diagnostics)
                    &&& (!old(self).panic_mode ==> ({
                        let d = final(self).diagnostics@.last();
                        &&& final(self).diagnostics@ == old(self).diagnostics@.push(d)
                        &&& d.message == lex_message(st.error)
                        &&& d.line == st.line
                        &&& d.at == DiagnosticContext::AtErrorToken
                    }))
                }
            }),
    {
        self.previous = self.current;
        let ghost pos0 = self.scanner.current as nat;
        let ghost kind0 = old(self).current.kind;
        let ghost line0 = self.scanner.line as nat;
        let ghost st0 = spec_scan(self.scanner.code@, pos0, line0);
        loop
            invariant_except_break
                self.scanner.current == pos0 ==> self.current == old(self).current
                    && self.scanner.line == line0 && self.had_error == old(self).had_error
                    && self.panic_mode == old(self).panic_mode && self.diagnostics == old(
                    self,
                ).diagnostics,
                self.scanner.current > pos0 ==> st0.kind == TokenType::Error,
                st0.kind == TokenType::Error && self.scanner.current > pos0 ==> {
                    &&& self.had_error
                    &&& self.panic_mode
                    &&& (old(self).panic_mode ==> self.diagnostics == old(self).diagnostics)
                    &&& (!old(self).panic_mode ==> ({
                        let d = self.diagnostics@.last();
                        &&& self.diagnostics@ == old(self).diagnostics@.push(d)
                        &&& d.message == lex_message(st0.error)
                        &&& d.line == st0.line
                        &&& d.at == DiagnosticContext::AtErrorToken
                    }))
                },
                spec_skip_errors(
                    self.scanner.code@,
                    self.scanner.current as nat,
                    self.scanner.line as nat,
                ) == spec_skip_errors(old(self).scanner.code@, pos0, line0),
            invariant
                line0 == old(self).scanner.line,
                st0 == spec_scan(old(self).scanner.code@, pos0, line0),
                self.scanner.wf(),
                self.scanner.code@ == old(self).scanner.code@,
                self.chunk == old(self).chunk,
                self.previous == old(self).current,
                self.had_error <==> self.diagnostics@.len() > 0,
                self.panic_mode ==> self.had_error,
                old(self).had_error ==> self.had_error,
                self.current.line == self.scanner.line,
                self.previous.line <= self.scanner.line,
                self.chunk.last_line() as nat <= self.previous.line as nat,
                self.current.kind == TokenType::Eof ==> self.scanner.current
                    == self.scanner.code@.len(),
                number_token_ok(self.previous),
                number_token_ok(self.current),
                self.current.kind == TokenType::Number ==> self.current.lexeme@
                    == self.scanner.code@.subrange(
                    self.scanner.start as int,
                    self.scanner.current as int,
                ),
                self.chunk.wf(),
                code_consts_ok(self.chunk.code@, self.chunk.values@.len()),
                pos0 == old(self).scanner.current,
                kind0 == old(self).current.kind,
                self.scanner.current >= pos0,
                kind0 == TokenType::Eof ==> self.scanner.current == pos0 && pos0
                    == self.scanner.code@.len(),
            ensures
                self.current.kind != TokenType::Error,
                self.current.kind == TokenType::Eof ==> self.scanner.current
                    == self.scanner.code@.len(),
                self.scanner.current > pos0 || self.current.kind == TokenType::Eof,
                st0.kind != TokenType::Error ==> Self::lookahead_token(*self) == st0
                    && self.had_error == old(self).had_error && self.diagnostics == old(
                    self,
                ).diagnostics,
                Self::lookahead_token(*self) == spec_skip_errors(
                    old(self).scanner.code@,
                    pos0,
                    line0,
                ),
                st0.kind == TokenType::Error ==> {
                    &&& self.had_error
                    &&& (old(self).panic_mode ==> self.diagnostics == old(self).diagnostics)
                    &&& (!old(self).panic_mode ==> ({
                        let d = self.diagnostics@.last();
                        &&& self.diagnostics@ == old(self).diagnostics@.push(d)
                        &&& d.message == lex_message(st0.error)
                        &&& d.line == st0.line
                        &&& d.at == DiagnosticContext::AtErrorToken
                    }))
                },
            decreases self.scanner.code@.len() - self.scanner.current,
        {
            proof {
                lemma_scan_shape(
                    self.scanner.code@,
                    self.scanner.current as nat,
                    self.scanner.line as nat,
                );
            }
            let token = self.scanner.scan_token();
            self.current = token;
            if token.kind == TokenType::Error {
                let message = match token.error {
                    Some(LexError::UnexpectedCharacter) => CompileMessage::UnexpectedCharacter,
                    Some(LexError::UnterminatedString) => CompileMessage::UnterminatedString,
                    None => CompileMessage::UnexpectedCharacter,
                };
                self.error_at_current(message);
            } else {
                break ;
            }
        }
        self.panic_mode = false;
        !self.had_error
    }

    /// Consumes the lookahead when it has the expected kind; reports the
    /// given message otherwise.
    pub fn consume(&mut self, kind: TokenType, message: CompileMessage)
        requires
            old(self).wf(),
        ensures
            final(self).wf(),
            Self::parse_progress(*old(self), *final(self)),
            final(self).chunk == old(self).chunk,
            !final(self).had_error ==> old(self).current.kind == kind && !old(self).had_error,
            old(self).current.kind == kind ==> final(self).previous == old(self).current,
            ({
                let st = spec_scan(
                    old(self).scanner.code@,
                    old(self).scanner.current as nat,
                    old(self).scanner.line as nat,
                );
                (old(self).current.kind == kind && st.kind != TokenType::Error) ==> {
                    &&& Self::lookahead_token(*final(self)) == st
                    &&& final(self).had_error == old(self).had_error
                    &&& final(self).diagnostics == old(self).diagnostics
                }
            }),
            old(self).current.kind != kind ==> {
                &&& final(self).scanner == old(self).scanner
                &&& final(self).current == old(self).current
                &&& final(self).previous == old(self).previous
                &&& final(self).had_error
                &&& final(self).panic_mode
                &&& (old(self).panic_mode ==> final(self).diagnostics == old(self).diagnostics)
                &&& (!old(self).panic_mode ==> reported_diagnostic(
                    old(self).diagnostics@,
                    final(self).diagnostics@,
                    old(self).current,
                    message,
                ))
            },
    {
        if self.current.kind == kind {
            let _ = self.advance();
        } else {
            self.error_at_current(message);
        }
    }

    /// Emits one instruction, attributed to the line of the token most
    /// recently consumed.
    fn emit(&mut self, operator: Op)
        requires
            old(self).wf(),
            operator matches Op::Constant(k) ==> k < old(self).chunk.values@.len(),
        ensures
            final(self).wf(),
            final(self).chunk.code@ == old(self).chunk.code@.push(operator),
            final(self).chunk.values@ == old(self).chunk.values@,
            final(self).scanner == old(self).scanner,
            final(self).current == old(self).current,
            final(self).previous == old(self).previous,
            final(self).had_error == old(self).had_error,
            final(self).panic_mode == old(self).panic_mode,
            final(self).diagnostics == old(self).diagnostics,
            final(self).chunk.line_seq() == old(self).chunk.line_seq().push(
                spec_sat_line(old(self).previous.line as nat),
            ),
    {
        let line: u16 = if self.previous.line > 65535 {
            65535
        } else {
            self.previous.line as u16
        };
        self.chunk.add_operator(operator, line);
    }

    /// Emits the trailing return instruction.
    fn emit_return(&mut self)
        requires
            old(self).wf(),
        ensures
            final(self).wf(),
            final(self).chunk.code@ == old(self).chunk.code@.push(Op::Return),
            final(self).chunk.values@ == old(self).chunk.values@,
            final(self).scanner == old(self).scanner,
            final(self).had_error == old(self).had_error,
            final(self).diagnostics == old(self).diagnostics,
    {
        self.emit(Op::Return);
    }

    /// Appends a constant to the pool and emits the instruction that
    /// loads it.
    fn emit_constant(&mut self, value: Value)
        requires
            old(self).wf(),
        ensures
            final(self).wf(),
            final(self).chunk.code@ == old(self).chunk.code@.push(
                Op::Constant(old(self).chunk.values@.len() as usize),
            ),
            final(self).chunk.values@ == old(self).chunk.values@.push(value),
            final(self).scanner == old(self).scanner,
            final(self).current == old(self).current,
            final(self).previous == old(self).previous,
            final(self).had_error == old(self).had_error,
            final(self).panic_mode == old(self).panic_mode,
            final(self).diagnostics == old(self).diagnostics,
    {
        let line: u16 = if self.previous.line > 65535 {
            65535
        } else {
            self.previous.line as u16
        };
        let index = self.chunk.add_constant(value, line);
        self.emit(Op::Constant(index));
    }

    /// Finishes compilation by emitting the trailing return instruction.
    pub fn end_compiler(&mut self)
        requires
            old(self).wf(),
        ensures
            final(self).wf(),
            final(self).chunk.code@ == old(self).chunk.code@.push(Op::Return),
            final(self).chunk.values@ == old(self).chunk.values@,
            final(self).had_error == old(self).had_error,
            final(self).diagnostics == old(self).diagnostics,
    {
        self.emit_return();
    }

    /// A numeric literal: loads the double its lexeme denotes.
    fn number(&mut self)
        requires
            old(self).wf(),
            old(self).previous.kind == TokenType::Number,
        ensures
            final(self).wf(),
            final(self).chunk.code@ == old(self).chunk.code@.push(
                Op::Constant(old(self).chunk.values@.len() as usize),
            ),
            final(self).chunk.values@ == old(self).chunk.values@.push(
                Value::Number(ieee_of_decimal(old(self).previous.lexeme@)),
            ),
            final(self).scanner == old(self).scanner,
            final(self).current == old(self).current,
            final(self).previous == old(self).previous,
            final(self).had_error == old(self).had_error,
            final(self).panic_mode == old(self).panic_mode,
            final(self).diagnostics == old(self).diagnostics,
    {
        let bits = decimal_to_bits(self.previous.lexeme);
        self.emit_constant(Value::Number(bits));
    }

    /// A literal keyword: pushes the corresponding constant value.
    fn literal(&mut self)
        requires
            old(self).wf(),
            old(self).previous.kind == TokenType::False || old(self).previous.kind
                == TokenType::True || old(self).previous.kind == TokenType::Nil,
        ensures
            final(self).wf(),
            final(self).chunk.code@ == old(self).chunk.code@.push(
                literal_op(old(self).previous.kind),
            ),
            final(self).chunk.values@ == old(self).chunk.values@,
            final(self).scanner == old(self).scanner,
            final(self).current == old(self).current,
            final(self).previous == old(self).previous,
            final(self).had_error == old(self).had_error,
            final(self).panic_mode == old(self).panic_mode,
            final(self).diagnostics == old(self).diagnostics,
    {
        match self.previous.kind {
            TokenType::False => self.emit(Op::False),
            TokenType::True => self.emit(Op::True),
            TokenType::Nil => self.emit(Op::Nil),
            _ => {},
        }
    }

    /// A parenthesized expression: the inner expression, then the
    /// required closing parenthesis.
    fn grouping(&mut self)
        requires
            old(self).wf(),
        ensures
            final(self).wf(),
            Self::parse_progress(*old(self), *final(self)),
            Self::emits_one(*old(self), *final(self)),
            forall|fuel: nat|
                !old(self).had_error ==> ((#[trigger] spec_expr(
                    old(self).scanner.code@,
                    Self::lookahead_token(*old(self)),
                    1,
                    old(self).chunk.values@.len() as nat,
                    fuel,
                )) matches Some(em) ==> ((em.next.kind == TokenType::RightParen && spec_scan(
                    old(self).scanner.code@,
                    em.next.end,
                    em.next.line,
                ).kind != TokenType::Error) ==> (!final(self).had_error && Self::lookahead_token(
                    *final(self),
                ) == spec_scan(old(self).scanner.code@, em.next.end, em.next.line)
                    && final(self).chunk.code@ == old(self).chunk.code@ + em.code
                    && final(self).chunk.values@ == old(self).chunk.values@ + em.consts))),
        decreases old(self).measure(), 2int,
    {
        self.expression();
        self.consume(TokenType::RightParen, CompileMessage::ExpectRightParen);
    }

    /// Parses any expression.
    pub fn expression(&mut self)
        requires
            old(self).wf(),
        ensures
            final(self).wf(),
            Self::parse_progress(*old(self), *final(self)),
            Self::emits_one(*old(self), *final(self)),
            forall|fuel: nat|
                !old(self).had_error ==> ((#[trigger] spec_expr(
                    old(self).scanner.code@,
                    Self::lookahead_token(*old(self)),
                    1,
                    old(self).chunk.values@.len() as nat,
                    fuel,
                )) matches Some(em) ==> (!final(self).had_error && Self::lookahead_token(
                    *final(self),
                ) == em.next && final(self).chunk.code@ == old(self).chunk.code@ + em.code
                    && final(self).chunk.values@ == old(self).chunk.values@ + em.consts)),
        decreases old(self).measure(), 1int,
    {
        self.parse_precedence(Precedence::Assignment);
    }

    /// A unary operator: its operand at unary precedence, then the
    /// negate or logical-not instruction.
    fn unary(&mut self)
        requires
            old(self).wf(),
            old(self).previous.kind == TokenType::Minus || old(self).previous.kind
                == TokenType::Bang,
        ensures
            final(self).wf(),
            Self::parse_progress(*old(self), *final(self)),
            Self::emits_one(*old(self), *final(self)),
            forall|fuel: nat|
                !old(self).had_error ==> ((#[trigger] spec_expr(
                    old(self).scanner.code@,
                    Self::lookahead_token(*old(self)),
                    8,
                    old(self).chunk.values@.len() as nat,
                    fuel,
                )) matches Some(em) ==> (!final(self).had_error && Self::lookahead_token(
                    *final(self),
                ) == em.next && final(self).chunk.code@ == old(self).chunk.code@ + em.code.push(
                    unary_op_of(old(self).previous.kind),
                ) && final(self).chunk.values@ == old(self).chunk.values@ + em.consts)),
        decreases old(self).measure(), 2int,
    {
        let operator_type = self.previous.kind;
        let ghost pre = *self;
        self.parse_precedence(Precedence::Unary);
        let ghost mid = *self;
        let op = if operator_type == TokenType::Minus {
            Op::Negate
        } else {
            Op::Not
        };
        self.emit(op);
        proof {
            if !self.had_error {
                let delta_rhs = mid.chunk.code@.skip(pre.chunk.code@.len() as int);
                let delta = self.chunk.code@.skip(pre.chunk.code@.len() as int);
                assert(delta =~= delta_rhs + seq![op]);
                lemma_stack_out_one(op, 1nat);
                lemma_stack_out_append(delta_rhs, seq![op], 0nat, 1nat);
            }
            let code = pre.scanner.code@;
            let lh = Self::lookahead_token(pre);
            let base = pre.chunk.values@.len() as nat;
            assert forall|fuel: nat|
                !pre.had_error ==> ((#[trigger] spec_expr(code, lh, 8, base, fuel)) matches Some(
                    em,
                ) ==> (self.chunk.code@ == pre.chunk.code@ + em.code.push(op)
                    && self.chunk.values@ == pre.chunk.values@ + em.consts)) by {
                if !pre.had_error {
                    match spec_expr(code, lh, 8, base, fuel) {
                        Option::Some(em) => {
                            assert(self.chunk.code@ =~= pre.chunk.code@ + em.code.push(op));
                        },
                        Option::None => {},
                    }
                }
            }
        }
    }

    /// A binary operator: its right-hand operand one precedence level
    /// higher (left associativity), then the operator's instruction. The
    /// emitted code consumes the left-hand value already on the stack.
    fn binary(&mut self)
        requires
            old(self).wf(),
            spec_rule(old(self).previous.kind).infix == Some(InfixFn::Binary),
        ensures
            final(self).wf(),
            Self::parse_progress(*old(self), *final(self)),
            !final(self).had_error ==> stack_out(
                final(self).chunk.code@.skip(old(self).chunk.code@.len() as int),
                1nat,
            ) == Some(1nat),
            forall|fuel: nat|
                !old(self).had_error ==> ((#[trigger] spec_expr(
                    old(self).scanner.code@,
                    Self::lookahead_token(*old(self)),
                    spec_rule(old(self).previous.kind).precedence.spec_next().spec_level(),
                    old(self).chunk.values@.len() as nat,
                    fuel,
                )) matches Some(em) ==> (!final(self).had_error && Self::lookahead_token(
                    *final(self),
                ) == em.next && final(self).chunk.code@ == old(self).chunk.code@ + em.code.push(
                    binary_op_of(old(self).previous.kind),
                ) && final(self).chunk.values@ == old(self).chunk.values@ + em.consts)),
        decreases old(self).measure(), 2int,
    {
        let operator_type = self.previous.kind;
        let rule = get_rule(operator_type);
        let ghost pre = *self;
        self.parse_precedence(rule.precedence.next());
        let ghost mid = *self;
        let op = match operator_type {
            TokenType::Plus => Op::Add,
            TokenType::Minus => Op::Subtract,
            TokenType::Star => Op::Multiply,
            TokenType::Slash => Op::Divide,
            TokenType::BangEqual => Op::NotEqual,
            TokenType::EqualEqual => Op::Equal,
            TokenType::Greater => Op::Greater,
            TokenType::GreaterEqual => Op::GreaterEqual,
            TokenType::Less => Op::Less,
            _ => Op::LessEqual,
        };
        self.emit(op);
        proof {
            if !self.had_error {
                let delta_rhs = mid.chunk.code@.skip(pre.chunk.code@.len() as int);
                let delta = self.chunk.code@.skip(pre.chunk.code@.len() as int);
                assert(delta =~= delta_rhs + seq![op]);
                lemma_stack_out_shift(delta_rhs, 0nat, 1nat, 1nat);
                lemma_stack_out_one(op, 2nat);
                lemma_stack_out_append(delta_rhs, seq![op], 1nat, 2nat);
            }
            let code = pre.scanner.code@;
            let lh = Self::lookahead_token(pre);
            let base = pre.chunk.values@.len() as nat;
            let lvl = spec_rule(operator_type).precedence.spec_next().spec_level();
            assert(op == binary_op_of(operator_type));
            assert forall|fuel: nat|
                !pre.had_error ==> ((#[trigger] spec_expr(code, lh, lvl, base, fuel)) matches Some(
                    em,
                ) ==> (self.chunk.code@ == pre.chunk.code@ + em.code.push(op)
                    && self.chunk.values@ == pre.chunk.values@ + em.consts)) by {
                if !pre.had_error {
                    match spec_expr(code, lh, lvl, base, fuel) {
                        Option::Some(em) => {
                            assert(self.chunk.code@ =~= pre.chunk.code@ + em.code.push(op));
                        },
                        Option::None => {},
                    }
                }
            }
        }
    }

    /// Whether the lookahead token's infix precedence is at least the
    /// given level, so parsing of the current expression continues.
    fn is_lower_precedence(&self, precedence: Precedence) -> (r: bool)
        ensures
            r == (precedence.spec_level() <= spec_rule(
                self.current.kind,
            ).precedence.spec_level()),
    {
        let current_precedence = get_rule(self.current.kind).precedence;
        precedence.level() <= current_precedence.level()
    }

    /// The precedence-climbing core: one prefix action, then infix
    /// actions as long as the lookahead binds at least as tightly as
    /// `precedence`.
    #[verifier::rlimit(100)]
    #[verifier::spinoff_prover]
    fn parse_precedence(&mut self, precedence: Precedence)
        requires
            old(self).wf(),
            precedence.spec_level() >= 1,
        ensures
            final(self).wf(),
            Self::parse_progress(*old(self), *final(self)),
            Self::emits_one(*old(self), *final(self)),
            forall|fuel: nat|
                !old(self).had_error ==> ((#[trigger] spec_expr(
                    old(self).scanner.code@,
                    Self::lookahead_token(*old(self)),
                    precedence.spec_level(),
                    old(self).chunk.values@.len() as nat,
                    fuel,
                )) matches Some(em) ==> (!final(self).had_error && Self::lookahead_token(
                    *final(self),
                ) == em.next && final(self).chunk.code@ == old(self).chunk.code@ + em.code
                    && final(self).chunk.values@ == old(self).chunk.values@ + em.consts)),
            (spec_rule(old(self).current.kind).prefix is None) ==> {
                &&& final(self).had_error
                &&& final(self).chunk.code@ == old(self).chunk.code@
                &&& final(self).chunk.values@ == old(self).chunk.values@
                &&& (spec_scan(
                    old(self).scanner.code@,
                    old(self).scanner.current as nat,
                    old(self).scanner.line as nat,
                ).kind != TokenType::Error ==> reported_diagnostic(
                    old(self).diagnostics@,
                    final(self).diagnostics@,
                    old(self).current,
                    CompileMessage::ExpectExpression,
                ))
            },
        decreases old(self).measure(), 0int,
    {
        let ghost entry = *self;
        let _ = self.advance();
        let prefix_rule = get_rule(self.previous.kind).prefix;
        let ghost pre = *self;
        match prefix_rule {
            None => {
                self.error(CompileMessage::ExpectExpression);
                return ;
            },
            Some(PrefixFn::Grouping) => {
                proof {
                    assert(entry.current.kind != TokenType::Eof);
                }
                self.grouping();
            },
            Some(PrefixFn::Unary) => {
                proof {
                    assert(entry.current.kind != TokenType::Eof);
                }
                self.unary();
            },
            Some(PrefixFn::Number) => {
                proof {
                    assert(self.previous.kind == TokenType::Number);
                }
                let ghost op = Op::Constant(self.chunk.values@.len() as usize);
                self.number();
                proof {
                    assert(self.chunk.code@.skip(pre.chunk.code@.len() as int) =~= seq![op]);
                    lemma_stack_out_one(op, 0nat);
                }
            },
            Some(PrefixFn::Literal) => {
                let ghost op = literal_op(self.previous.kind);
                self.literal();
                proof {
                    assert(self.chunk.code@.skip(pre.chunk.code@.len() as int) =~= seq![op]);
                    lemma_stack_out_one(op, 0nat);
                }
            },
        }
        proof {
            if !self.had_error {
                assert(self.chunk.code@.skip(entry.chunk.code@.len() as int) =~= self
                    .chunk
                    .code@
                    .skip(pre.chunk.code@.len() as int));
            }
            let code = entry.scanner.code@;
            let lh = Self::lookahead_token(entry);
            let lvl = precedence.spec_level();
            let base = entry.chunk.values@.len() as nat;
            assert forall|fuel: nat|
                !entry.had_error ==> ((#[trigger] spec_expr(code, lh, lvl, base, fuel))
                    matches Some(em) ==> (!self.had_error && exists|fuel2: nat|
                    (#[trigger] spec_infix(
                        code,
                        Self::lookahead_token(*self),
                        lvl,
                        self.chunk.values@.len() as nat,
                        fuel2,
                    )) matches Some(rest) && rest.next == em.next && self.chunk.code@ + rest.code
                        == entry.chunk.code@ + em.code && self.chunk.values@ + rest.consts
                        == entry.chunk.values@ + em.consts)) by {
                if !entry.had_error {
                    match spec_expr(code, lh, lvl, base, fuel) {
                        Option::Some(em) => {
                            let next = spec_scan(code, lh.end, lh.line);
                            assert(Self::lookahead_token(pre) == next);
                            match spec_rule(lh.kind).prefix {
                                Option::None => {
                                    assert(false);
                                },
                                Option::Some(PrefixFn::Grouping) => {
                                    let inner = spec_expr(
                                        code,
                                        next,
                                        1,
                                        base,
                                        (fuel - 1) as nat,
                                    )->Some_0;
                                    let behind = spec_scan(code, inner.next.end, inner.next.line);
                                    let rest = spec_infix(
                                        code,
                                        behind,
                                        lvl,
                                        base + inner.consts.len(),
                                        (fuel - 1) as nat,
                                    )->Some_0;
                                    assert(Self::lookahead_token(*self) == behind);
                                    assert(spec_infix(
                                        code,
                                        Self::lookahead_token(*self),
                                        lvl,
                                        self.chunk.values@.len() as nat,
                                        (fuel - 1) as nat,
                                    ) == Some(rest));
                                    assert(self.chunk.code@ + rest.code =~= entry.chunk.code@
                                        + em.code);
                                    assert(self.chunk.values@ + rest.consts =~= entry.chunk.values@
                                        + em.consts);
                                },
                                Option::Some(PrefixFn::Unary) => {
                                    let operand = spec_expr(
                                        code,
                                        next,
                                        8,
                                        base,
                                        (fuel - 1) as nat,
                                    )->Some_0;
                                    let rest = spec_infix(
                                        code,
                                        operand.next,
                                        lvl,
                                        base + operand.consts.len(),
                                        (fuel - 1) as nat,
                                    )->Some_0;
                                    assert(Self::lookahead_token(*self) == operand.next);
                                    assert(spec_infix(
                                        code,
                                        Self::lookahead_token(*self),
                                        lvl,
                                        self.chunk.values@.len() as nat,
                                        (fuel - 1) as nat,
                                    ) == Some(rest));
                                    assert(self.chunk.code@ + rest.code =~= entry.chunk.code@
                                        + em.code);
                                    assert(self.chunk.values@ + rest.consts =~= entry.chunk.values@
                                        + em.consts);
                                },
                                Option::Some(PrefixFn::Number) => {
                                    let rest = spec_infix(
                                        code,
                                        next,
                                        lvl,
                                        base + 1,
                                        (fuel - 1) as nat,
                                    )->Some_0;
                                    assert(entry.current.lexeme@ == code.subrange(
                                        lh.start as int,
                                        lh.end as int,
                                    ));
                                    assert(Self::lookahead_token(*self) == next);
                                    assert(spec_infix(
                                        code,
                                        Self::lookahead_token(*self),
                                        lvl,
                                        self.chunk.values@.len() as nat,
                                        (fuel - 1) as nat,
                                    ) == Some(rest));
                                    assert(self.chunk.code@ + rest.code =~= entry.chunk.code@
                                        + em.code);
                                    assert(self.chunk.values@ + rest.consts =~= entry.chunk.values@
                                        + em.consts);
                                },
                                Option::Some(PrefixFn::Literal) => {
                                    let rest = spec_infix(
                                        code,
                                        next,
                                        lvl,
                                        base,
                                        (fuel - 1) as nat,
                                    )->Some_0;
                                    assert(Self::lookahead_token(*self) == next);
                                    assert(spec_infix(
                                        code,
                                        Self::lookahead_token(*self),
                                        lvl,
                                        self.chunk.values@.len() as nat,
                                        (fuel - 1) as nat,
                                    ) == Some(rest));
                                    assert(self.chunk.code@ + rest.code =~= entry.chunk.code@
                                        + em.code);
                                    assert(self.chunk.values@ + rest.consts =~= entry.chunk.values@
                                        + em.consts);
                                },
                            }
                        },
                        Option::None => {},
                    }
                }
            }
        }
        while self.is_lower_precedence(precedence)
            invariant
                entry == *old(self),
                self.wf(),
                precedence.spec_level() >= 1,
                Self::parse_progress(entry, *self),
                Self::emits_one(entry, *self),
                self.measure() < entry.measure(),
                forall|fuel: nat|
                    !entry.had_error ==> ((#[trigger] spec_expr(
                        entry.scanner.code@,
                        Self::lookahead_token(entry),
                        precedence.spec_level(),
                        entry.chunk.values@.len() as nat,
                        fuel,
                    )) matches Some(em) ==> (!self.had_error && exists|fuel2: nat|
                        (#[trigger] spec_infix(
                            entry.scanner.code@,
                            Self::lookahead_token(*self),
                            precedence.spec_level(),
                            self.chunk.values@.len() as nat,
                            fuel2,
                        )) matches Some(rest) && rest.next == em.next && self.chunk.code@
                            + rest.code == entry.chunk.code@ + em.code && self.chunk.values@
                            + rest.consts == entry.chunk.values@ + em.consts)),
            decreases self.measure(),
        {
            let ghost loop_pre = *self;
            let _ = self.advance();
            proof {
                assert(loop_pre.current.kind != TokenType::Eof);
                assert(spec_rule(self.previous.kind).infix == Some(InfixFn::Binary));
            }
            let ghost after_advance = *self;
            self.binary();
            proof {
                if !self.had_error {
                    let a = loop_pre.chunk.code@.skip(entry.chunk.code@.len() as int);
                    let b = self.chunk.code@.skip(loop_pre.chunk.code@.len() as int);
                    assert(self.chunk.code@.skip(entry.chunk.code@.len() as int) =~= a + b);
                    lemma_stack_out_append(a, b, 0nat, 1nat);
                }
                let code = entry.scanner.code@;
                let lh = Self::lookahead_token(entry);
                let lvl = precedence.spec_level();
                let base = entry.chunk.values@.len() as nat;
                assert forall|fuel: nat|
                    !entry.had_error ==> ((#[trigger] spec_expr(code, lh, lvl, base, fuel))
                        matches Some(em) ==> (!self.had_error && exists|fuel2: nat|
                        (#[trigger] spec_infix(
                            code,
                            Self::lookahead_token(*self),
                            lvl,
                            self.chunk.values@.len() as nat,
                            fuel2,
                        )) matches Some(rest) && rest.next == em.next && self.chunk.code@
                            + rest.code == entry.chunk.code@ + em.code && self.chunk.values@
                            + rest.consts == entry.chunk.values@ + em.consts)) by {
                    if !entry.had_error {
                        match spec_expr(code, lh, lvl, base, fuel) {
                            Option::Some(em) => {
                                let op_lh = Self::lookahead_token(loop_pre);
                                let base_lp = loop_pre.chunk.values@.len() as nat;
                                let fuel2 = choose|fuel2: nat|
                                    (#[trigger] spec_infix(
                                        code,
                                        op_lh,
                                        lvl,
                                        base_lp,
                                        fuel2,
                                    )) matches Some(rest) && rest.next == em.next
                                        && loop_pre.chunk.code@ + rest.code == entry.chunk.code@
                                        + em.code && loop_pre.chunk.values@ + rest.consts
                                        == entry.chunk.values@ + em.consts;
                                let em2 = spec_infix(code, op_lh, lvl, base_lp, fuel2)->Some_0;
                                let next = spec_scan(code, op_lh.end, op_lh.line);
                                assert(fuel2 > 0);
                                assert(Self::lookahead_token(after_advance) == next);
                                let operand = spec_expr(
                                    code,
                                    next,
                                    spec_rule(op_lh.kind).precedence.spec_next().spec_level(),
                                    base_lp,
                                    (fuel2 - 1) as nat,
                                )->Some_0;
                                let rest2 = spec_infix(
                                    code,
                                    operand.next,
                                    lvl,
                                    base_lp + operand.consts.len(),
                                    (fuel2 - 1) as nat,
                                )->Some_0;
                                assert(Self::lookahead_token(*self) == operand.next);
                                assert(spec_infix(
                                    code,
                                    Self::lookahead_token(*self),
                                    lvl,
                                    self.chunk.values@.len() as nat,
                                    (fuel2 - 1) as nat,
                                ) == Some(rest2));
                                assert(self.chunk.code@ + rest2.code =~= loop_pre.chunk.code@
                                    + em2.code);
                                assert(self.chunk.values@ + rest2.consts =~= loop_pre.chunk.values@
                                    + em2.consts);
                            },
                            Option::None => {},
                        }
                    }
                }
            }
        }
        proof {
            let code = entry.scanner.code@;
            let lh = Self::lookahead_token(entry);
            let lvl = precedence.spec_level();
            let base = entry.chunk.values@.len() as nat;
            assert forall|fuel: nat|
                !entry.had_error ==> ((#[trigger] spec_expr(code, lh, lvl, base, fuel))
                    matches Some(em) ==> (!self.had_error && Self::lookahead_token(*self) == em.next
                    && self.chunk.code@ == entry.chunk.code@ + em.code && self.chunk.values@
                    == entry.chunk.values@ + em.consts)) by {
                if !entry.had_error {
                    match spec_expr(code, lh, lvl, base, fuel) {
                        Option::Some(em) => {
                            let now = Self::lookahead_token(*self);
                            let base_now = self.chunk.values@.len() as nat;
                            let fuel2 = choose|fuel2: nat|
                                (#[trigger] spec_infix(code, now, lvl, base_now, fuel2))
                                    matches Some(rest) && rest.next == em.next && self.chunk.code@
                                    + rest.code == entry.chunk.code@ + em.code
                                    && self.chunk.values@ + rest.consts == entry.chunk.values@
                                    + em.consts;
                            let rest = spec_infix(code, now, lvl, base_now, fuel2)->Some_0;
                            assert(rest.code =~= Seq::<Op>::empty());
                            assert(rest.consts =~= Seq::<Value>::empty());
                            assert(self.chunk.code@ + rest.code =~= self.chunk.code@);
                            assert(self.chunk.values@ + rest.consts =~= self.chunk.values@);
                        },
                        Option::None => {},
                    }
                }
            }
        }
    }
}

/// Compiles one expression from source text into a fresh chunk, which
/// replaces `chunk`. Returns whether compilation succeeded — false
/// exactly when diagnostics were reported; panic mode suppresses the
/// reports of a cascade but ends at the next successful advance, so
/// separate defects each get their own line — and the diagnostics. A
/// chunk compiled without error is well-formed for execution: balanced,
/// ending in its return instruction, with all constant references in
/// bounds. Every chunk, failing compiles included, ends with a return
/// instruction. A syntactically valid source always compiles, and to
/// exactly the instructions and constants its grammar derivation emits,
/// followed by the trailing return instruction.
pub fn compile(chunk: &mut Chunk, source: &[u8]) -> (r: (bool, Vec<CompileDiagnostic>))
    ensures
        r.0 ==> final(chunk).wf_exec(),
        r.0 <==> r.1@.len() == 0,
        final(chunk).code@.len() > 0,
        final(chunk).code@.last() == Op::Return,
        code_consts_ok(final(chunk).code@, final(chunk).values@.len()),
        spec_valid_source(source@) ==> r.0,
        forall|fuel: nat|
            (#[trigger] spec_expr(source@, spec_scan(source@, 0, 0), 1, 0, fuel)) matches Some(em)
                ==> (em.next.kind == TokenType::Eof ==> (r.0 && final(chunk).code@ == em.code.push(
                Op::Return,
            ) && final(chunk).values@ == em.consts)),
{
    let mut parser = Parser::new(source);
    let _ = parser.advance();
    let ghost scanned = parser;
    parser.expression();
    let ghost done = parser;
    parser.consume(TokenType::Eof, CompileMessage::ExpectEndOfExpression);
    parser.end_compiler();
    proof {
        let code = source@;
        let first = spec_scan(code, 0, 0);
        assert forall|fuel: nat|
            ((#[trigger] spec_expr(code, first, 1, 0, fuel)) is Some) implies {
            let em = spec_expr(code, first, 1, 0, fuel)->Some_0;
            em.next.kind == TokenType::Eof ==> (!parser.had_error && parser.chunk.code@
                == em.code.push(Op::Return) && parser.chunk.values@ == em.consts)
        } by {
            match spec_expr(code, first, 1, 0, fuel) {
                Option::Some(em) => {
                    if em.next.kind == TokenType::Eof {
                        assert(first.kind != TokenType::Error);
                        assert(Parser::lookahead_token(scanned) == first && !scanned.had_error);
                        assert(scanned.chunk.code@.len() == 0 && scanned.chunk.values@.len() == 0);
                        assert(!done.had_error && Parser::lookahead_token(done) == em.next);
                        assert(done.chunk.code@ =~= em.code);
                        assert(done.chunk.values@ =~= em.consts);
                        assert(em.next.end == code.len());
                        assert(spec_skip_ws(code, code.len() as nat, em.next.line) == (
                            code.len() as nat,
                            em.next.line,
                        ));
                        assert(spec_scan(code, em.next.end, em.next.line).kind == TokenType::Eof);
                        assert(!parser.had_error);
                        assert(parser.chunk.code@ == em.code.push(Op::Return));
                    }
                },
                Option::None => {},
            }
        }
        if !parser.had_error {
            let body = done.chunk.code@;
            assert(parser.chunk.code@ == body.push(Op::Return));
            assert(body.skip(0) =~= body);
            assert(stack_out(body, 0nat) == Some(1nat));
            assert(parser.chunk.code@.subrange(0, parser.chunk.code@.len() - 1) =~= body);
            assert(parser.chunk.code@.last() == Op::Return);
        }
    }
    let Parser { chunk: compiled, diagnostics, had_error, .. } = parser;
    *chunk = compiled;
    (!had_error, diagnostics)
}

} // verus!
