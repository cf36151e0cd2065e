use vstd::prelude::*;

use vstd::slice::slice_subrange;

verus! {

broadcast use vstd::slice::axiom_spec_len;

// Byte values of the ASCII characters the lexical grammar mentions.
pub const B_TAB: u8 = 9;

pub const B_NL: u8 = 10;

pub const B_CR: u8 = 13;

pub const B_SPACE: u8 = 32;

pub const B_BANG: u8 = 33;

pub const B_QUOTE: u8 = 34;

pub const B_LPAREN: u8 = 40;

pub const B_RPAREN: u8 = 41;

pub const B_STAR: u8 = 42;

pub const B_PLUS: u8 = 43;

pub const B_COMMA: u8 = 44;

pub const B_MINUS: u8 = 45;

pub const B_DOT: u8 = 46;

pub const B_SLASH: u8 = 47;

pub const B_SEMICOLON: u8 = 59;

pub const B_LT: u8 = 60;

pub const B_EQ: u8 = 61;

pub const B_GT: u8 = 62;

pub const B_UNDERSCORE: u8 = 95;

pub const B_LBRACE: u8 = 123;

pub const B_RBRACE: u8 = 125;

/// The lexical categories: punctuation, one/two-character operators,
/// literals, keywords, identifiers, the error token, and end-of-input.
#[derive(Debug, Copy, Clone, Eq, PartialEq, Hash, Structural)]
pub enum TokenType {
    LeftParen,
    RightParen,
    LeftBrace,
    RightBrace,
    Comma,
    Dot,
    Minus,
    Plus,
    Semicolon,
    Slash,
    Star,
    Bang,
    BangEqual,
    Equal,
    EqualEqual,
    Greater,
    GreaterEqual,
    Less,
    LessEqual,
    Identifier,
    String,
    Number,
    And,
    Class,
    Else,
    False,
    For,
    Fun,
    If,
    Nil,
    Or,
    Print,
    Return,
    Super,
    This,
    True,
    Var,
    While,
    Error,
    Eof,
}

/// Why the lexer produced an error token.
#[derive(Debug, Copy, Clone, Eq, PartialEq, Structural)]
pub enum LexError {
    UnexpectedCharacter,
    UnterminatedString,
}

pub open spec fn spec_is_digit(c: u8) -> bool {
    48 <= c <= 57
}

/// An ASCII decimal digit.
#[verifier::when_used_as_spec(spec_is_digit)]
pub fn is_digit(c: u8) -> (r: bool)
    ensures
        r == spec_is_digit(c),
{
    48 <= c && c <= 57
}

pub open spec fn spec_is_alpha(c: u8) -> bool {
    (65 <= c <= 90) || (97 <= c <= 122) || c == B_UNDERSCORE
}

/// An ASCII letter or underscore.
#[verifier::when_used_as_spec(spec_is_alpha)]
pub fn is_alpha(c: u8) -> (r: bool)
    ensures
        r == spec_is_alpha(c),
{
    (65 <= c && c <= 90) || (97 <= c && c <= 122) || c == B_UNDERSCORE
}

/// Horizontal whitespace: space, carriage return, tab.
pub open spec fn is_blank(c: u8) -> bool {
    c == B_SPACE || c == B_CR || c == B_TAB
}

/// The cursor and line counter after skipping the whitespace, newlines
/// and line comments that precede the next token.
pub open spec fn spec_skip_ws(code: Seq<u8>, i: nat, line: nat) -> (nat, nat)
    decreases code.len() - i, 0int,
{
    if i >= code.len() {
        (i, line)
    } else {
        let c = code[i as int];
        if is_blank(c) {
            spec_skip_ws(code, i + 1, line)
        } else if c == B_NL {
            spec_skip_ws(code, i + 1, line + 1)
        } else if c == B_SLASH && i + 1 < code.len() && code[i as int + 1] == B_SLASH {
            spec_skip_comment(code, i + 2, line)
        } else {
            (i, line)
        }
    }
}

/// Inside a line comment: everything up to the next newline (which the
/// ordinary skipping then consumes) or end of input is skipped.
pub open spec fn spec_skip_comment(code: Seq<u8>, i: nat, line: nat) -> (nat, nat)
    decreases code.len() - i, 1int,
{
    if i >= code.len() {
        (i, line)
    } else if code[i as int] == B_NL {
        spec_skip_ws(code, i, line)
    } else {
        spec_skip_comment(code, i + 1, line)
    }
}

/// The first position at or after `i` that does not hold a digit.
pub open spec fn digits_end(code: Seq<u8>, i: nat) -> nat
    decreases code.len() - i,
{
    if i < code.len() && is_digit(code[i as int]) {
        digits_end(code, i + 1)
    } else {
        i
    }
}

/// The first position at or after `i` that holds neither a letter, a
/// digit, nor an underscore.
pub open spec fn alnum_end(code: Seq<u8>, i: nat) -> nat
    decreases code.len() - i,
{
    if i < code.len() && (is_alpha(code[i as int]) || is_digit(code[i as int])) {
        alnum_end(code, i + 1)
    } else {
        i
    }
}

/// A numeric literal starting at `i` extends over a digit sequence,
/// optionally followed by a dot and a non-empty fractional digit
/// sequence; no exponent, no leading sign.
pub open spec fn spec_number_end(code: Seq<u8>, i: nat) -> nat {
    let d = digits_end(code, i);
    if d < code.len() && code[d as int] == B_DOT && d + 1 < code.len() && is_digit(
        code[d as int + 1],
    ) {
        digits_end(code, d + 1)
    } else {
        d
    }
}

/// Scanning a string literal's body from just after the opening quote:
/// yields the position after the closing quote, the line counter (string
/// bodies may span newlines), and whether a closing quote was found
/// before end of input.
pub open spec fn spec_string_scan(code: Seq<u8>, i: nat, line: nat) -> (nat, nat, bool)
    decreases code.len() - i,
{
    if i >= code.len() {
        (i, line, false)
    } else if code[i as int] == B_QUOTE {
        (i + 1, line, true)
    } else if code[i as int] == B_NL {
        spec_string_scan(code, i + 1, line + 1)
    } else {
        spec_string_scan(code, i + 1, line)
    }
}

pub open spec fn kw2(lex: Seq<u8>, a: u8, b: u8) -> bool {
    lex.len() == 2 && lex[0] == a && lex[1] == b
}

pub open spec fn kw3(lex: Seq<u8>, a: u8, b: u8, c: u8) -> bool {
    lex.len() == 3 && lex[0] == a && lex[1] == b && lex[2] == c
}

pub open spec fn kw4(lex: Seq<u8>, a: u8, b: u8, c: u8, d: u8) -> bool {
    lex.len() == 4 && lex[0] == a && lex[1] == b && lex[2] == c && lex[3] == d
}

pub open spec fn kw5(lex: Seq<u8>, a: u8, b: u8, c: u8, d: u8, e: u8) -> bool {
    lex.len() == 5 && lex[0] == a && lex[1] == b && lex[2] == c && lex[3] == d && lex[4] == e
}

pub open spec fn kw6(lex: Seq<u8>, a: u8, b: u8, c: u8, d: u8, e: u8, f: u8) -> bool {
    lex.len() == 6 && lex[0] == a && lex[1] == b && lex[2] == c && lex[3] == d && lex[4] == e
        && lex[5] == f
}

/// The fixed keyword table: the category of an identifier-shaped lexeme.
pub open spec fn spec_keyword(lex: Seq<u8>) -> TokenType {
    if kw3(lex, 97, 110, 100) {  // "and"
        TokenType::And
    } else if kw5(lex, 99, 108, 97, 115, 115) {  // "class"
        TokenType::Class
    } else if kw4(lex, 101, 108, 115, 101) {  // "else"
        TokenType::Else
    } else if kw5(lex, 102, 97, 108, 115, 101) {  // "false"
        TokenType::False
    } else if kw3(lex, 102, 111, 114) {  // "for"
        TokenType::For
    } else if kw3(lex, 102, 117, 110) {  // "fun"
        TokenType::Fun
    } else if kw2(lex, 105, 102) {  // "if"
        TokenType::If
    } else if kw3(lex, 110, 105, 108) {  // "nil"
        TokenType::Nil
    } else if kw2(lex, 111, 114) {  // "or"
        TokenType::Or
    } else if kw5(lex, 112, 114, 105, 110, 116) {  // "print"
        TokenType::Print
    } else if kw6(lex, 114, 101, 116, 117, 114, 110) {  // "return"
        TokenType::Return
    } else if kw5(lex, 115, 117, 112, 101, 114) {  // "super"
        TokenType::Super
    } else if kw4(lex, 116, 104, 105, 115) {  // "this"
        TokenType::This
    } else if kw4(lex, 116, 114, 117, 101) {  // "true"
        TokenType::True
    } else if kw3(lex, 118, 97, 114) {  // "var"
        TokenType::Var
    } else if kw5(lex, 119, 104, 105, 108, 101) {  // "while"
        TokenType::While
    } else {
        TokenType::Identifier
    }
}

/// What one lexing step yields, as positions into the source: the token's
/// category, its lexeme `code[start..end]`, the line it is attributed to,
/// and the diagnostic for error tokens.
pub struct SpecToken {
    pub kind: TokenType,
    pub start: nat,
    pub end: nat,
    pub line: nat,
    pub error: Option<LexError>,
}

/// The token found at cursor `pos` (line counter `line`), after skipping
/// whitespace and comments: the complete lexical grammar.
pub open spec fn spec_scan(code: Seq<u8>, pos: nat, line: nat) -> SpecToken {
    let skipped = spec_skip_ws(code, pos, line);
    let s = skipped.0;
    let l = skipped.1;
    if s >= code.len() {
        SpecToken { kind: TokenType::Eof, start: s, end: s, line: l, error: None }
    } else {
        let c = code[s as int];
        if c == B_LPAREN {
            spec_simple(TokenType::LeftParen, s, s + 1, l)
        } else if c == B_RPAREN {
            spec_simple(TokenType::RightParen, s, s + 1, l)
        } else if c == B_LBRACE {
            spec_simple(TokenType::LeftBrace, s, s + 1, l)
        } else if c == B_RBRACE {
            spec_simple(TokenType::RightBrace, s, s + 1, l)
        } else if c == B_SEMICOLON {
            spec_simple(TokenType::Semicolon, s, s + 1, l)
        } else if c == B_COMMA {
            spec_simple(TokenType::Comma, s, s + 1, l)
        } else if c == B_DOT {
            spec_simple(TokenType::Dot, s, s + 1, l)
        } else if c == B_MINUS {
            spec_simple(TokenType::Minus, s, s + 1, l)
        } else if c == B_PLUS {
            spec_simple(TokenType::Plus, s, s + 1, l)
        } else if c == B_SLASH {
            spec_simple(TokenType::Slash, s, s + 1, l)
        } else if c == B_STAR {
            spec_simple(TokenType::Star, s, s + 1, l)
        } else if c == B_BANG {
            if s + 1 < code.len() && code[s as int + 1] == B_EQ {
                spec_simple(TokenType::BangEqual, s, s + 2, l)
            } else {
                spec_simple(TokenType::Bang, s, s + 1, l)
            }
        } else if c == B_EQ {
            if s + 1 < code.len() && code[s as int + 1] == B_EQ {
                spec_simple(TokenType::EqualEqual, s, s + 2, l)
            } else {
                spec_simple(TokenType::Equal, s, s + 1, l)
            }
        } else if c == B_LT {
            if s + 1 < code.len() && code[s as int + 1] == B_EQ {
                spec_simple(TokenType::LessEqual, s, s + 2, l)
            } else {
                spec_simple(TokenType::Less, s, s + 1, l)
            }
        } else if c == B_GT {
            if s + 1 < code.len() && code[s as int + 1] == B_EQ {
                spec_simple(TokenType::GreaterEqual, s, s + 2, l)
            } else {
                spec_simple(TokenType::Greater, s, s + 1, l)
            }
        } else if c == B_QUOTE {
            let scanned = spec_string_scan(code, s + 1, l);
            if scanned.2 {
                spec_simple(TokenType::String, s, scanned.0, scanned.1)
            } else {
                SpecToken {
                    kind: TokenType::Error,
                    start: s,
                    end: scanned.0,
                    line: scanned.1,
                    error: Some(LexError::UnterminatedString),
                }
            }
        } else if is_digit(c) {
            spec_simple(TokenType::Number, s, spec_number_end(code, s), l)
        } else if is_alpha(c) {
            let e = alnum_end(code, s);
            spec_simple(spec_keyword(code.subrange(s as int, e as int)), s, e, l)
        } else {
            SpecToken {
                kind: TokenType::Error,
                start: s,
                end: s + 1,
                line: l,
                error: Some(LexError::UnexpectedCharacter),
            }
        }
    }
}

pub open spec fn spec_simple(kind: TokenType, start: nat, end: nat, line: nat) -> SpecToken {
    SpecToken { kind, start, end, line, error: None }
}

/// One token: its category, the source line it was scanned on, the exact
/// source substring it was scanned from (a borrowed view of the source
/// buffer), and, for error tokens only, the diagnostic. The lexeme is
/// always the offending source text itself; the diagnostic is its own
/// field rather than text smuggled through the lexeme.
#[derive(Copy, Clone)]
pub struct Token<'sc> {
    pub kind: TokenType,
    pub line: usize,
    pub lexeme: &'sc [u8],
    pub error: Option<LexError>,
}

impl<'sc> Token<'sc> {
    /// A placeholder token, used before any real token was scanned: its
    /// lexeme spells the nil keyword, matching its kind.
    pub fn new() -> (t: Self)
        ensures
            t.kind == TokenType::Nil,
            t.line == 0,
            t.lexeme@ == seq![110u8, 105u8, 108u8],
            t.error is None,
    {
        let lexeme: &'sc [u8] = &[110, 105, 108];
        proof {
            assert(lexeme@ =~= seq![110u8, 105u8, 108u8]);
        }
        Self { kind: TokenType::Nil, line: 0, lexeme, error: None }
    }
}

/// The lexer: a cursor over the source bytes. `start` marks the first
/// byte of the token being scanned, `current` the next byte to look at,
/// and `line` counts the newlines consumed so far (lines are 0-based).
pub struct Scanner<'sc> {
    pub code: &'sc [u8],
    pub start: usize,
    pub current: usize,
    pub line: usize,
}

impl<'sc> Scanner<'sc> {
    /// The cursor stays within the source (whose length fits a `usize`)
    /// and behind it lie at least as many bytes as newlines were counted.
    pub open spec fn wf(&self) -> bool {
        &&& self.start <= self.current <= self.code@.len()
        &&& self.line <= self.current
        &&& self.code@.len() <= usize::MAX
    }

    pub fn new(code: &'sc [u8]) -> (s: Self)
        ensures
            s.wf(),
            s.code@ == code@,
            s.start == 0,
            s.current == 0,
            s.line == 0,
    {
        proof {
            assert(vstd::slice::spec_slice_len(code) == code@.len());
        }
        Self { code, start: 0, current: 0, line: 0 }
    }

    fn is_at_end(&self) -> (r: bool)
        requires
            self.wf(),
        ensures
            r == (self.current == self.code@.len()),
    {
        self.current == self.code.len()
    }

    fn peek(&self) -> (c: u8)
        requires
            self.wf(),
            self.current < self.code@.len(),
        ensures
            c == self.code@[self.current as int],
    {
        self.code[self.current]
    }

    /// The byte after the cursor, or 0 when none is left.
    fn peek_next(&self) -> (c: u8)
        requires
            self.wf(),
        ensures
            c == if self.current + 1 < self.code@.len() {
                self.code@[self.current as int + 1]
            } else {
                0u8
            },
    {
        if self.current < self.code.len() && self.current + 1 < self.code.len() {
            self.code[self.current + 1]
        } else {
            0
        }
    }

    fn advance(&mut self) -> (c: u8)
        requires
            old(self).wf(),
            old(self).current < old(self).code@.len(),
        ensures
            final(self).wf(),
            c == old(self).code@[old(self).current as int],
            final(self).current == old(self).current + 1,
            final(self).code@ == old(self).code@,
            final(self).start == old(self).start,
            final(self).line == old(self).line,
    {
        let c = self.peek();
        self.current += 1;
        c
    }

    /// Consumes the next byte exactly when it equals `expected`.
    fn matches(&mut self, expected: u8) -> (r: bool)
        requires
            old(self).wf(),
        ensures
            final(self).wf(),
            final(self).code@ == old(self).code@,
            final(self).start == old(self).start,
            final(self).line == old(self).line,
            r == (old(self).current < old(self).code@.len() && old(self).code@[old(
                self,
            ).current as int] == expected),
            final(self).current == if r {
                old(self).current + 1
            } else {
                old(self).current as int
            },
    {
        if self.is_at_end() || self.peek() != expected {
            false
        } else {
            self.current += 1;
            true
        }
    }

    /// Skips whitespace, newlines (counting them) and line comments.
    fn skip_whitespace(&mut self)
        requires
            old(self).wf(),
        ensures
            final(self).wf(),
            final(self).code@ == old(self).code@,
            final(self).start == old(self).start,
            (final(self).current as nat, final(self).line as nat) == spec_skip_ws(
                old(self).code@,
                old(self).current as nat,
                old(self).line as nat,
            ),
    {
        let ghost target = spec_skip_ws(self.code@, self.current as nat, self.line as nat);
        while !self.is_at_end()
            invariant_except_break
                self.wf(),
                self.code@ == old(self).code@,
                self.start == old(self).start,
                spec_skip_ws(self.code@, self.current as nat, self.line as nat) == target,
            ensures
                self.wf(),
                self.code@ == old(self).code@,
                self.start == old(self).start,
                (self.current as nat, self.line as nat) == target,
            decreases self.code@.len() - self.current,
        {
            let c = self.peek();
            if c == B_SPACE || c == B_CR || c == B_TAB {
                self.current += 1;
            } else if c == B_NL {
                self.line += 1;
                self.current += 1;
            } else if c == B_SLASH && self.peek_next() == B_SLASH {
                self.current += 2;
                let ghost comment_body = self.current;
                while !self.is_at_end() && self.peek() != B_NL
                    invariant
                        self.wf(),
                        self.code@ == old(self).code@,
                        self.start == old(self).start,
                        self.current >= comment_body,
                        spec_skip_comment(self.code@, self.current as nat, self.line as nat)
                            == target,
                    decreases self.code@.len() - self.current,
                {
                    self.current += 1;
                }
            } else {
                break ;
            }
        }
    }

    /// Scans a string literal's body; the opening quote is already
    /// consumed and `start` points at it. Unterminated strings yield an
    /// error token.
    fn string(&mut self) -> (t: Token<'sc>)
        requires
            old(self).wf(),
        ensures
            final(self).wf(),
            final(self).code@ == old(self).code@,
            final(self).start == old(self).start,
            ({
                let scanned = spec_string_scan(
                    old(self).code@,
                    old(self).current as nat,
                    old(self).line as nat,
                );
                &&& final(self).current == scanned.0
                &&& final(self).line == scanned.1
                &&& t.lexeme@ == old(self).code@.subrange(
                    old(self).start as int,
                    scanned.0 as int,
                )
                &&& t.line == scanned.1
                &&& if scanned.2 {
                    t.kind == TokenType::String && t.error is None
                } else {
                    t.kind == TokenType::Error && t.error == Some(LexError::UnterminatedString)
                }
            }),
    {
        let ghost target = spec_string_scan(self.code@, self.current as nat, self.line as nat);
        while !self.is_at_end() && self.peek() != B_QUOTE
            invariant
                self.wf(),
                self.code@ == old(self).code@,
                self.start == old(self).start,
                spec_string_scan(self.code@, self.current as nat, self.line as nat) == target,
            decreases self.code@.len() - self.current,
        {
            if self.peek() == B_NL {
                self.line += 1;
            }
            self.current += 1;
        }
        if self.is_at_end() {
            self.error_token(LexError::UnterminatedString)
        } else {
            self.advance();
            self.make_token(TokenType::String)
        }
    }

    /// Scans the remainder of a numeric literal; the first digit is
    /// already consumed.
    fn number(&mut self) -> (t: Token<'sc>)
        requires
            old(self).wf(),
        ensures
            final(self).wf(),
            final(self).code@ == old(self).code@,
            final(self).start == old(self).start,
            final(self).line == old(self).line,
            final(self).current == spec_number_end(old(self).code@, old(self).current as nat),
            t.kind == TokenType::Number,
            t.line == old(self).line,
            t.error is None,
            t.lexeme@ == old(self).code@.subrange(
                old(self).start as int,
                spec_number_end(old(self).code@, old(self).current as nat) as int,
            ),
    {
        while !self.is_at_end() && is_digit(self.peek())
            invariant
                self.wf(),
                self.code@ == old(self).code@,
                self.start == old(self).start,
                self.line == old(self).line,
                digits_end(self.code@, self.current as nat) == digits_end(
                    old(self).code@,
                    old(self).current as nat,
                ),
            decreases self.code@.len() - self.current,
        {
            self.current += 1;
        }
        if !self.is_at_end() && self.peek() == B_DOT && is_digit(self.peek_next()) {
            self.current += 1;
            while !self.is_at_end() && is_digit(self.peek())
                invariant
                    self.wf(),
                    self.code@ == old(self).code@,
                    self.start == old(self).start,
                    self.line == old(self).line,
                    digits_end(self.code@, self.current as nat) == spec_number_end(
                        old(self).code@,
                        old(self).current as nat,
                    ),
                decreases self.code@.len() - self.current,
            {
                self.current += 1;
            }
        }
        self.make_token(TokenType::Number)
    }

    /// Scans the remainder of an identifier or keyword; the first letter
    /// is already consumed.
    fn identifier(&mut self) -> (t: Token<'sc>)
        requires
            old(self).wf(),
        ensures
            final(self).wf(),
            final(self).code@ == old(self).code@,
            final(self).start == old(self).start,
            final(self).line == old(self).line,
            final(self).current == alnum_end(old(self).code@, old(self).current as nat),
            t.line == old(self).line,
            t.error is None,
            t.lexeme@ == old(self).code@.subrange(
                old(self).start as int,
                alnum_end(old(self).code@, old(self).current as nat) as int,
            ),
            t.kind == spec_keyword(
                old(self).code@.subrange(
                    old(self).start as int,
                    alnum_end(old(self).code@, old(self).current as nat) as int,
                ),
            ),
    {
        while !self.is_at_end() && (is_alpha(self.peek()) || is_digit(self.peek()))
            invariant
                self.wf(),
                self.code@ == old(self).code@,
                self.start == old(self).start,
                self.line == old(self).line,
                alnum_end(self.code@, self.current as nat) == alnum_end(
                    old(self).code@,
                    old(self).current as nat,
                ),
            decreases self.code@.len() - self.current,
        {
            self.current += 1;
        }
        let kind = self.identifier_type();
        self.make_token(kind)
    }

    /// Resolves an identifier-shaped lexeme against the keyword table.
    fn identifier_type(&self) -> (kind: TokenType)
        requires
            self.wf(),
        ensures
            kind == spec_keyword(self.code@.subrange(self.start as int, self.current as int)),
    {
        let lex = slice_subrange(self.code, self.start, self.current);
        if kw_eq3(lex, 97, 110, 100) {
            TokenType::And
        } else if kw_eq5(lex, 99, 108, 97, 115, 115) {
            TokenType::Class
        } else if kw_eq4(lex, 101, 108, 115, 101) {
            TokenType::Else
        } else if kw_eq5(lex, 102, 97, 108, 115, 101) {
            TokenType::False
        } else if kw_eq3(lex, 102, 111, 114) {
            TokenType::For
        } else if kw_eq3(lex, 102, 117, 110) {
            TokenType::Fun
        } else if kw_eq2(lex, 105, 102) {
            TokenType::If
        } else if kw_eq3(lex, 110, 105, 108) {
            TokenType::Nil
        } else if kw_eq2(lex, 111, 114) {
            TokenType::Or
        } else if kw_eq5(lex, 112, 114, 105, 110, 116) {
            TokenType::Print
        } else if kw_eq6(lex, 114, 101, 116, 117, 114, 110) {
            TokenType::Return
        } else if kw_eq5(lex, 115, 117, 112, 101, 114) {
            TokenType::Super
        } else if kw_eq4(lex, 116, 104, 105, 115) {
            TokenType::This
        } else if kw_eq4(lex, 116, 114, 117, 101) {
            TokenType::True
        } else if kw_eq3(lex, 118, 97, 114) {
            TokenType::Var
        } else if kw_eq5(lex, 119, 104, 105, 108, 101) {
            TokenType::While
        } else {
            TokenType::Identifier
        }
    }

    /// A token of the given kind whose lexeme is the source text scanned
    /// since `start`, attributed to the current line.
    fn make_token(&self, kind: TokenType) -> (t: Token<'sc>)
        requires
            self.wf(),
        ensures
            t.kind == kind,
            t.line == self.line,
            t.lexeme@ == self.code@.subrange(self.start as int, self.current as int),
            t.error is None,
    {
        Token {
            kind,
            line: self.line,
            lexeme: slice_subrange(self.code, self.start, self.current),
            error: None,
        }
    }

    /// An error token carrying the diagnostic and the offending source
    /// text.
    fn error_token(&self, error: LexError) -> (t: Token<'sc>)
        requires
            self.wf(),
        ensures
            t.kind == TokenType::Error,
            t.line == self.line,
            t.lexeme@ == self.code@.subrange(self.start as int, self.current as int),
            t.error == Some(error),
    {
        Token {
            kind: TokenType::Error,
            line: self.line,
            lexeme: slice_subrange(self.code, self.start, self.current),
            error: Some(error),
        }
    }

    /// Scans and returns the next token, advancing the cursor past it;
    /// the cursor never moves backward. At end of input it keeps
    /// returning the end-of-input token.
    pub fn scan_token(&mut self) -> (t: Token<'sc>)
        requires
            old(self).wf(),
        ensures
            final(self).wf(),
            final(self).code@ == old(self).code@,
            ({
                let st = spec_scan(old(self).code@, old(self).current as nat, old(self).line as nat);
                &&& t.kind == st.kind
                &&& t.line == st.line
                &&& t.error == st.error
                &&& t.lexeme@ == old(self).code@.subrange(st.start as int, st.end as int)
                &&& final(self).start == st.start
                &&& final(self).current == st.end
                &&& final(self).line == st.line
            }),
    {
        self.skip_whitespace();
        self.start = self.current;

        if self.is_at_end() {
            return self.make_token(TokenType::Eof);
        }
        let c = self.advance();
        if c == B_LPAREN {
            self.make_token(TokenType::LeftParen)
        } else if c == B_RPAREN {
            self.make_token(TokenType::RightParen)
        } else if c == B_LBRACE {
            self.make_token(TokenType::LeftBrace)
        } else if c == B_RBRACE {
            self.make_token(TokenType::RightBrace)
        } else if c == B_SEMICOLON {
            self.make_token(TokenType::Semicolon)
        } else if c == B_COMMA {
            self.make_token(TokenType::Comma)
        } else if c == B_DOT {
            self.make_token(TokenType::Dot)
        } else if c == B_MINUS {
            self.make_token(TokenType::Minus)
        } else if c == B_PLUS {
            self.make_token(TokenType::Plus)
        } else if c == B_SLASH {
            self.make_token(TokenType::Slash)
        } else if c == B_STAR {
            self.make_token(TokenType::Star)
        } else if c == B_BANG {
            let kind = if self.matches(B_EQ) {
                TokenType::BangEqual
            } else {
                TokenType::Bang
            };
            self.make_token(kind)
        } else if c == B_EQ {
            let kind = if self.matches(B_EQ) {
                TokenType::EqualEqual
            } else {
                TokenType::Equal
            };
            self.make_token(kind)
        } else if c == B_LT {
            let kind = if self.matches(B_EQ) {
                TokenType::LessEqual
            } else {
                TokenType::Less
            };
            self.make_token(kind)
        } else if c == B_GT {
            let kind = if self.matches(B_EQ) {
                TokenType::GreaterEqual
            } else {
                TokenType::Greater
            };
            self.make_token(kind)
        } else if c == B_QUOTE {
            self.string()
        } else if is_digit(c) {
            proof {
                assert(digits_end(self.code@, (self.current - 1) as nat) == digits_end(
                    self.code@,
                    self.current as nat,
                ));
            }
            self.number()
        } else if is_alpha(c) {
            proof {
                assert(alnum_end(self.code@, (self.current - 1) as nat) == alnum_end(
                    self.code@,
                    self.current as nat,
                ));
            }
            self.identifier()
        } else {
            self.error_token(LexError::UnexpectedCharacter)
        }
    }
}

/// The shape of a numeric literal's lexeme: non-empty, starts with a
/// digit, holds only digits and at most one dot.
pub open spec fn number_lexeme(s: Seq<u8>) -> bool {
    &&& s.len() > 0
    &&& is_digit(s[0])
    &&& forall|j: int| 0 <= j < s.len() ==> is_digit(#[trigger] s[j]) || s[j] == B_DOT
    &&& forall|j: int, k: int|
        0 <= j < k < s.len() && #[trigger] s[j] == B_DOT ==> #[trigger] s[k] != B_DOT
}

/// Skipping whitespace moves the cursor forward, stays inside the
/// source, and counts at most one line per byte consumed.
pub proof fn lemma_skip_ws_bounds(code: Seq<u8>, i: nat, line: nat)
    requires
        i <= code.len(),
    ensures
        ({
            let r = spec_skip_ws(code, i, line);
            &&& i <= r.0 <= code.len()
            &&& line <= r.1
            &&& r.1 - line <= r.0 - i
        }),
    decreases code.len() - i, 0int,
{
    if i < code.len() {
        let c = code[i as int];
        if is_blank(c) {
            lemma_skip_ws_bounds(code, i + 1, line);
        } else if c == B_NL {
            lemma_skip_ws_bounds(code, i + 1, line + 1);
        } else if c == B_SLASH && i + 1 < code.len() && code[i as int + 1] == B_SLASH {
            lemma_skip_comment_bounds(code, i + 2, line);
        }
    }
}

/// The comment-skipping half of the whitespace bounds argument.
pub proof fn lemma_skip_comment_bounds(code: Seq<u8>, i: nat, line: nat)
    requires
        i <= code.len(),
    ensures
        ({
            let r = spec_skip_comment(code, i, line);
            &&& i <= r.0 <= code.len()
            &&& line <= r.1
            &&& r.1 - line <= r.0 - i
        }),
    decreases code.len() - i, 1int,
{
    if i < code.len() {
        if code[i as int] == B_NL {
            lemma_skip_ws_bounds(code, i, line);
        } else {
            lemma_skip_comment_bounds(code, i + 1, line);
        }
    }
}

/// A string body scan moves forward, stays inside the source, counts at
/// most one line per byte, and consumes at least the closing quote when
/// it reports success.
pub proof fn lemma_string_scan_bounds(code: Seq<u8>, i: nat, line: nat)
    requires
        i <= code.len(),
    ensures
        ({
            let r = spec_string_scan(code, i, line);
            &&& i <= r.0 <= code.len()
            &&& line <= r.1
            &&& r.1 - line <= r.0 - i
            &&& (r.2 ==> r.0 >= i + 1)
        }),
    decreases code.len() - i,
{
    if i < code.len() && code[i as int] != B_QUOTE {
        if code[i as int] == B_NL {
            lemma_string_scan_bounds(code, i + 1, line + 1);
        } else {
            lemma_string_scan_bounds(code, i + 1, line);
        }
    }
}

/// Everything up to (exclusive) the digits' end is a digit, and the
/// position at the end, if inside the source, is not.
pub proof fn lemma_digits_end_chars(code: Seq<u8>, i: nat)
    requires
        i <= code.len(),
    ensures
        i <= digits_end(code, i) <= code.len(),
        forall|j: int| i <= j < digits_end(code, i) ==> is_digit(#[trigger] code[j]),
        digits_end(code, i) < code.len() ==> !is_digit(code[digits_end(code, i) as int]),
    decreases code.len() - i,
{
    if i < code.len() && is_digit(code[i as int]) {
        lemma_digits_end_chars(code, i + 1);
    }
}

/// An identifier scan stays inside the source and moves forward.
pub proof fn lemma_alnum_end_bounds(code: Seq<u8>, i: nat)
    requires
        i <= code.len(),
    ensures
        i <= alnum_end(code, i) <= code.len(),
    decreases code.len() - i,
{
    if i < code.len() && (is_alpha(code[i as int]) || is_digit(code[i as int])) {
        lemma_alnum_end_bounds(code, i + 1);
    }
}

/// The shape of any scanned token: it lies at or after the cursor and
/// inside the source; its line is at or after the incoming line counter;
/// only the end-of-input token is empty, and it sits at the very end;
/// error tokens and only they carry a diagnostic; and a number token's
/// lexeme has the numeric literal shape.
pub proof fn lemma_scan_shape(code: Seq<u8>, pos: nat, line: nat)
    requires
        pos <= code.len(),
    ensures
        ({
            let st = spec_scan(code, pos, line);
            &&& pos <= st.start <= st.end <= code.len()
            &&& line <= st.line
            &&& (st.kind == TokenType::Eof ==> st.start == code.len() && st.end == st.start)
            &&& (st.kind != TokenType::Eof ==> st.end > st.start)
            &&& (st.kind == TokenType::Error <==> st.error is Some)
            &&& (st.kind == TokenType::Number ==> number_lexeme(
                code.subrange(st.start as int, st.end as int),
            ))
        }),
{
    lemma_skip_ws_bounds(code, pos, line);
    let sk = spec_skip_ws(code, pos, line);
    let s = sk.0;
    let l = sk.1;
    if s < code.len() {
        let c = code[s as int];
        if c == B_QUOTE {
            lemma_string_scan_bounds(code, s + 1, l);
        } else if is_digit(c) {
            lemma_digits_end_chars(code, s);
            let d = digits_end(code, s);
            assert(d > s);
            let e = spec_number_end(code, s);
            if d < code.len() && code[d as int] == B_DOT && d + 1 < code.len() && is_digit(
                code[d as int + 1],
            ) {
                lemma_digits_end_chars(code, d + 1);
                assert(digits_end(code, d + 1) > d + 1);
                let lex = code.subrange(s as int, e as int);
                assert forall|j: int| 0 <= j < lex.len() implies is_digit(#[trigger] lex[j])
                    || lex[j] == B_DOT by {
                    assert(lex[j] == code[s + j]);
                    if s + j < d {
                    } else if s + j == d {
                    } else {
                        assert(d + 1 <= s + j < digits_end(code, d + 1));
                    }
                }
                assert forall|j: int, k: int|
                    0 <= j < k < lex.len() && #[trigger] lex[j] == B_DOT implies #[trigger] lex[k]
                    != B_DOT by {
                    if s + j != d {
                        assert(is_digit(code[s + j]));
                    }
                    if s + k != d {
                        assert(is_digit(code[s + k]));
                    }
                }
            } else {
                let lex = code.subrange(s as int, e as int);
                assert forall|j: int| 0 <= j < lex.len() implies is_digit(#[trigger] lex[j])
                    || lex[j] == B_DOT by {
                    assert(lex[j] == code[s + j]);
                }
                assert forall|j: int, k: int|
                    0 <= j < k < lex.len() && #[trigger] lex[j] == B_DOT implies #[trigger] lex[k]
                    != B_DOT by {
                    assert(is_digit(code[s + j]));
                }
            }
        } else if is_alpha(c) {
            lemma_alnum_end_bounds(code, s + 1);
            assert(alnum_end(code, s) == alnum_end(code, s + 1));
        }
    }
}

/// The first token at or after the cursor that is not an error token,
/// with the line counter threaded through the error run: the lookahead
/// that `advance` leaves after reporting and absorbing the run.
pub open spec fn spec_skip_errors(code: Seq<u8>, pos: nat, line: nat) -> SpecToken
    decreases code.len() - pos,
    via spec_skip_errors_decreases
{
    let st = spec_scan(code, pos, line);
    if st.kind == TokenType::Error {
        spec_skip_errors(code, st.end, st.line)
    } else {
        st
    }
}

#[via_fn]
proof fn spec_skip_errors_decreases(code: Seq<u8>, pos: nat, line: nat) {
    if pos <= code.len() {
        lemma_scan_shape(code, pos, line);
    } else {
        assert(spec_skip_ws(code, pos, line) == (pos, line));
        assert(spec_scan(code, pos, line).kind == TokenType::Eof);
    }
}

fn kw_eq2(lex: &[u8], a: u8, b: u8) -> (r: bool)
    ensures
        r == kw2(lex@, a, b),
{
    lex.len() == 2 && lex[0] == a && lex[1] == b
}

fn kw_eq3(lex: &[u8], a: u8, b: u8, c: u8) -> (r: bool)
    ensures
        r == kw3(lex@, a, b, c),
{
    lex.len() == 3 && lex[0] == a && lex[1] == b && lex[2] == c
}

fn kw_eq4(lex: &[u8], a: u8, b: u8, c: u8, d: u8) -> (r: bool)
    ensures
        r == kw4(lex@, a, b, c, d),
{
    lex.len() == 4 && lex[0] == a && lex[1] == b && lex[2] == c && lex[3] == d
}

fn kw_eq5(lex: &[u8], a: u8, b: u8, c: u8, d: u8, e: u8) -> (r: bool)
    ensures
        r == kw5(lex@, a, b, c, d, e),
{
    lex.len() == 5 && lex[0] == a && lex[1] == b && lex[2] == c && lex[3] == d && lex[4] == e
}

fn kw_eq6(lex: &[u8], a: u8, b: u8, c: u8, d: u8, e: u8, f: u8) -> (r: bool)
    ensures
        r == kw6(lex@, a, b, c, d, e, f),
{
    lex.len() == 6 && lex[0] == a && lex[1] == b && lex[2] == c && lex[3] == d && lex[4] == e
        && lex[5] == f
}

} // verus!
