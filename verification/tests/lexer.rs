use lox_rs::{LexError, Scanner, Token, TokenType};

fn kinds(source: &[u8]) -> Vec<TokenType> {
    let mut scanner = Scanner::new(source);
    let mut out = Vec::new();
    loop {
        let token = scanner.scan_token();
        let kind = token.kind;
        out.push(kind);
        if kind == TokenType::Eof {
            return out;
        }
    }
}

#[test]
fn punctuation_and_operators() {
    assert_eq!(
        kinds(b"(){};,.-+/*"),
        vec![
            TokenType::LeftParen,
            TokenType::RightParen,
            TokenType::LeftBrace,
            TokenType::RightBrace,
            TokenType::Semicolon,
            TokenType::Comma,
            TokenType::Dot,
            TokenType::Minus,
            TokenType::Plus,
            TokenType::Slash,
            TokenType::Star,
            TokenType::Eof,
        ]
    );
}

#[test]
fn one_and_two_character_operators() {
    assert_eq!(
        kinds(b"! != = == < <= > >="),
        vec![
            TokenType::Bang,
            TokenType::BangEqual,
            TokenType::Equal,
            TokenType::EqualEqual,
            TokenType::Less,
            TokenType::LessEqual,
            TokenType::Greater,
            TokenType::GreaterEqual,
            TokenType::Eof,
        ]
    );
}

#[test]
fn keywords_and_identifiers() {
    assert_eq!(
        kinds(b"and class else false for fun if nil or print return super this true var while"),
        vec![
            TokenType::And,
            TokenType::Class,
            TokenType::Else,
            TokenType::False,
            TokenType::For,
            TokenType::Fun,
            TokenType::If,
            TokenType::Nil,
            TokenType::Or,
            TokenType::Print,
            TokenType::Return,
            TokenType::Super,
            TokenType::This,
            TokenType::True,
            TokenType::Var,
            TokenType::While,
            TokenType::Eof,
        ]
    );
    assert_eq!(
        kinds(b"foo andx _bar or2"),
        vec![
            TokenType::Identifier,
            TokenType::Identifier,
            TokenType::Identifier,
            TokenType::Identifier,
            TokenType::Eof,
        ]
    );
}

#[test]
fn numbers_take_an_optional_fraction() {
    let mut scanner = Scanner::new(b"12 3.5 7. .5");
    let t = scanner.scan_token();
    assert_eq!(t.kind, TokenType::Number);
    assert_eq!(t.lexeme, b"12");
    let t = scanner.scan_token();
    assert_eq!(t.kind, TokenType::Number);
    assert_eq!(t.lexeme, b"3.5");
    // "7." is a number followed by a dot: the fraction needs a digit.
    let t = scanner.scan_token();
    assert_eq!(t.kind, TokenType::Number);
    assert_eq!(t.lexeme, b"7");
    assert_eq!(scanner.scan_token().kind, TokenType::Dot);
    // ".5" is a dot followed by a number: no leading-dot literals.
    assert_eq!(scanner.scan_token().kind, TokenType::Dot);
    assert_eq!(scanner.scan_token().kind, TokenType::Number);
    assert_eq!(scanner.scan_token().kind, TokenType::Eof);
}

#[test]
fn string_literals_span_lines() {
    let mut scanner = Scanner::new(b"\"ab\ncd\" 1");
    let t = scanner.scan_token();
    assert_eq!(t.kind, TokenType::String);
    assert_eq!(t.lexeme, b"\"ab\ncd\"");
    assert_eq!(t.line, 1);
    let t = scanner.scan_token();
    assert_eq!(t.kind, TokenType::Number);
    assert_eq!(t.line, 1);
}

#[test]
fn unterminated_string_is_an_error_token() {
    let mut scanner = Scanner::new(b"\"abc");
    let t = scanner.scan_token();
    assert_eq!(t.kind, TokenType::Error);
    assert_eq!(t.error, Some(LexError::UnterminatedString));
}

#[test]
fn unexpected_character_is_an_error_token() {
    let mut scanner = Scanner::new(b"@");
    let t = scanner.scan_token();
    assert_eq!(t.kind, TokenType::Error);
    assert_eq!(t.error, Some(LexError::UnexpectedCharacter));
    assert_eq!(t.lexeme, b"@");
}

#[test]
fn end_of_input_repeats() {
    let mut scanner = Scanner::new(b"1");
    assert_eq!(scanner.scan_token().kind, TokenType::Number);
    assert_eq!(scanner.scan_token().kind, TokenType::Eof);
    assert_eq!(scanner.scan_token().kind, TokenType::Eof);
    assert_eq!(scanner.scan_token().kind, TokenType::Eof);
}

#[test]
fn lines_count_newlines_in_whitespace_and_comments() {
    let mut scanner = Scanner::new(b"1\n2 // c\n\n3");
    let t = scanner.scan_token();
    assert_eq!((t.kind, t.line), (TokenType::Number, 0));
    let t = scanner.scan_token();
    assert_eq!((t.kind, t.line), (TokenType::Number, 1));
    let t = scanner.scan_token();
    assert_eq!((t.kind, t.line), (TokenType::Number, 3));
    assert_eq!(scanner.scan_token().kind, TokenType::Eof);
}

#[test]
fn comment_runs_to_end_of_line_only() {
    assert_eq!(
        kinds(b"1 // + 2\n+ 3"),
        vec![TokenType::Number, TokenType::Plus, TokenType::Number, TokenType::Eof]
    );
}

#[test]
fn lexemes_are_source_slices() {
    let source: &[u8] = b"12 + foo";
    let mut scanner = Scanner::new(source);
    assert_eq!(scanner.scan_token().lexeme, b"12");
    assert_eq!(scanner.scan_token().lexeme, b"+");
    assert_eq!(scanner.scan_token().lexeme, b"foo");
    assert_eq!(scanner.scan_token().lexeme, b"");
}

#[test]
fn placeholder_token_is_nil() {
    let t = Token::new();
    assert_eq!(t.kind, TokenType::Nil);
    assert_eq!(t.line, 0);
    assert_eq!(t.lexeme, b"nil");
    assert_eq!(t.error, None);
}
