use lox_rs::{
    compile, disasemble_chunk, disassemble_instr, Chunk, CompileMessage, DiagnosticContext,
    LoxError, Op, Precedence, Value, VM,
};

fn num(x: f64) -> Value {
    Value::Number(x.to_bits())
}

#[test]
fn disassembly_of_a_sum_shows_two_constants_add_and_return() {
    let mut chunk = Chunk::new();
    let (ok, diagnostics) = compile(&mut chunk, b"1.2 + 3.4");
    assert!(ok);
    assert!(diagnostics.is_empty());

    let listing = disasemble_chunk(&chunk);
    assert_eq!(listing.len(), 4);

    assert_eq!(listing[0].op, Op::Constant(0));
    assert_eq!(listing[0].constant, Some(num(1.2)));
    assert_eq!(listing[1].op, Op::Constant(1));
    assert_eq!(listing[1].constant, Some(num(3.4)));
    assert_eq!(listing[2].op, Op::Add);
    assert_eq!(listing[2].constant, None);
    assert_eq!(listing[3].op, Op::Return);

    // All four instructions are attributed to the same source line.
    assert!(listing.iter().all(|entry| entry.line == listing[0].line));
    assert!(!listing[0].line_repeated);
    assert!(listing[1].line_repeated);
    assert!(listing[2].line_repeated);
    assert!(listing[3].line_repeated);

    let single = disassemble_instr(&chunk, 2);
    assert_eq!(single, listing[2]);
}

#[test]
fn line_attribution_follows_the_producing_token() {
    let mut chunk = Chunk::new();
    let (ok, _) = compile(&mut chunk, b"1 +\n2");
    assert!(ok);
    // Constant(1) comes from "1" on line 0; Constant(2) from "2" on line
    // 1; Add and Return are tagged with the line of the token most
    // recently consumed when they are emitted, which is "2".
    assert_eq!(chunk.get_line(0), 0);
    assert_eq!(chunk.get_line(1), 1);
    assert_eq!(chunk.get_line(2), 1);
    assert_eq!(chunk.get_line(3), 1);
}

#[test]
fn chunk_records_lines_as_runs() {
    let mut chunk = Chunk::new();
    chunk.add_operator(Op::Nil, 5);
    chunk.add_operator(Op::Nil, 5);
    chunk.add_operator(Op::True, 7);
    chunk.add_operator(Op::Return, 9);
    assert_eq!(chunk.lines.len(), 3);
    assert_eq!(chunk.get_line(0), 5);
    assert_eq!(chunk.get_line(1), 5);
    assert_eq!(chunk.get_line(2), 7);
    assert_eq!(chunk.get_line(3), 9);
    assert_eq!(chunk.get_line(4), 0);
}

#[test]
fn long_runs_split_without_losing_lookup() {
    let mut chunk = Chunk::new();
    for _ in 0..300 {
        chunk.add_operator(Op::Nil, 3);
    }
    assert_eq!(chunk.get_line(0), 3);
    assert_eq!(chunk.get_line(254), 3);
    assert_eq!(chunk.get_line(255), 3);
    assert_eq!(chunk.get_line(299), 3);
    assert!(chunk.lines.len() >= 2);
}

#[test]
fn add_constant_returns_stable_indices() {
    let mut chunk = Chunk::new();
    assert_eq!(chunk.add_constant(num(1.0), 0), 0);
    assert_eq!(chunk.add_constant(Value::Nil, 0), 1);
    assert_eq!(chunk.add_constant(Value::Boolean(true), 0), 2);
    assert_eq!(chunk.values[0], num(1.0));
    assert_eq!(chunk.values[2], Value::Boolean(true));
}

#[test]
fn compile_reports_each_error_kind() {
    let mut chunk = Chunk::new();
    let (ok, diagnostics) = compile(&mut chunk, b"(1 + 2");
    assert!(!ok);
    assert_eq!(diagnostics.len(), 1);
    assert_eq!(diagnostics[0].message, CompileMessage::ExpectRightParen);
    assert_eq!(diagnostics[0].at, DiagnosticContext::AtEnd);

    let (ok, diagnostics) = compile(&mut chunk, b"1 +");
    assert!(!ok);
    assert_eq!(diagnostics[0].message, CompileMessage::ExpectExpression);

    let (ok, diagnostics) = compile(&mut chunk, b"1 2");
    assert!(!ok);
    assert_eq!(diagnostics[0].message, CompileMessage::ExpectEndOfExpression);
    assert_eq!(diagnostics[0].at, DiagnosticContext::AtLexeme(b"2".to_vec()));
    assert_eq!(diagnostics[0].line, 0);

    let (ok, diagnostics) = compile(&mut chunk, b"@");
    assert!(!ok);
    assert_eq!(diagnostics[0].message, CompileMessage::UnexpectedCharacter);

    let (ok, diagnostics) = compile(&mut chunk, b"\"abc");
    assert!(!ok);
    assert_eq!(diagnostics[0].message, CompileMessage::UnterminatedString);
    assert_eq!(diagnostics[0].at, DiagnosticContext::AtErrorToken);
}

#[test]
fn panic_mode_suppresses_cascading_reports() {
    let mut chunk = Chunk::new();
    let (ok, diagnostics) = compile(&mut chunk, b"+ + +");
    assert!(!ok);
    assert_eq!(diagnostics.len(), 1);
}

#[test]
fn panic_mode_ends_at_a_successful_advance() {
    // Two separate lexical defects, each past a healthy token: panic mode
    // ends once the cursor advances past the first error run, so the
    // second defect is reported too.
    let mut chunk = Chunk::new();
    let (ok, diagnostics) = compile(&mut chunk, b"@ 1 @");
    assert!(!ok);
    assert_eq!(diagnostics.len(), 2);
    assert_eq!(diagnostics[0].message, CompileMessage::UnexpectedCharacter);
    assert_eq!(diagnostics[1].message, CompileMessage::UnexpectedCharacter);

    // A run of adjacent error tokens is still a single cascade.
    let (ok, diagnostics) = compile(&mut chunk, b"@ @ @ 1");
    assert!(!ok);
    assert_eq!(diagnostics.len(), 1);
}

#[test]
fn successful_compile_ends_with_return() {
    let mut chunk = Chunk::new();
    let (ok, _) = compile(&mut chunk, b"!true");
    assert!(ok);
    assert_eq!(chunk.code, vec![Op::True, Op::Not, Op::Return]);
}

#[test]
fn precedence_next_climbs_the_scale() {
    assert_eq!(Precedence::Lowest.next(), Precedence::Assignment);
    assert_eq!(Precedence::Term.next(), Precedence::Factor);
    assert_eq!(Precedence::Factor.next(), Precedence::Unary);
    assert_eq!(Precedence::Comparison.next(), Precedence::Term);
    assert_eq!(Precedence::Equality.next(), Precedence::Comparison);
    assert_eq!(Precedence::Primary.next(), Precedence::Lowest);
}

#[test]
fn compiled_chunk_runs_through_a_fresh_vm() {
    let mut vm = VM::new();
    assert_eq!(vm.interpret(b"(2 + 6) / 4"), Ok(num(2.0)));
    assert_eq!(vm.stack.len(), 0);
    assert_eq!(vm.interpret(b"1 > 2 == false"), Ok(Value::Boolean(true)));
}

#[test]
fn compile_error_chunks_are_not_executed() {
    let mut vm = VM::new();
    assert_eq!(vm.interpret(b"nil nil"), Err(LoxError::CompileError));
    assert!(vm.runtime_diagnostic.is_none());
}
