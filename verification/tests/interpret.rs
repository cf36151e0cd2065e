use lox_rs::{LoxError, RuntimeDiagnostic, RuntimeMessage, Value, VM};

fn num(x: f64) -> Value {
    Value::Number(x.to_bits())
}

fn run(source: &[u8]) -> Result<Value, LoxError> {
    let mut vm = VM::new();
    vm.interpret(source)
}

#[test]
fn arithmetic_follows_precedence() {
    assert_eq!(run(b"1 + 2 * 3"), Ok(num(7.0)));
    assert_eq!(run(b"2 * 3 + 1"), Ok(num(7.0)));
    assert_eq!(run(b"10 - 8 / 4"), Ok(num(8.0)));
}

#[test]
fn parentheses_override_precedence() {
    assert_eq!(run(b"(1 + 2) * 3"), Ok(num(9.0)));
    assert_eq!(run(b"1 + 2 * 3"), Ok(num(7.0)));
}

#[test]
fn fractional_arithmetic_matches_doubles() {
    assert_eq!(run(b"1.2 + 3.4"), Ok(num(1.2 + 3.4)));
    assert_eq!(run(b"0.1 + 0.2"), Ok(num(0.1 + 0.2)));
    assert_eq!(run(b"10 / 4"), Ok(num(2.5)));
}

#[test]
fn subtraction_and_division_are_left_associative() {
    assert_eq!(run(b"5 - 2 - 1"), Ok(num(2.0)));
    assert_eq!(run(b"16 / 4 / 2"), Ok(num(2.0)));
}

#[test]
fn unary_minus_binds_tighter_than_binary() {
    assert_eq!(run(b"-3 + 5"), Ok(num(2.0)));
    assert_eq!(run(b"-(1 + 2)"), Ok(num(-3.0)));
    assert_eq!(run(b"--3"), Ok(num(3.0)));
    assert_eq!(run(b"2 * -3"), Ok(num(-6.0)));
}

#[test]
fn division_by_zero_follows_ieee() {
    assert_eq!(run(b"1 / 0"), Ok(num(f64::INFINITY)));
    assert_eq!(run(b"-1 / 0"), Ok(num(f64::NEG_INFINITY)));
}

#[test]
fn equality_is_same_kind_only() {
    assert_eq!(run(b"nil == false"), Ok(Value::Boolean(false)));
    assert_eq!(run(b"1 == 1.0"), Ok(Value::Boolean(true)));
    assert_eq!(run(b"true != false"), Ok(Value::Boolean(true)));
    assert_eq!(run(b"1 == nil"), Ok(Value::Boolean(false)));
    assert_eq!(run(b"1 == true"), Ok(Value::Boolean(false)));
    assert_eq!(run(b"nil == nil"), Ok(Value::Boolean(true)));
    assert_eq!(run(b"2 == 3"), Ok(Value::Boolean(false)));
    assert_eq!(run(b"2 != 3"), Ok(Value::Boolean(true)));
}

#[test]
fn comparisons_match_double_ordering() {
    assert_eq!(run(b"1 < 2"), Ok(Value::Boolean(true)));
    assert_eq!(run(b"2 < 1"), Ok(Value::Boolean(false)));
    assert_eq!(run(b"2 <= 2"), Ok(Value::Boolean(true)));
    assert_eq!(run(b"3 > 4"), Ok(Value::Boolean(false)));
    assert_eq!(run(b"4 > 3"), Ok(Value::Boolean(true)));
    assert_eq!(run(b"3 >= 3"), Ok(Value::Boolean(true)));
    assert_eq!(run(b"1.5 < 1.6"), Ok(Value::Boolean(true)));
}

#[test]
fn comparison_on_non_number_is_runtime_error() {
    assert_eq!(run(b"true < 1"), Err(LoxError::RuntimeError));
    assert_eq!(run(b"nil > nil"), Err(LoxError::RuntimeError));
    assert_eq!(run(b"1 >= false"), Err(LoxError::RuntimeError));
}

#[test]
fn arithmetic_on_non_number_is_runtime_error() {
    assert_eq!(run(b"1 + nil"), Err(LoxError::RuntimeError));
    assert_eq!(run(b"true * 2"), Err(LoxError::RuntimeError));
}

#[test]
fn negate_on_non_number_is_runtime_error() {
    let mut vm = VM::new();
    assert_eq!(vm.interpret(b"-nil"), Err(LoxError::RuntimeError));
    assert_eq!(
        vm.runtime_diagnostic,
        Some(RuntimeDiagnostic {
            line: 0,
            message: RuntimeMessage::OperandMustBeNumber,
        })
    );
}

#[test]
fn runtime_error_reports_source_line() {
    let mut vm = VM::new();
    assert_eq!(vm.interpret(b"1 +\ntrue"), Err(LoxError::RuntimeError));
    assert_eq!(
        vm.runtime_diagnostic,
        Some(RuntimeDiagnostic {
            line: 1,
            message: RuntimeMessage::OperandsMustBeNumbers,
        })
    );
}

#[test]
fn not_implements_falsey_negation() {
    assert_eq!(run(b"!nil"), Ok(Value::Boolean(true)));
    assert_eq!(run(b"!false"), Ok(Value::Boolean(true)));
    assert_eq!(run(b"!0"), Ok(Value::Boolean(false)));
    assert_eq!(run(b"!3.5"), Ok(Value::Boolean(false)));
    assert_eq!(run(b"!true"), Ok(Value::Boolean(false)));
    assert_eq!(run(b"!!nil"), Ok(Value::Boolean(false)));
}

#[test]
fn literals_evaluate_to_themselves() {
    assert_eq!(run(b"true"), Ok(Value::Boolean(true)));
    assert_eq!(run(b"false"), Ok(Value::Boolean(false)));
    assert_eq!(run(b"nil"), Ok(Value::Nil));
    assert_eq!(run(b"1.5"), Ok(num(1.5)));
    assert_eq!(run(b"42"), Ok(num(42.0)));
}

#[test]
fn syntax_error_is_compile_error_without_execution() {
    let mut vm = VM::new();
    let before_ip = vm.ip;
    assert_eq!(vm.interpret(b"(1 + 2"), Err(LoxError::CompileError));
    assert!(vm.compile_diagnostics.len() > 0);
    assert_eq!(vm.ip, before_ip);
    assert_eq!(vm.stack.len(), 0);
}

#[test]
fn dangling_operator_is_compile_error() {
    assert_eq!(run(b"1 +"), Err(LoxError::CompileError));
    assert_eq!(run(b"* 2"), Err(LoxError::CompileError));
}

#[test]
fn empty_source_is_compile_error() {
    assert_eq!(run(b""), Err(LoxError::CompileError));
}

#[test]
fn trailing_tokens_are_a_compile_error() {
    assert_eq!(run(b"1 2"), Err(LoxError::CompileError));
}

#[test]
fn comments_and_whitespace_are_skipped() {
    assert_eq!(run(b"  1 + // one\n 2 "), Ok(num(3.0)));
    assert_eq!(run(b"// only a comment\n4"), Ok(num(4.0)));
}

#[test]
fn interpreting_twice_on_one_vm_is_independent() {
    let mut vm = VM::new();
    assert_eq!(vm.interpret(b"1 + 1"), Ok(num(2.0)));
    assert_eq!(vm.interpret(b"2 + 2"), Ok(num(4.0)));
    assert_eq!(vm.interpret(b"(1"), Err(LoxError::CompileError));
    assert_eq!(vm.interpret(b"3 * 3"), Ok(num(9.0)));
}

#[test]
fn value_is_falsey() {
    assert!(Value::Nil.is_falsey());
    assert!(Value::Boolean(false).is_falsey());
    assert!(!Value::Boolean(true).is_falsey());
    assert!(!Value::Number(0.0f64.to_bits()).is_falsey());
    assert!(!Value::Number(1.0f64.to_bits()).is_falsey());
}

#[test]
fn nested_expressions_match_double_evaluation() {
    assert_eq!(run(b"(2.5 - 0.5) * (1 + 1)"), Ok(num(4.0)));
    assert_eq!(run(b"1 - 2 * 3 + 4 / 2"), Ok(num(1.0 - 2.0 * 3.0 + 4.0 / 2.0)));
    assert_eq!(run(b"((((7))))"), Ok(num(7.0)));
    assert_eq!(run(b"0.1 * 0.2 / 0.3"), Ok(num(0.1 * 0.2 / 0.3)));
    assert_eq!(run(b"-0.5 + 0.25"), Ok(num(-0.5 + 0.25)));
}

#[test]
fn comparisons_feed_equality() {
    assert_eq!(run(b"1 < 2 == true"), Ok(Value::Boolean(true)));
    assert_eq!(run(b"!(1 < 2)"), Ok(Value::Boolean(false)));
}

#[test]
fn runtime_error_line_is_the_faulting_instruction() {
    // The add of nil faults on line 0; the pending operator on line 1
    // must not leak into the diagnostic.
    let mut vm = VM::new();
    assert_eq!(vm.interpret(b"nil + 1\n+ 2"), Err(LoxError::RuntimeError));
    assert_eq!(
        vm.runtime_diagnostic,
        Some(RuntimeDiagnostic {
            line: 0,
            message: RuntimeMessage::OperandsMustBeNumbers,
        })
    );
}

#[test]
fn compile_error_clears_the_runtime_diagnostic() {
    let mut vm = VM::new();
    assert_eq!(vm.interpret(b"-nil"), Err(LoxError::RuntimeError));
    assert!(vm.runtime_diagnostic.is_some());
    assert_eq!(vm.interpret(b"(1"), Err(LoxError::CompileError));
    assert!(vm.runtime_diagnostic.is_none());
}
