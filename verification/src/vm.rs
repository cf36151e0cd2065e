use vstd::prelude::*;

use crate::chunk::Chunk;
use crate::chunk::Op;
use crate::chunk::code_consts_ok;
use crate::chunk::op_pops;
use crate::chunk::op_pushes;
use crate::chunk::stack_out;
use crate::compiler::CompileDiagnostic;
use crate::compiler::compile;
use crate::compiler::spec_expr;
use crate::scanner::TokenType;
use crate::scanner::spec_scan;
use crate::number::add_bits;
use crate::number::div_bits;
use crate::number::ge_bits;
use crate::number::gt_bits;
use crate::number::ieee_add;
use crate::number::ieee_div;
use crate::number::ieee_ge;
use crate::number::ieee_gt;
use crate::number::ieee_le;
use crate::number::ieee_lt;
use crate::number::ieee_mul;
use crate::number::ieee_neg;
use crate::number::ieee_sub;
use crate::number::le_bits;
use crate::number::lt_bits;
use crate::number::mul_bits;
use crate::number::neg_bits;
use crate::number::sub_bits;
use crate::value::Value;

verus! {

broadcast use vstd::std_specs::vec::group_vec_axioms;

/// The two failure kinds a caller must be able to tell apart without
/// reading diagnostic text: the source failed to compile, or a runtime
/// type precondition was violated during execution.
#[derive(Debug, Copy, Clone, PartialEq, Eq, Structural)]
pub enum LoxError {
    CompileError,
    RuntimeError,
}

/// The binary operators that require two number operands.
#[derive(Debug, Copy, Clone, PartialEq, Eq, Structural)]
pub enum BinOp {
    Add,
    Subtract,
    Multiply,
    Divide,
    Greater,
    GreaterEqual,
    Less,
    LessEqual,
}

/// The message of a runtime diagnostic.
#[derive(Debug, Copy, Clone, PartialEq, Eq, Structural)]
pub enum RuntimeMessage {
    OperandMustBeNumber,
    OperandsMustBeNumbers,
}

/// A runtime failure's diagnostic: the message and the source line the
/// failing instruction was attributed to.
#[derive(Debug, Copy, Clone, PartialEq, Eq, Structural)]
pub struct RuntimeDiagnostic {
    pub line: u16,
    pub message: RuntimeMessage,
}

/// How an execution ends: normally with a result (and the operands left
/// below it, which are none for a balanced chunk); with a runtime type
/// fault at a given instruction-pointer position, carrying the operand
/// stack as the fault leaves it (a faulting negate only peeked, so its
/// operand stays; a faulting binary operator popped both operands); or
/// stuck — the stack discipline or an operand bound would be violated,
/// which the virtual machine refuses to run into.
pub enum RunOutcome {
    Done { result: Value, rest: Seq<Value> },
    Fault { at: nat, message: RuntimeMessage, stack: Seq<Value> },
    Stuck,
}

/// What a binary numeric operator yields on two number payloads.
pub open spec fn binop_value(binop: BinOp, a: u64, b: u64) -> Value {
    match binop {
        BinOp::Add => Value::Number(ieee_add(a, b)),
        BinOp::Subtract => Value::Number(ieee_sub(a, b)),
        BinOp::Multiply => Value::Number(ieee_mul(a, b)),
        BinOp::Divide => Value::Number(ieee_div(a, b)),
        BinOp::Greater => Value::Boolean(ieee_gt(a, b)),
        BinOp::GreaterEqual => Value::Boolean(ieee_ge(a, b)),
        BinOp::Less => Value::Boolean(ieee_lt(a, b)),
        BinOp::LessEqual => Value::Boolean(ieee_le(a, b)),
    }
}

/// A binary numeric operator applied to the two topmost stack values
/// (left below right): the new stack, or the type fault.
pub open spec fn spec_binary_result(stack: Seq<Value>, binop: BinOp) -> Result<
    Seq<Value>,
    RuntimeMessage,
> {
    let b = stack.last();
    let a = stack[stack.len() - 2];
    match (a, b) {
        (Value::Number(x), Value::Number(y)) => Ok(
            stack.drop_last().drop_last().push(binop_value(binop, x, y)),
        ),
        _ => Err(RuntimeMessage::OperandsMustBeNumbers),
    }
}

/// The virtual machine's big-step semantics: run `code` against constant
/// pool `consts`, from instruction `ip` with operand stack `stack`, to
/// the end. Execution is straight-line — there are no jumps — so this
/// recursion steps through each instruction once.
pub open spec fn spec_run(code: Seq<Op>, consts: Seq<Value>, stack: Seq<Value>, ip: nat) -> RunOutcome
    decreases code.len() - ip,
{
    if ip >= code.len() {
        RunOutcome::Stuck
    } else {
        let op = code[ip as int];
        match op {
            Op::Constant(index) => if index < consts.len() {
                spec_run(code, consts, stack.push(consts[index as int]), ip + 1)
            } else {
                RunOutcome::Stuck
            },
            Op::False => spec_run(code, consts, stack.push(Value::Boolean(false)), ip + 1),
            Op::True => spec_run(code, consts, stack.push(Value::Boolean(true)), ip + 1),
            Op::Nil => spec_run(code, consts, stack.push(Value::Nil), ip + 1),
            Op::Not => if stack.len() >= 1 {
                spec_run(
                    code,
                    consts,
                    stack.drop_last().push(Value::Boolean(stack.last().spec_is_falsey())),
                    ip + 1,
                )
            } else {
                RunOutcome::Stuck
            },
            Op::Negate => if stack.len() >= 1 {
                match stack.last() {
                    Value::Number(b) => spec_run(
                        code,
                        consts,
                        stack.drop_last().push(Value::Number(ieee_neg(b))),
                        ip + 1,
                    ),
                    _ => RunOutcome::Fault {
                        at: ip + 1,
                        message: RuntimeMessage::OperandMustBeNumber,
                        stack,
                    },
                }
            } else {
                RunOutcome::Stuck
            },
            Op::Equal => if stack.len() >= 2 {
                spec_run(
                    code,
                    consts,
                    stack.drop_last().drop_last().push(
                        Value::Boolean(stack[stack.len() - 2] == stack.last()),
                    ),
                    ip + 1,
                )
            } else {
                RunOutcome::Stuck
            },
            Op::NotEqual => if stack.len() >= 2 {
                spec_run(
                    code,
                    consts,
                    stack.drop_last().drop_last().push(
                        Value::Boolean(stack[stack.len() - 2] != stack.last()),
                    ),
                    ip + 1,
                )
            } else {
                RunOutcome::Stuck
            },
            Op::Add => spec_run_binary(code, consts, stack, ip, BinOp::Add),
            Op::Subtract => spec_run_binary(code, consts, stack, ip, BinOp::Subtract),
            Op::Multiply => spec_run_binary(code, consts, stack, ip, BinOp::Multiply),
            Op::Divide => spec_run_binary(code, consts, stack, ip, BinOp::Divide),
            Op::Greater => spec_run_binary(code, consts, stack, ip, BinOp::Greater),
            Op::GreaterEqual => spec_run_binary(code, consts, stack, ip, BinOp::GreaterEqual),
            Op::Less => spec_run_binary(code, consts, stack, ip, BinOp::Less),
            Op::LessEqual => spec_run_binary(code, consts, stack, ip, BinOp::LessEqual),
            Op::Return => if stack.len() >= 1 {
                RunOutcome::Done { result: stack.last(), rest: stack.drop_last() }
            } else {
                RunOutcome::Stuck
            },
        }
    }
}

/// One binary-operator step of the machine, then the rest of the run.
pub open spec fn spec_run_binary(
    code: Seq<Op>,
    consts: Seq<Value>,
    stack: Seq<Value>,
    ip: nat,
    binop: BinOp,
) -> RunOutcome
    decreases code.len() - ip, 1int,
{
    if ip < code.len() && stack.len() >= 2 {
        match spec_binary_result(stack, binop) {
            Ok(stack2) => spec_run(code, consts, stack2, ip + 1),
            Err(message) => RunOutcome::Fault {
                at: ip + 1,
                message,
                stack: stack.drop_last().drop_last(),
            },
        }
    } else {
        RunOutcome::Stuck
    }
}

/// The line a fault at instruction-pointer position `at` is reported
/// with: `at` is the position just past the faulting instruction, so the
/// line is the faulting instruction's own — the line at the point of
/// failure.
pub open spec fn spec_fault_line(chunk: Chunk, at: nat) -> u16 {
    if 0 < at <= chunk.code@.len() {
        chunk.line_seq()[at - 1]
    } else {
        0u16
    }
}

/// The virtual machine: one chunk, an instruction pointer into it, and
/// the operand stack. The diagnostics of the most recent `interpret`
/// call are kept for the caller to report.
pub struct VM {
    pub chunk: Chunk,
    pub stack: Vec<Value>,
    pub ip: usize,
    pub compile_diagnostics: Vec<CompileDiagnostic>,
    pub runtime_diagnostic: Option<RuntimeDiagnostic>,
}

impl VM {
    pub fn new() -> (vm: Self)
        ensures
            vm.chunk.wf(),
            vm.chunk.code@.len() == 0,
            vm.stack@.len() == 0,
            vm.ip == 0,
            vm.compile_diagnostics@.len() == 0,
            vm.runtime_diagnostic is None,
    {
        Self {
            chunk: Chunk::new(),
            stack: Vec::new(),
            ip: 0,
            compile_diagnostics: Vec::new(),
            runtime_diagnostic: None,
        }
    }

    /// The value `distance` slots below the top of the operand stack.
    fn peek(&self, distance: usize) -> (v: Value)
        requires
            distance < self.stack@.len(),
        ensures
            v == self.stack@[self.stack@.len() - 1 - distance],
    {
        self.stack[self.stack.len() - 1 - distance]
    }

    /// Records the runtime diagnostic, resolving the instruction the
    /// already-advanced instruction pointer just passed — the one that
    /// failed — to its source line, and yields the runtime error.
    fn runtime_error(&mut self, message: RuntimeMessage) -> (r: Result<(), LoxError>)
        requires
            old(self).chunk.wf(),
            old(self).ip >= 1,
        ensures
            final(self).chunk == old(self).chunk,
            final(self).stack == old(self).stack,
            final(self).ip == old(self).ip,
            final(self).compile_diagnostics == old(self).compile_diagnostics,
            final(self).runtime_diagnostic == Some(
                RuntimeDiagnostic {
                    line: spec_fault_line(old(self).chunk, old(self).ip as nat),
                    message,
                },
            ),
            r == Err::<(), LoxError>(LoxError::RuntimeError),
    {
        let line = self.chunk.get_line(self.ip - 1);
        self.runtime_diagnostic = Some(RuntimeDiagnostic { line, message });
        Err(LoxError::RuntimeError)
    }

    /// Pops the right then the left operand, requires both to be numbers,
    /// and pushes the operator's result; on a type fault the operands
    /// stay popped and the diagnostic is recorded.
    fn binary_op(&mut self, binop: BinOp) -> (r: Result<(), LoxError>)
        requires
            old(self).chunk.wf(),
            old(self).ip >= 1,
            old(self).stack@.len() >= 2,
        ensures
            final(self).chunk == old(self).chunk,
            final(self).ip == old(self).ip,
            final(self).compile_diagnostics == old(self).compile_diagnostics,
            match spec_binary_result(old(self).stack@, binop) {
                Ok(stack2) => {
                    &&& r is Ok
                    &&& final(self).stack@ == stack2
                    &&& final(self).runtime_diagnostic == old(self).runtime_diagnostic
                },
                Err(message) => {
                    &&& r == Err::<(), LoxError>(LoxError::RuntimeError)
                    &&& final(self).stack@ == old(self).stack@.drop_last().drop_last()
                    &&& final(self).runtime_diagnostic == Some(
                        RuntimeDiagnostic {
                            line: spec_fault_line(old(self).chunk, old(self).ip as nat),
                            message,
                        },
                    )
                },
            },
    {
        let b = self.stack.pop().unwrap();
        let a = self.stack.pop().unwrap();
        match (a, b) {
            (Value::Number(x), Value::Number(y)) => {
                let v = match binop {
                    BinOp::Add => Value::Number(add_bits(x, y)),
                    BinOp::Subtract => Value::Number(sub_bits(x, y)),
                    BinOp::Multiply => Value::Number(mul_bits(x, y)),
                    BinOp::Divide => Value::Number(div_bits(x, y)),
                    BinOp::Greater => Value::Boolean(gt_bits(x, y)),
                    BinOp::GreaterEqual => Value::Boolean(ge_bits(x, y)),
                    BinOp::Less => Value::Boolean(lt_bits(x, y)),
                    BinOp::LessEqual => Value::Boolean(le_bits(x, y)),
                };
                self.stack.push(v);
                Ok(())
            },
            _ => self.runtime_error(RuntimeMessage::OperandsMustBeNumbers),
        }
    }

    /// The fetch-decode-execute loop: runs the loaded chunk from the
    /// current instruction pointer to its return instruction or to the
    /// first runtime fault, exactly as the big-step semantics says.
    #[verifier::rlimit(80)]
    pub fn run(&mut self) -> (r: Result<Value, LoxError>)
        requires
            old(self).chunk.wf(),
            !(spec_run(
                old(self).chunk.code@,
                old(self).chunk.values@,
                old(self).stack@,
                old(self).ip as nat,
            ) is Stuck),
        ensures
            final(self).chunk == old(self).chunk,
            final(self).compile_diagnostics == old(self).compile_diagnostics,
            match spec_run(
                old(self).chunk.code@,
                old(self).chunk.values@,
                old(self).stack@,
                old(self).ip as nat,
            ) {
                RunOutcome::Done { result, rest } => {
                    &&& r == Ok::<Value, LoxError>(result)
                    &&& final(self).stack@ == rest
                    &&& final(self).runtime_diagnostic == old(self).runtime_diagnostic
                },
                RunOutcome::Fault { at, message, stack } => {
                    &&& r == Err::<Value, LoxError>(LoxError::RuntimeError)
                    &&& final(self).stack@ == stack
                    &&& final(self).runtime_diagnostic == Some(
                        RuntimeDiagnostic {
                            line: spec_fault_line(old(self).chunk, at),
                            message,
                        },
                    )
                },
                RunOutcome::Stuck => false,
            },
    {
        let ghost target = spec_run(
            old(self).chunk.code@,
            old(self).chunk.values@,
            old(self).stack@,
            old(self).ip as nat,
        );
        loop
            invariant
                target == spec_run(
                    old(self).chunk.code@,
                    old(self).chunk.values@,
                    old(self).stack@,
                    old(self).ip as nat,
                ),
                self.chunk == old(self).chunk,
                self.chunk.wf(),
                self.ip <= self.chunk.code@.len(),
                self.compile_diagnostics == old(self).compile_diagnostics,
                self.runtime_diagnostic == old(self).runtime_diagnostic,
                !(target is Stuck),
                spec_run(self.chunk.code@, self.chunk.values@, self.stack@, self.ip as nat)
                    == target,
            decreases self.chunk.code@.len() - self.ip,
        {
            proof {
                if self.ip >= self.chunk.code@.len() {
                    assert(target is Stuck);
                }
                assert(vstd::std_specs::vec::spec_vec_len(&self.chunk.code)
                    == self.chunk.code@.len());
            }
            let ghost pre_stack = self.stack@;
            let ghost pre_ip = self.ip as nat;
            let instruction = self.chunk.code[self.ip];
            self.ip += 1;
            match instruction {
                Op::Constant(index) => {
                    let value = self.chunk.values[index];
                    self.stack.push(value);
                },
                Op::False => self.stack.push(Value::Boolean(false)),
                Op::True => self.stack.push(Value::Boolean(true)),
                Op::Nil => self.stack.push(Value::Nil),
                Op::Negate => {
                    proof {
                        if pre_stack.len() == 0 {
                            assert(spec_run(
                                self.chunk.code@,
                                self.chunk.values@,
                                pre_stack,
                                pre_ip,
                            ) is Stuck);
                        }
                    }
                    match self.peek(0) {
                        Value::Number(b) => {
                            let _ = self.stack.pop();
                            self.stack.push(Value::Number(neg_bits(b)));
                        },
                        _ => {
                            proof {
                                assert(target == RunOutcome::Fault {
                                    at: pre_ip + 1,
                                    message: RuntimeMessage::OperandMustBeNumber,
                                    stack: pre_stack,
                                });
                            }
                            let _ = self.runtime_error(RuntimeMessage::OperandMustBeNumber);
                            return Err(LoxError::RuntimeError);
                        },
                    }
                },
                Op::Add => {
                    proof {
                        if pre_stack.len() < 2 {
                            assert(spec_run(
                                self.chunk.code@,
                                self.chunk.values@,
                                pre_stack,
                                pre_ip,
                            ) is Stuck);
                        }
                        assert(spec_run(self.chunk.code@, self.chunk.values@, pre_stack, pre_ip)
                            == spec_run_binary(
                            self.chunk.code@,
                            self.chunk.values@,
                            pre_stack,
                            pre_ip,
                            BinOp::Add,
                        ));
                    }
                    if let Err(e) = self.binary_op(BinOp::Add) {
                        return Err(e);
                    }
                },
                Op::Subtract => {
                    proof {
                        if pre_stack.len() < 2 {
                            assert(spec_run(
                                self.chunk.code@,
                                self.chunk.values@,
                                pre_stack,
                                pre_ip,
                            ) is Stuck);
                        }
                        assert(spec_run(self.chunk.code@, self.chunk.values@, pre_stack, pre_ip)
                            == spec_run_binary(
                            self.chunk.code@,
                            self.chunk.values@,
                            pre_stack,
                            pre_ip,
                            BinOp::Subtract,
                        ));
                    }
                    if let Err(e) = self.binary_op(BinOp::Subtract) {
                        return Err(e);
                    }
                },
                Op::Multiply => {
                    proof {
                        if pre_stack.len() < 2 {
                            assert(spec_run(
                                self.chunk.code@,
                                self.chunk.values@,
                                pre_stack,
                                pre_ip,
                            ) is Stuck);
                        }
                        assert(spec_run(self.chunk.code@, self.chunk.values@, pre_stack, pre_ip)
                            == spec_run_binary(
                            self.chunk.code@,
                            self.chunk.values@,
                            pre_stack,
                            pre_ip,
                            BinOp::Multiply,
                        ));
                    }
                    if let Err(e) = self.binary_op(BinOp::Multiply) {
                        return Err(e);
                    }
                },
                Op::Divide => {
                    proof {
                        if pre_stack.len() < 2 {
                            assert(spec_run(
                                self.chunk.code@,
                                self.chunk.values@,
                                pre_stack,
                                pre_ip,
                            ) is Stuck);
                        }
                        assert(spec_run(self.chunk.code@, self.chunk.values@, pre_stack, pre_ip)
                            == spec_run_binary(
                            self.chunk.code@,
                            self.chunk.values@,
                            pre_stack,
                            pre_ip,
                            BinOp::Divide,
                        ));
                    }
                    if let Err(e) = self.binary_op(BinOp::Divide) {
                        return Err(e);
                    }
                },
                Op::Not => {
                    proof {
                        if pre_stack.len() == 0 {
                            assert(spec_run(
                                self.chunk.code@,
                                self.chunk.values@,
                                pre_stack,
                                pre_ip,
                            ) is Stuck);
                        }
                    }
                    let value = self.stack.pop().unwrap().is_falsey();
                    self.stack.push(Value::Boolean(value));
                },
                Op::Equal => {
                    proof {
                        if pre_stack.len() < 2 {
                            assert(spec_run(
                                self.chunk.code@,
                                self.chunk.values@,
                                pre_stack,
                                pre_ip,
                            ) is Stuck);
                        }
                    }
                    let b = self.stack.pop().unwrap();
                    let a = self.stack.pop().unwrap();
                    self.stack.push(Value::Boolean(a == b));
                },
                Op::NotEqual => {
                    proof {
                        if pre_stack.len() < 2 {
                            assert(spec_run(
                                self.chunk.code@,
                                self.chunk.values@,
                                pre_stack,
                                pre_ip,
                            ) is Stuck);
                        }
                    }
                    let b = self.stack.pop().unwrap();
                    let a = self.stack.pop().unwrap();
                    self.stack.push(Value::Boolean(a != b));
                },
                Op::Greater => {
                    proof {
                        if pre_stack.len() < 2 {
                            assert(spec_run(
                                self.chunk.code@,
                                self.chunk.values@,
                                pre_stack,
                                pre_ip,
                            ) is Stuck);
                        }
                        assert(spec_run(self.chunk.code@, self.chunk.values@, pre_stack, pre_ip)
                            == spec_run_binary(
                            self.chunk.code@,
                            self.chunk.values@,
                            pre_stack,
                            pre_ip,
                            BinOp::Greater,
                        ));
                    }
                    if let Err(e) = self.binary_op(BinOp::Greater) {
                        return Err(e);
                    }
                },
                Op::GreaterEqual => {
                    proof {
                        if pre_stack.len() < 2 {
                            assert(spec_run(
                                self.chunk.code@,
                                self.chunk.values@,
                                pre_stack,
                                pre_ip,
                            ) is Stuck);
                        }
                        assert(spec_run(self.chunk.code@, self.chunk.values@, pre_stack, pre_ip)
                            == spec_run_binary(
                            self.chunk.code@,
                            self.chunk.values@,
                            pre_stack,
                            pre_ip,
                            BinOp::GreaterEqual,
                        ));
                    }
                    if let Err(e) = self.binary_op(BinOp::GreaterEqual) {
                        return Err(e);
                    }
                },
                Op::Less => {
                    proof {
                        if pre_stack.len() < 2 {
                            assert(spec_run(
                                self.chunk.code@,
                                self.chunk.values@,
                                pre_stack,
                                pre_ip,
                            ) is Stuck);
                        }
                        assert(spec_run(self.chunk.code@, self.chunk.values@, pre_stack, pre_ip)
                            == spec_run_binary(
                            self.chunk.code@,
                            self.chunk.values@,
                            pre_stack,
                            pre_ip,
                            BinOp::Less,
                        ));
                    }
                    if let Err(e) = self.binary_op(BinOp::Less) {
                        return Err(e);
                    }
                },
                Op::LessEqual => {
                    proof {
                        if pre_stack.len() < 2 {
                            assert(spec_run(
                                self.chunk.code@,
                                self.chunk.values@,
                                pre_stack,
                                pre_ip,
                            ) is Stuck);
                        }
                        assert(spec_run(self.chunk.code@, self.chunk.values@, pre_stack, pre_ip)
                            == spec_run_binary(
                            self.chunk.code@,
                            self.chunk.values@,
                            pre_stack,
                            pre_ip,
                            BinOp::LessEqual,
                        ));
                    }
                    if let Err(e) = self.binary_op(BinOp::LessEqual) {
                        return Err(e);
                    }
                },
                Op::Return => {
                    proof {
                        if pre_stack.len() == 0 {
                            assert(spec_run(
                                self.chunk.code@,
                                self.chunk.values@,
                                pre_stack,
                                pre_ip,
                            ) is Stuck);
                        }
                    }
                    let result = self.stack.pop().unwrap();
                    proof {
                        assert(target == RunOutcome::Done {
                            result: pre_stack.last(),
                            rest: pre_stack.drop_last(),
                        });
                    }
                    return Ok(result);
                },
            }
        }
    }
}

impl VM {
    /// Compiles the source and, when compilation succeeds, executes the
    /// resulting chunk from a fresh state. A compile failure returns the
    /// compile error without executing anything; a runtime fault returns
    /// the runtime error with its diagnostic recorded. On success the
    /// result is exactly what the machine semantics assigns to the
    /// compiled chunk, and the operand stack ends empty.
    pub fn interpret(&mut self, source: &[u8]) -> (r: Result<Value, LoxError>)
        ensures
            crate::compiler::spec_valid_source(source@) ==> !(r == Err::<Value, LoxError>(
                LoxError::CompileError,
            )),
            forall|fuel: nat|
                (#[trigger] spec_expr(source@, spec_scan(source@, 0, 0), 1, 0, fuel)) matches Some(
                    em,
                ) ==> (em.next.kind == TokenType::Eof ==> (!(r == Err::<Value, LoxError>(
                    LoxError::CompileError,
                )) && final(self).chunk.code@ == em.code.push(Op::Return)
                    && final(self).chunk.values@ == em.consts)),
            match r {
                Ok(value) => {
                    &&& final(self).chunk.wf_exec()
                    &&& spec_run(
                        final(self).chunk.code@,
                        final(self).chunk.values@,
                        Seq::empty(),
                        0,
                    ) == (RunOutcome::Done { result: value, rest: Seq::empty() })
                    &&& final(self).stack@.len() == 0
                    &&& final(self).compile_diagnostics@.len() == 0
                    &&& final(self).runtime_diagnostic is None
                },
                Err(LoxError::CompileError) => {
                    &&& final(self).compile_diagnostics@.len() > 0
                    &&& final(self).chunk == old(self).chunk
                    &&& final(self).stack == old(self).stack
                    &&& final(self).ip == old(self).ip
                    &&& final(self).runtime_diagnostic is None
                },
                Err(LoxError::RuntimeError) => {
                    &&& final(self).chunk.wf_exec()
                    &&& final(self).compile_diagnostics@.len() == 0
                    &&& match spec_run(
                        final(self).chunk.code@,
                        final(self).chunk.values@,
                        Seq::empty(),
                        0,
                    ) {
                        RunOutcome::Fault { at, message, stack } => {
                            &&& final(self).runtime_diagnostic == Some(
                                RuntimeDiagnostic {
                                    line: spec_fault_line(final(self).chunk, at),
                                    message,
                                },
                            )
                            &&& final(self).stack@ == stack
                        },
                        _ => false,
                    }
                },
            },
    {
        let mut chunk = Chunk::new();
        let (success, diagnostics) = compile(&mut chunk, source);
        self.compile_diagnostics = diagnostics;
        self.runtime_diagnostic = None;
        if !success {
            return Err(LoxError::CompileError);
        }
        self.chunk = chunk;
        self.ip = 0;
        self.stack = Vec::new();
        self.runtime_diagnostic = None;
        proof {
            assert(self.stack@ =~= Seq::<Value>::empty());
            lemma_exec_from_wf(self.chunk.code@, self.chunk.values@, Seq::empty(), 0);
        }
        let result = self.run();
        proof {
            match spec_run(self.chunk.code@, self.chunk.values@, Seq::<Value>::empty(), 0) {
                RunOutcome::Done { result: final_value, rest } => {
                    assert(rest =~= Seq::<Value>::empty());
                },
                _ => {},
            }
        }
        result
    }
}

/// Ordering comparisons never coerce: applied to any operand pair in
/// which either side is not a number, the machine yields the runtime
/// type fault, not a value.
pub proof fn lemma_comparison_needs_numbers(stack: Seq<Value>, binop: BinOp)
    requires
        stack.len() >= 2,
        !(stack.last() matches Value::Number(_)) || !(stack[stack.len() - 2] matches Value::Number(
            _,
        )),
    ensures
        spec_binary_result(stack, binop) == Err::<Seq<Value>, RuntimeMessage>(
            RuntimeMessage::OperandsMustBeNumbers,
        ),
{
}

/// Executing a well-formed chunk body never gets stuck: from any position
/// whose remaining body is stack-safe and reaches the trailing return
/// with exactly one value, the machine either finishes with an empty
/// stack or stops at a runtime type fault.
pub proof fn lemma_exec_from_wf(code: Seq<Op>, consts: Seq<Value>, stack: Seq<Value>, ip: nat)
    requires
        code.len() > 0,
        code.last() == Op::Return,
        ip < code.len(),
        code_consts_ok(code, consts.len()),
        stack_out(code.subrange(ip as int, code.len() - 1), stack.len() as nat) == Some(1nat),
    ensures
        !(spec_run(code, consts, stack, ip) is Stuck),
        spec_run(code, consts, stack, ip) matches RunOutcome::Done { result, rest } ==> rest.len()
            == 0,
    decreases code.len() - ip, 1int,
{
    let seg = code.subrange(ip as int, code.len() - 1);
    if ip == code.len() - 1 {
        assert(seg =~= Seq::<Op>::empty());
        assert(stack.len() == 1);
        assert(code[ip as int] == code.last());
    } else {
        let op = code[ip as int];
        assert(seg.first() == op);
        assert(seg.drop_first() =~= code.subrange(ip as int + 1, code.len() - 1));
        assert(!(op matches Op::Return) && stack.len() >= op_pops(op)) by {
            if op matches Op::Return || stack.len() < op_pops(op) {
                assert(stack_out(seg, stack.len() as nat) is None);
            }
        }
        let h2 = (stack.len() - op_pops(op) + op_pushes(op)) as nat;
        assert(stack_out(seg.drop_first(), h2) == Some(1nat));
        match op {
            Op::Constant(index) => {
                assert(index < consts.len());
                lemma_exec_from_wf(code, consts, stack.push(consts[index as int]), ip + 1);
            },
            Op::False => {
                lemma_exec_from_wf(code, consts, stack.push(Value::Boolean(false)), ip + 1);
            },
            Op::True => {
                lemma_exec_from_wf(code, consts, stack.push(Value::Boolean(true)), ip + 1);
            },
            Op::Nil => {
                lemma_exec_from_wf(code, consts, stack.push(Value::Nil), ip + 1);
            },
            Op::Not => {
                lemma_exec_from_wf(
                    code,
                    consts,
                    stack.drop_last().push(Value::Boolean(stack.last().spec_is_falsey())),
                    ip + 1,
                );
            },
            Op::Negate => {
                match stack.last() {
                    Value::Number(b) => {
                        lemma_exec_from_wf(
                            code,
                            consts,
                            stack.drop_last().push(Value::Number(ieee_neg(b))),
                            ip + 1,
                        );
                    },
                    _ => {},
                }
            },
            Op::Equal => {
                lemma_exec_from_wf(
                    code,
                    consts,
                    stack.drop_last().drop_last().push(
                        Value::Boolean(stack[stack.len() - 2] == stack.last()),
                    ),
                    ip + 1,
                );
            },
            Op::NotEqual => {
                lemma_exec_from_wf(
                    code,
                    consts,
                    stack.drop_last().drop_last().push(
                        Value::Boolean(stack[stack.len() - 2] != stack.last()),
                    ),
                    ip + 1,
                );
            },
            Op::Add | Op::Subtract | Op::Multiply | Op::Divide | Op::Greater | Op::GreaterEqual
            | Op::Less | Op::LessEqual => {
                lemma_exec_binary_from_wf(code, consts, stack, ip);
            },
            Op::Return => {},
        }
    }
}

/// The binary-operator arms of the well-formedness argument.
proof fn lemma_exec_binary_from_wf(code: Seq<Op>, consts: Seq<Value>, stack: Seq<Value>, ip: nat)
    requires
        code.len() > 0,
        code.last() == Op::Return,
        ip < code.len() - 1,
        code_consts_ok(code, consts.len()),
        stack.len() >= 2,
        (code[ip as int] matches Op::Add || code[ip as int] matches Op::Subtract
            || code[ip as int] matches Op::Multiply || code[ip as int] matches Op::Divide
            || code[ip as int] matches Op::Greater || code[ip as int] matches Op::GreaterEqual
            || code[ip as int] matches Op::Less || code[ip as int] matches Op::LessEqual),
        stack_out(
            code.subrange(ip as int + 1, code.len() - 1),
            (stack.len() - 1) as nat,
        ) == Some(1nat),
    ensures
        !(spec_run(code, consts, stack, ip) is Stuck),
        spec_run(code, consts, stack, ip) matches RunOutcome::Done { result, rest } ==> rest.len()
            == 0,
    decreases code.len() - ip, 0int,
{
    match (stack[stack.len() - 2], stack.last()) {
        (Value::Number(x), Value::Number(y)) => {
            let binop = match code[ip as int] {
                Op::Add => BinOp::Add,
                Op::Subtract => BinOp::Subtract,
                Op::Multiply => BinOp::Multiply,
                Op::Divide => BinOp::Divide,
                Op::Greater => BinOp::Greater,
                Op::GreaterEqual => BinOp::GreaterEqual,
                Op::Less => BinOp::Less,
                _ => BinOp::LessEqual,
            };
            let stack2 = stack.drop_last().drop_last().push(binop_value(binop, x, y));
            assert(stack2.len() == stack.len() - 1);
            lemma_exec_from_wf(code, consts, stack2, ip + 1);
            assert(spec_binary_result(stack, binop) == Ok::<Seq<Value>, RuntimeMessage>(stack2));
            assert(spec_run_binary(code, consts, stack, ip, binop) == spec_run(
                code,
                consts,
                stack2,
                ip + 1,
            ));
            assert(spec_run(code, consts, stack, ip) == spec_run_binary(
                code,
                consts,
                stack,
                ip,
                binop,
            ));
        },
        _ => {
            let binop = match code[ip as int] {
                Op::Add => BinOp::Add,
                Op::Subtract => BinOp::Subtract,
                Op::Multiply => BinOp::Multiply,
                Op::Divide => BinOp::Divide,
                Op::Greater => BinOp::Greater,
                Op::GreaterEqual => BinOp::GreaterEqual,
                Op::Less => BinOp::Less,
                _ => BinOp::LessEqual,
            };
            assert(spec_binary_result(stack, binop) == Err::<Seq<Value>, RuntimeMessage>(
                RuntimeMessage::OperandsMustBeNumbers,
            ));
            assert(spec_run(code, consts, stack, ip) == spec_run_binary(
                code,
                consts,
                stack,
                ip,
                binop,
            ));
            assert(spec_run_binary(code, consts, stack, ip, binop) == RunOutcome::Fault {
                at: ip + 1,
                message: RuntimeMessage::OperandsMustBeNumbers,
                stack: stack.drop_last().drop_last(),
            });
        },
    }
}

} // verus!
