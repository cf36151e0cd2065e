use vstd::prelude::*;

use crate::value::Value;

verus! {

/// One bytecode instruction. A closed set of tagged variants; `Constant`
/// carries an index into the owning chunk's constant pool and no operand
/// ever references anything outside that pool.
#[derive(Clone, Copy, PartialEq, Eq, Structural, Debug)]
pub enum Op {
    Constant(usize),
    Negate,
    Add,
    Subtract,
    Multiply,
    Divide,
    Return,
    False,
    True,
    Nil,
    Not,
    Equal,
    NotEqual,
    Greater,
    GreaterEqual,
    Less,
    LessEqual,
}

/// The compiled-bytecode container for one compilation unit: the linear
/// instruction stream, the append-only constant pool, and a run-length
/// compressed source-line index.
///
/// Each `lines` entry `(line, count)` says that the next `count`
/// instructions, in emission order, originated from source line `line`.
/// Lines are capped at 65,535 (`u16`) and a single run at 255 (`u8`);
/// a longer burst of instructions on one line simply starts another run
/// with the same line, which the lookup handles transparently.
pub struct Chunk {
    pub code: Vec<Op>,
    pub values: Vec<Value>,
    pub lines: Vec<(u16, u8)>,
}

/// The per-instruction line table that a run-length pair sequence encodes:
/// each pair `(line, count)` contributes `count` copies of `line`.
pub open spec fn expand_lines(pairs: Seq<(u16, u8)>) -> Seq<u16>
    decreases pairs.len(),
{
    if pairs.len() == 0 {
        Seq::empty()
    } else {
        Seq::new(pairs.first().1 as nat, |i: int| pairs.first().0) + expand_lines(
            pairs.drop_first(),
        )
    }
}

impl Chunk {
    /// The source line of each instruction, by instruction offset.
    pub open spec fn line_seq(&self) -> Seq<u16> {
        expand_lines(self.lines@)
    }

    /// The line of the most recent run, or 0 for an empty index; new
    /// instructions may only be recorded at this line or a later one.
    pub open spec fn last_line(&self) -> u16 {
        if self.lines@.len() == 0 {
            0u16
        } else {
            self.lines@.last().0
        }
    }

    /// The line index's own shape: every run is non-empty and runs appear
    /// in non-decreasing source-line order.
    pub open spec fn runs_wf(&self) -> bool {
        &&& forall|i: int| 0 <= i < self.lines@.len() ==> (#[trigger] self.lines@[i]).1 >= 1
        &&& forall|i: int, j: int|
            0 <= i <= j < self.lines@.len() ==> (#[trigger] self.lines@[i]).0 <= (
            #[trigger] self.lines@[j]).0
    }

    /// Well-formedness: the line index has a well-shaped run list that
    /// covers exactly the instruction stream.
    pub open spec fn wf(&self) -> bool {
        &&& self.line_seq().len() == self.code@.len()
        &&& self.runs_wf()
    }

    pub fn new() -> (r: Self)
        ensures
            r.wf(),
            r.code@ =~= Seq::<Op>::empty(),
            r.values@ =~= Seq::<Value>::empty(),
            r.lines@ =~= Seq::<(u16, u8)>::empty(),
    {
        Self { code: Vec::new(), values: Vec::new(), lines: Vec::new() }
    }

    /// Appends one instruction and records that it originated from `line`.
    pub fn add_operator(&mut self, operator: Op, line: u16)
        requires
            old(self).wf(),
            line >= old(self).last_line(),
        ensures
            final(self).wf(),
            final(self).code@ == old(self).code@.push(operator),
            final(self).values@ == old(self).values@,
            final(self).line_seq() == old(self).line_seq().push(line),
            final(self).last_line() == line,
    {
        self.update_lines(line);
        self.code.push(operator);
    }

    /// Appends a value to the constant pool and returns its index, which
    /// stays stable for the chunk's lifetime. The pool itself carries no
    /// line information: the load instruction that references the constant
    /// records its own line.
    pub fn add_constant(&mut self, value: Value, _line: u16) -> (index: usize)
        requires
            old(self).wf(),
        ensures
            final(self).wf(),
            final(self).values@ == old(self).values@.push(value),
            final(self).code@ == old(self).code@,
            final(self).lines@ == old(self).lines@,
            index == old(self).values@.len(),
    {
        self.values.push(value);
        self.values.len() - 1
    }

    /// Extends the line index by one instruction at `line`: the last run
    /// grows when it is for the same line and has room, otherwise a new
    /// run starts.
    fn update_lines(&mut self, line: u16)
        requires
            old(self).wf(),
            line >= old(self).last_line(),
        ensures
            final(self).runs_wf(),
            final(self).code@ == old(self).code@,
            final(self).values@ == old(self).values@,
            final(self).line_seq() == old(self).line_seq().push(line),
            final(self).last_line() == line,
    {
        let n = self.lines.len();
        if n == 0 {
            self.lines.push((line, 1));
            proof {
                lemma_expand_push(old(self).lines@, line);
            }
        } else {
            let (highest_line, ops) = self.lines[n - 1];
            if line == highest_line && ops < 255 {
                self.lines[n - 1] = (highest_line, ops + 1);
                proof {
                    lemma_expand_bump(old(self).lines@);
                }
            } else {
                self.lines.push((line, 1));
                proof {
                    lemma_expand_push(old(self).lines@, line);
                }
            }
        }
    }

    /// Resolves an instruction offset to the source line it was recorded
    /// at, by walking the run lengths; an offset beyond the instruction
    /// stream resolves to 0.
    pub fn get_line(&self, offset: usize) -> (r: u16)
        requires
            self.wf(),
        ensures
            offset < self.code@.len() ==> r == self.line_seq()[offset as int],
            offset >= self.code@.len() ==> r == 0,
    {
        let mut offset_copy = offset;
        let mut i: usize = 0;
        proof {
            assert(self.lines@.skip(0) =~= self.lines@);
        }
        while i < self.lines.len()
            invariant
                self.wf(),
                i <= self.lines@.len(),
                offset_copy <= offset,
                offset < self.code@.len() ==> {
                    &&& offset_copy < expand_lines(self.lines@.skip(i as int)).len()
                    &&& expand_lines(self.lines@.skip(i as int))[offset_copy as int]
                        == self.line_seq()[offset as int]
                },
                offset >= self.code@.len() ==> offset_copy >= expand_lines(
                    self.lines@.skip(i as int),
                ).len(),
            decreases self.lines@.len() - i,
        {
            let (line, ops) = self.lines[i];
            proof {
                assert(self.lines@.skip(i as int).first() == self.lines@[i as int]);
                assert(self.lines@.skip(i as int).drop_first() =~= self.lines@.skip(i as int + 1));
            }
            if offset_copy < ops as usize {
                proof {
                    if offset >= self.code@.len() {
                        assert(expand_lines(self.lines@.skip(i as int)).len() >= ops as nat);
                    }
                }
                return line;
            }
            offset_copy -= ops as usize;
            i += 1;
        }
        proof {
            if offset < self.code@.len() {
                assert(self.lines@.skip(self.lines@.len() as int) =~= Seq::<(u16, u8)>::empty());
            }
        }
        0
    }
}

/// How many operands an instruction consumes from the operand stack.
pub open spec fn op_pops(op: Op) -> nat {
    match op {
        Op::Constant(_) | Op::False | Op::True | Op::Nil => 0,
        Op::Negate | Op::Not | Op::Return => 1,
        Op::Add | Op::Subtract | Op::Multiply | Op::Divide | Op::Equal | Op::NotEqual
        | Op::Greater | Op::GreaterEqual | Op::Less | Op::LessEqual => 2,
    }
}

/// How many results an instruction pushes onto the operand stack.
pub open spec fn op_pushes(op: Op) -> nat {
    match op {
        Op::Return => 0,
        _ => 1,
    }
}

/// The operand-stack height after executing a straight-line instruction
/// sequence that starts at height `h`: `None` when some instruction would
/// underflow the stack, or when a return instruction appears inside the
/// sequence.
pub open spec fn stack_out(ops: Seq<Op>, h: nat) -> Option<nat>
    decreases ops.len(),
{
    if ops.len() == 0 {
        Some(h)
    } else if (ops.first() matches Op::Return) {
        None
    } else if h >= op_pops(ops.first()) {
        stack_out(ops.drop_first(), (h - op_pops(ops.first()) + op_pushes(ops.first())) as nat)
    } else {
        None
    }
}

/// Every load-constant instruction's operand stays inside a constant pool
/// of `n_consts` entries.
pub open spec fn code_consts_ok(code: Seq<Op>, n_consts: nat) -> bool {
    forall|i: int|
        0 <= i < code.len() ==> match #[trigger] code[i] {
            Op::Constant(k) => k < n_consts,
            _ => true,
        }
}

impl Chunk {
    /// A chunk the virtual machine can execute without violating its
    /// stack discipline: a balanced instruction body that leaves exactly
    /// one result, a trailing return instruction, and in-bounds constant
    /// references. The compiler establishes this for every chunk it
    /// emits without reporting an error.
    pub open spec fn wf_exec(&self) -> bool {
        &&& self.wf()
        &&& self.code@.len() > 0
        &&& self.code@.last() == Op::Return
        &&& stack_out(self.code@.subrange(0, self.code@.len() - 1), 0) == Some(1nat)
        &&& code_consts_ok(self.code@, self.values@.len())
    }
}

/// Stack effects compose: running `a ++ b` from height `h` is running `b`
/// from whatever height `a` reaches.
pub proof fn lemma_stack_out_append(a: Seq<Op>, b: Seq<Op>, h: nat, h2: nat)
    requires
        stack_out(a, h) == Some(h2),
    ensures
        stack_out(a + b, h) == stack_out(b, h2),
    decreases a.len(),
{
    if a.len() == 0 {
        assert(a + b =~= b);
    } else {
        assert((a + b).first() == a.first());
        assert((a + b).drop_first() =~= a.drop_first() + b);
        lemma_stack_out_append(
            a.drop_first(),
            b,
            (h - op_pops(a.first()) + op_pushes(a.first())) as nat,
            h2,
        );
    }
}

/// A sequence that is safe from height `h` is safe from any greater
/// height, and the extra depth is carried through untouched.
pub proof fn lemma_stack_out_shift(ops: Seq<Op>, h: nat, h2: nat, d: nat)
    requires
        stack_out(ops, h) == Some(h2),
    ensures
        stack_out(ops, (h + d) as nat) == Some((h2 + d) as nat),
    decreases ops.len(),
{
    if ops.len() > 0 {
        lemma_stack_out_shift(
            ops.drop_first(),
            (h - op_pops(ops.first()) + op_pushes(ops.first())) as nat,
            h2,
            d,
        );
    }
}

/// The stack effect of a single non-return instruction.
pub proof fn lemma_stack_out_one(op: Op, h: nat)
    requires
        !(op matches Op::Return),
        h >= op_pops(op),
    ensures
        stack_out(seq![op], h) == Some((h - op_pops(op) + op_pushes(op)) as nat),
{
    let h2 = (h - op_pops(op) + op_pushes(op)) as nat;
    assert(seq![op].len() == 1);
    assert(seq![op].first() == op);
    assert(seq![op].drop_first() =~= Seq::<Op>::empty());
    assert(stack_out(Seq::<Op>::empty(), h2) == Some(h2));
    assert(stack_out(seq![op], h) == stack_out(seq![op].drop_first(), h2));
}

/// Appending a fresh run `(line, 1)` appends exactly one `line` entry to
/// the expanded per-instruction table.
proof fn lemma_expand_push(pairs: Seq<(u16, u8)>, line: u16)
    ensures
        expand_lines(pairs.push((line, 1u8))) =~= expand_lines(pairs).push(line),
    decreases pairs.len(),
{
    let pushed = pairs.push((line, 1u8));
    if pairs.len() == 0 {
        assert(pushed.drop_first() =~= Seq::<(u16, u8)>::empty());
        assert(expand_lines(pushed) == Seq::new(1, |i: int| line) + expand_lines(
            Seq::<(u16, u8)>::empty(),
        ));
        assert(expand_lines(pushed).len() == 1);
        assert(expand_lines(pushed)[0] == line);
    } else {
        assert(pushed.first() == pairs.first());
        assert(pushed.drop_first() =~= pairs.drop_first().push((line, 1u8)));
        lemma_expand_push(pairs.drop_first(), line);
        assert(expand_lines(pushed) == Seq::new(pairs.first().1 as nat, |i: int| pairs.first().0)
            + expand_lines(pairs.drop_first().push((line, 1u8))));
    }
}

/// Growing the last run by one appends exactly one copy of that run's
/// line to the expanded per-instruction table.
proof fn lemma_expand_bump(pairs: Seq<(u16, u8)>)
    requires
        pairs.len() > 0,
        pairs.last().1 < 255,
    ensures
        expand_lines(
            pairs.update(pairs.len() - 1, (pairs.last().0, (pairs.last().1 + 1) as u8)),
        ) =~= expand_lines(pairs).push(pairs.last().0),
    decreases pairs.len(),
{
    let bumped = pairs.update(pairs.len() - 1, (pairs.last().0, (pairs.last().1 + 1) as u8));
    if pairs.len() == 1 {
        assert(bumped.drop_first() =~= Seq::<(u16, u8)>::empty());
        assert(pairs.drop_first() =~= Seq::<(u16, u8)>::empty());
        assert(bumped.first() == (pairs.last().0, (pairs.last().1 + 1) as u8));
        assert(expand_lines(bumped) == Seq::new(
            (pairs.last().1 + 1) as nat,
            |i: int| pairs.last().0,
        ) + expand_lines(Seq::<(u16, u8)>::empty()));
        assert(expand_lines(pairs) == Seq::new(pairs.last().1 as nat, |i: int| pairs.last().0)
            + expand_lines(Seq::<(u16, u8)>::empty()));
    } else {
        assert(bumped.first() == pairs.first());
        assert(bumped.drop_first() =~= pairs.drop_first().update(
            pairs.drop_first().len() - 1,
            (pairs.last().0, (pairs.last().1 + 1) as u8),
        ));
        assert(pairs.last() == pairs.drop_first().last());
        lemma_expand_bump(pairs.drop_first());
        assert(expand_lines(bumped) == Seq::new(pairs.first().1 as nat, |i: int| pairs.first().0)
            + expand_lines(bumped.drop_first()));
    }
}

} // verus!
