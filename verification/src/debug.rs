use vstd::prelude::*;

use crate::chunk::Chunk;
use crate::chunk::Op;
use crate::chunk::code_consts_ok;

use crate::value::Value;

verus! {

broadcast use vstd::std_specs::vec::group_vec_axioms;

/// One disassembled instruction, ready for a listing: its offset, the
/// source line it is attributed to, whether that line merely repeats the
/// previous instruction's (a listing prints an elision marker then), the
/// instruction itself, and — for load-constant — the referenced
/// constant's index (in the instruction) and value.
#[derive(Debug, Copy, Clone, PartialEq, Eq, Structural)]
pub struct DisasmLine {
    pub offset: usize,
    pub line: u16,
    pub line_repeated: bool,
    pub op: Op,
    pub constant: Option<Value>,
}

/// What the disassembly of the instruction at `offset` must show.
pub open spec fn spec_disasm_line(chunk: Chunk, offset: int) -> DisasmLine {
    DisasmLine {
        offset: offset as usize,
        line: chunk.line_seq()[offset],
        line_repeated: offset > 0 && chunk.line_seq()[offset] == chunk.line_seq()[offset - 1],
        op: chunk.code@[offset],
        constant: match chunk.code@[offset] {
            Op::Constant(index) => Some(chunk.values@[index as int]),
            _ => None,
        },
    }
}

/// Disassembles the single instruction at `offset`: pure and read-only.
pub fn disassemble_instr(chunk: &Chunk, offset: usize) -> (r: DisasmLine)
    requires
        chunk.wf(),
        code_consts_ok(chunk.code@, chunk.values@.len()),
        offset < chunk.code@.len(),
    ensures
        r == spec_disasm_line(*chunk, offset as int),
{
    let line = chunk.get_line(offset);
    let line_repeated: bool = if offset > 0 {
        line == chunk.get_line(offset - 1)
    } else {
        false
    };
    let op = chunk.code[offset];
    let constant = match op {
        Op::Constant(index) => Some(chunk.values[index]),
        _ => None,
    };
    DisasmLine { offset, line, line_repeated, op, constant }
}

/// Disassembles a whole chunk, one entry per instruction, in order.
/// Purely diagnostic: reads the chunk and changes nothing.
pub fn disasemble_chunk(chunk: &Chunk) -> (r: Vec<DisasmLine>)
    requires
        chunk.wf(),
        code_consts_ok(chunk.code@, chunk.values@.len()),
    ensures
        r@.len() == chunk.code@.len(),
        forall|i: int| 0 <= i < r@.len() ==> #[trigger] r@[i] == spec_disasm_line(*chunk, i),
{
    let mut lines: Vec<DisasmLine> = Vec::new();
    let mut offset: usize = 0;
    while offset < chunk.code.len()
        invariant
            chunk.wf(),
            code_consts_ok(chunk.code@, chunk.values@.len()),
            offset <= chunk.code@.len(),
            lines@.len() == offset,
            forall|i: int| 0 <= i < offset ==> #[trigger] lines@[i] == spec_disasm_line(*chunk, i),
        decreases chunk.code@.len() - offset,
    {
        let entry = disassemble_instr(chunk, offset);
        lines.push(entry);
        offset += 1;
    }
    lines
}

} // verus!
