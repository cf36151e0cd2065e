mod chunk;
mod compiler;
mod debug;
mod number;
mod scanner;
mod value;
mod vm;

pub use chunk::Chunk;
pub use chunk::Op;
pub use compiler::CompileDiagnostic;
pub use compiler::CompileMessage;
pub use compiler::DiagnosticContext;
pub use compiler::ParseRule;
pub use compiler::Precedence;
pub use compiler::Parser;
pub use compiler::compile;
pub use debug::DisasmLine;
pub use debug::disasemble_chunk;
pub use debug::disassemble_instr;
pub use vm::BinOp;
pub use vm::LoxError;
pub use vm::RuntimeDiagnostic;
pub use vm::RuntimeMessage;
pub use vm::VM;
pub use scanner::LexError;
pub use scanner::Scanner;
pub use scanner::Token;
pub use scanner::TokenType;
pub use value::Value;
