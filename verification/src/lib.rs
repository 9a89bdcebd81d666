//! A compiler for a small subset of SysY: lexing and parsing, constant
//! folding, generation of an IR shaped after Koopa IR, and RISC-V code
//! generation; with the run-time meaning of source and IR, and the laws that
//! relate them.
use vstd::prelude::*;

pub mod ir;
pub mod symtable;
pub mod error;
pub mod ast;
pub mod irgen;
pub mod riscv;
pub mod registers;
pub mod text_laws;
pub mod koopa_text;
pub mod basic_riscv;
pub mod laws;
pub mod semantics;
pub mod execution;
pub mod machine;
pub mod pipeline;
pub mod lexer;
pub mod lexer_laws;
pub mod parser;
pub mod recognizer;
pub mod readback;

verus! {
} // verus!
