pub mod error;
pub mod span;
pub mod text;
pub mod field;
pub mod ast;
pub mod hir;
pub mod ir;
pub mod verify;
pub mod backend;
pub mod eval;
pub mod trace;
pub mod optimize;
pub mod builtins;
pub mod typecheck;
pub mod lexer;
pub mod parser;
pub mod compiler;
pub mod constraint;
pub mod analysis;
pub mod serialize;
pub mod pretty;
pub mod listing;
pub mod records;
pub mod debug_proof;
pub mod groth16;
pub mod source;
pub mod r1cs;

pub use compiler::{compile_program, compile_source, parse_and_validate};
