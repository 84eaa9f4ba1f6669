pub mod ast;
pub mod emit_indices;
pub mod emit_wasm;
pub mod lexer;
pub mod parser;
pub mod spelling;
pub mod unparse;
pub mod unparse_program;
