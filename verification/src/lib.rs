//! A small C compiler that lowers C source to a WebAssembly-style module,
//! plus a single-pass x86-64 code generator and the runtime bookkeeping
//! (linear memory, import resolution) that a JIT needs.

pub mod backend;
pub mod c_compiler;
pub mod runtime;
pub mod wasm;
