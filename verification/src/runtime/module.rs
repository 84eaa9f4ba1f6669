use vstd::prelude::*;

use crate::wasm::types::{FuncType, WasmModule};

verus! {

/// Native code for one function, with its signature.
#[derive(Debug)]
pub struct CompiledFunction {
    /// Raw x86-64 bytes.
    pub code: Vec<u8>,
    pub func_type: FuncType,
}

/// A module together with the native code of its functions.
#[derive(Debug)]
pub struct CompiledModule {
    /// The module (kept for linking).
    pub wasm: WasmModule,
    /// Native code, one entry per module function.
    pub functions: Vec<CompiledFunction>,
    /// Initial linear memory size in pages.
    pub memory_pages: u32,
}

impl CompiledModule {
    /// Bundles a module with its compiled functions; the memory size is
    /// taken from the module.
    pub fn new(wasm: WasmModule, functions: Vec<CompiledFunction>) -> (m: Self)
        ensures
            m.wasm == wasm,
            m.functions == functions,
            m.memory_pages == wasm.memory_pages,
    {
        let memory_pages = wasm.memory_pages;
        Self { wasm, functions, memory_pages }
    }
}

} // verus!
