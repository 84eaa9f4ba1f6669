use vstd::prelude::*;

use crate::wasm::types::FuncType;

verus! {

/// A host function that compiled code can call.
pub struct HostFunction {
    pub func_type: FuncType,
    /// Address of the native entry point that compiled code calls.
    pub trampoline: usize,
}

} // verus!
