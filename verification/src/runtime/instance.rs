use vstd::prelude::*;

use crate::runtime::imports::{Extern, Imports};
use crate::runtime::module::CompiledFunction;
use crate::wasm::types::{FuncType, WasmImport, WasmModule};

verus! {

/// Why a module cannot be linked against the host's imports.
#[derive(Debug)]
pub enum LinkError {
    /// No host definition for `module.name`.
    UnresolvedImport(String, String),
    /// `module.name` is defined, but not as a function.
    ExpectedFunction(String, String),
}

/// The key under which an import is looked up.
pub open spec fn import_key(imp: WasmImport) -> (Seq<char>, Seq<char>) {
    (imp.module@, imp.name@)
}

/// The import resolves to a host function.
pub open spec fn resolves_to_function(defs: Map<(Seq<char>, Seq<char>), Extern>, imp: WasmImport) -> bool {
    defs.contains_key(import_key(imp)) && defs[import_key(imp)] is Function
}

/// The entry address of the host function that an import resolves to.
pub open spec fn trampoline_of(defs: Map<(Seq<char>, Seq<char>), Extern>, imp: WasmImport) -> usize {
    defs[import_key(imp)]->Function_0.trampoline
}

/// The error that names import `imp` as failing to resolve.
pub open spec fn link_error_for(defs: Map<(Seq<char>, Seq<char>), Extern>, imp: WasmImport, e: LinkError) -> bool {
    if !defs.contains_key(import_key(imp)) {
        e matches LinkError::UnresolvedImport(m, n) && m@ == imp.module@ && n@ == imp.name@
    } else {
        e matches LinkError::ExpectedFunction(m, n) && m@ == imp.module@ && n@ == imp.name@
    }
}

/// Resolves every import of the module to the entry address of a host
/// function, in import order; fails on the first import that has no
/// definition or whose definition is not a function.
pub fn resolve_import_pointers(module: &WasmModule, imports: &Imports) -> (r: Result<Vec<usize>, LinkError>)
    requires
        imports.wf(),
    ensures
        match r {
            Ok(ptrs) => {
                &&& ptrs@.len() == module.imports@.len()
                &&& forall|i: int|
                    0 <= i < ptrs@.len() ==> resolves_to_function(imports.map(), #[trigger] module.imports@[i])
                        && ptrs@[i] == trampoline_of(imports.map(), module.imports@[i])
            },
            Err(e) => exists|k: int|
                0 <= k < module.imports@.len() && (forall|i: int|
                    0 <= i < k ==> resolves_to_function(imports.map(), #[trigger] module.imports@[i]))
                    && !resolves_to_function(imports.map(), module.imports@[k]) && link_error_for(
                    imports.map(),
                    module.imports@[k],
                    e,
                ),
        },
{
    let mut ptrs: Vec<usize> = Vec::new();
    let mut i: usize = 0;
    while i < module.imports.len()
        invariant
            imports.wf(),
            0 <= i <= module.imports@.len(),
            ptrs@.len() == i,
            forall|j: int|
                0 <= j < i ==> resolves_to_function(imports.map(), #[trigger] module.imports@[j])
                    && ptrs@[j] == trampoline_of(imports.map(), module.imports@[j]),
        decreases module.imports@.len() - i,
    {
        let imp = &module.imports[i];
        match imports.resolve(imp.module.as_str(), imp.name.as_str()) {
            Some(Extern::Function(host_fn)) => {
                ptrs.push(host_fn.trampoline);
            },
            Some(_) => {
                let e = LinkError::ExpectedFunction(imp.module.clone(), imp.name.clone());
                assert(link_error_for(imports.map(), module.imports@[i as int], e));
                return Err(e);
            },
            None => {
                let e = LinkError::UnresolvedImport(imp.module.clone(), imp.name.clone());
                assert(link_error_for(imports.map(), module.imports@[i as int], e));
                return Err(e);
            },
        }
        i = i + 1;
    }
    Ok(ptrs)
}

/// The native code of all functions, laid out one after another.
pub open spec fn code_concat(fs: Seq<CompiledFunction>) -> Seq<u8>
    decreases fs.len(),
{
    if fs.len() == 0 {
        Seq::empty()
    } else {
        code_concat(fs.drop_last()) + fs.last().code@
    }
}

/// Lays the native code of all functions out one after another, and
/// gives the offset at which each function's code starts.
pub fn layout_code(functions: &Vec<CompiledFunction>) -> (r: (Vec<u8>, Vec<usize>))
    ensures
        r.0@ == code_concat(functions@),
        r.1@.len() == functions@.len(),
        forall|i: int|
            0 <= i < functions@.len() ==> #[trigger] r.1@[i] == code_concat(functions@.subrange(0, i)).len(),
{
    let mut code: Vec<u8> = Vec::new();
    let mut offsets: Vec<usize> = Vec::new();
    let mut i: usize = 0;
    while i < functions.len()
        invariant
            0 <= i <= functions@.len(),
            code@ == code_concat(functions@.subrange(0, i as int)),
            offsets@.len() == i,
            forall|j: int| 0 <= j < i ==> #[trigger] offsets@[j] == code_concat(functions@.subrange(0, j)).len(),
        decreases functions@.len() - i,
    {
        let f = &functions[i];
        offsets.push(code.len());
        let mut k: usize = 0;
        let ghost start = code@;
        while k < f.code.len()
            invariant
                0 <= k <= f.code@.len(),
                code@ == start + f.code@.subrange(0, k as int),
            decreases f.code@.len() - k,
        {
            code.push(f.code[k]);
            k = k + 1;
            assert(code@ =~= start + f.code@.subrange(0, k as int));
        }
        assert(f.code@.subrange(0, f.code@.len() as int) =~= f.code@);
        assert(functions@.subrange(0, i + 1).drop_last() =~= functions@.subrange(0, i as int));
        i = i + 1;
    }
    assert(functions@.subrange(0, functions@.len() as int) =~= functions@);
    (code, offsets)
}

proof fn lemma_code_concat_append(a: Seq<CompiledFunction>, b: Seq<CompiledFunction>)
    ensures
        code_concat(a + b) == code_concat(a) + code_concat(b),
    decreases b.len(),
{
    if b.len() == 0 {
        assert(a + b =~= a);
        assert(code_concat(a) + Seq::<u8>::empty() =~= code_concat(a));
    } else {
        lemma_code_concat_append(a, b.drop_last());
        assert((a + b).drop_last() =~= a + b.drop_last());
        assert((a + b).last() == b.last());
        assert(code_concat(a) + code_concat(b.drop_last()) + b.last().code@ =~= code_concat(a) + (code_concat(
            b.drop_last(),
        ) + b.last().code@));
    }
}

/// Each function's code stands, whole, in the laid-out code at the offset
/// where its entry is placed (the length of the code before it).
pub proof fn law_code_at_entry(fs: Seq<CompiledFunction>, i: int)
    requires
        0 <= i < fs.len(),
    ensures
        ({
            let start = code_concat(fs.subrange(0, i)).len() as int;
            &&& start + fs[i].code@.len() <= code_concat(fs).len()
            &&& code_concat(fs).subrange(start, start + fs[i].code@.len()) == fs[i].code@
        }),
{
    let before = fs.subrange(0, i);
    let after = fs.subrange(i + 1, fs.len() as int);
    assert(fs =~= (before + seq![fs[i]]) + after);
    lemma_code_concat_append(before + seq![fs[i]], after);
    lemma_code_concat_append(before, seq![fs[i]]);
    let single = seq![fs[i]];
    assert(single.drop_last() =~= Seq::<CompiledFunction>::empty());
    assert(code_concat(single.drop_last()) == Seq::<u8>::empty());
    assert(single.last() == fs[i]);
    assert(Seq::<u8>::empty() + fs[i].code@ =~= fs[i].code@);
    assert(code_concat(single) =~= fs[i].code@);
    let start = code_concat(before).len() as int;
    let whole = code_concat(before) + fs[i].code@ + code_concat(after);
    assert(whole.subrange(start, start + fs[i].code@.len()) =~= fs[i].code@);
}

/// A call supplied a different number of arguments than the callee takes.
#[derive(Debug, Clone, Copy, PartialEq, Eq, Structural)]
pub struct ArityMismatch {
    pub expected: usize,
    pub got: usize,
}

/// Checks, before jumping into compiled code, that a call passes as many
/// arguments as the callee has parameters.
pub fn check_arity(func_type: &FuncType, args: &[i64]) -> (r: Result<(), ArityMismatch>)
    ensures
        r is Ok <==> args@.len() == func_type.params@.len(),
        r matches Err(e) ==> e.expected == func_type.params@.len() && e.got == args@.len(),
{
    if args.len() != func_type.params.len() {
        Err(ArityMismatch { expected: func_type.params.len(), got: args.len() })
    } else {
        Ok(())
    }
}

/// Position, among the module's own functions, of the function exported
/// as `name` (the first export of that name), if that export names one
/// of them (function indices count the imports first).
pub fn find_export(module: &WasmModule, name: &str) -> (r: Option<usize>)
    ensures
        match r {
            Some(i) => exists|k: int|
                0 <= k < module.exports@.len() && module.exports@[k].name@ == name@
                    && (forall|j: int| 0 <= j < k ==> (#[trigger] module.exports@[j]).name@ != name@)
                    && module.exports@[k].func_index == module.imports@.len() + i
                    && i < module.functions@.len(),
            None => forall|k: int|
                0 <= k < module.exports@.len() && (#[trigger] module.exports@[k]).name@ == name@ ==> (
                forall|j: int| 0 <= j < k ==> (#[trigger] module.exports@[j]).name@ != name@) ==> !(
                module.imports@.len() <= module.exports@[k].func_index < module.imports@.len()
                    + module.functions@.len()),
        },
{
    let wanted = name.to_owned();
    let mut k: usize = 0;
    while k < module.exports.len()
        invariant
            0 <= k <= module.exports@.len(),
            wanted@ == name@,
            forall|j: int| 0 <= j < k ==> (#[trigger] module.exports@[j]).name@ != name@,
        decreases module.exports@.len() - k,
    {
        let e = &module.exports[k];
        if e.name == wanted {
            let n_imports = module.imports.len();
            let n_functions = module.functions.len();
            if e.func_index as usize >= n_imports && (e.func_index as usize - n_imports) < n_functions {
                return Some(e.func_index as usize - n_imports);
            } else {
                return None;
            }
        }
        k = k + 1;
    }
    None
}

} // verus!
