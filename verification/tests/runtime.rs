use wasm_jit::runtime::function::HostFunction;
use wasm_jit::runtime::imports::{Extern, Imports};
use wasm_jit::runtime::instance::{check_arity, find_export, layout_code, resolve_import_pointers, LinkError};
use wasm_jit::runtime::memory::{Memory, PAGE_SIZE};
use wasm_jit::runtime::module::{CompiledFunction, CompiledModule};
use wasm_jit::wasm::types::{FuncType, ValType, WasmExport, WasmImport, WasmModule};

fn host(addr: usize) -> Extern {
    Extern::Function(HostFunction { func_type: FuncType::new(vec![ValType::I32], vec![]), trampoline: addr })
}

fn trampoline(e: Option<&Extern>) -> Option<usize> {
    match e {
        Some(Extern::Function(f)) => Some(f.trampoline),
        _ => None,
    }
}

#[test]
fn memory_new_is_zeroed() {
    let m = Memory::new(2);
    assert_eq!(m.size_pages(), 2);
    assert_eq!(m.read_bytes(0, 4), &[0, 0, 0, 0]);
    assert_eq!(m.read_bytes(2 * PAGE_SIZE - 1, 1), &[0]);
}

#[test]
fn memory_read_after_write() {
    let mut m = Memory::new(1);
    m.write_bytes(10, &[1, 2, 3]);
    assert_eq!(m.read_bytes(10, 3), &[1, 2, 3]);
    assert_eq!(m.read_bytes(9, 5), &[0, 1, 2, 3, 0]);
    m.write_bytes(11, &[9]);
    assert_eq!(m.read_bytes(10, 3), &[1, 9, 3]);
}

#[test]
fn memory_grow_keeps_contents() {
    let mut m = Memory::new(1);
    m.write_bytes(PAGE_SIZE - 1, &[7]);
    assert_eq!(m.grow(2), Ok(()));
    assert_eq!(m.size_pages(), 3);
    assert_eq!(m.read_bytes(PAGE_SIZE - 1, 2), &[7, 0]);
    assert_eq!(m.read_bytes(3 * PAGE_SIZE - 1, 1), &[0]);
}

#[test]
fn memory_grow_beyond_two_gib_fails() {
    let mut m = Memory::new(1);
    assert!(m.grow(32768).is_err());
    assert_eq!(m.size_pages(), 1);
    assert_eq!(m.read_bytes(0, 1), &[0]);
}

#[test]
fn imports_define_and_resolve() {
    let mut imports = Imports::new();
    assert!(imports.resolve("env", "print_i32").is_none());
    imports.define("env", "print_i32", host(100));
    imports.define("env", "print_str", host(200));
    assert_eq!(trampoline(imports.resolve("env", "print_i32")), Some(100));
    assert_eq!(trampoline(imports.resolve("env", "print_str")), Some(200));
    assert!(imports.resolve("other", "print_i32").is_none());
    imports.define("env", "print_i32", host(300));
    assert_eq!(trampoline(imports.resolve("env", "print_i32")), Some(300));
    assert_eq!(trampoline(imports.resolve("env", "print_str")), Some(200));
}

fn import(module: &str, name: &str) -> WasmImport {
    WasmImport { module: module.to_string(), name: name.to_string(), func_type: FuncType::new(vec![], vec![]) }
}

fn module_with_imports(imports: Vec<WasmImport>) -> WasmModule {
    WasmModule { imports, functions: vec![], exports: vec![], data_sections: vec![], memory_pages: 1 }
}

#[test]
fn link_resolves_in_order() {
    let mut imports = Imports::new();
    imports.define("env", "a", host(1));
    imports.define("env", "b", host(2));
    let module = module_with_imports(vec![import("env", "b"), import("env", "a")]);
    assert_eq!(resolve_import_pointers(&module, &imports).unwrap(), vec![2, 1]);
}

#[test]
fn link_reports_unresolved_import() {
    let mut imports = Imports::new();
    imports.define("env", "a", host(1));
    let module = module_with_imports(vec![import("env", "a"), import("env", "missing")]);
    match resolve_import_pointers(&module, &imports) {
        Err(LinkError::UnresolvedImport(m, n)) => {
            assert_eq!(m, "env");
            assert_eq!(n, "missing");
        },
        other => panic!("unexpected {:?}", other),
    }
}

#[test]
fn link_reports_non_function_import() {
    let mut imports = Imports::new();
    imports.define("env", "mem", Extern::Memory(Memory::new(1)));
    let module = module_with_imports(vec![import("env", "mem")]);
    match resolve_import_pointers(&module, &imports) {
        Err(LinkError::ExpectedFunction(m, n)) => {
            assert_eq!(m, "env");
            assert_eq!(n, "mem");
        },
        other => panic!("unexpected {:?}", other),
    }
}

#[test]
fn code_is_concatenated() {
    let fs = vec![
        CompiledFunction { code: vec![1, 2], func_type: FuncType::new(vec![], vec![]) },
        CompiledFunction { code: vec![], func_type: FuncType::new(vec![], vec![]) },
        CompiledFunction { code: vec![3], func_type: FuncType::new(vec![], vec![]) },
    ];
    let (code, offsets) = layout_code(&fs);
    assert_eq!((code.clone(), offsets.clone()), (vec![1, 2, 3], vec![0, 2, 2]));
    for (f, &start) in fs.iter().zip(offsets.iter()) {
        assert_eq!(&code[start..start + f.code.len()], &f.code[..]);
    }
}

#[test]
fn arity_is_checked() {
    let ty = FuncType::new(vec![ValType::I32, ValType::I32], vec![ValType::I32]);
    assert!(check_arity(&ty, &[1, 2]).is_ok());
    let e = check_arity(&ty, &[1]).unwrap_err();
    assert_eq!(e.expected, 2);
    assert_eq!(e.got, 1);
}

#[test]
fn compiled_module_takes_memory_size() {
    let module = module_with_imports(vec![]);
    let compiled = CompiledModule::new(module, vec![]);
    assert_eq!(compiled.memory_pages, 1);
    assert!(compiled.functions.is_empty());
}

#[test]
fn export_naming_no_module_function() {
    let module = WasmModule {
        imports: vec![import("env", "print_i32")],
        functions: vec![],
        exports: vec![WasmExport { name: "main".to_string(), func_index: 1 }],
        data_sections: vec![],
        memory_pages: 1,
    };
    assert_eq!(find_export(&module, "main"), None);
    assert_eq!(find_export(&module, "other"), None);
}
