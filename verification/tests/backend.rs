use wasm_jit::backend::compiler::X86_64Compiler;
use wasm_jit::backend::x86_64_emitter::X86_64Emitter;
use wasm_jit::wasm::types::{FuncType, Instruction, ValType, WasmFunction, WasmModule};

#[test]
fn emitter_encodings() {
    let mut e = X86_64Emitter::new();
    e.push_rbp();
    e.mov_rbp_rsp();
    e.sub_rsp_imm8(0x20);
    e.push_rax();
    e.pop_rax();
    e.pop_rcx();
    e.add_rax_rcx();
    e.sub_rax_rcx();
    e.imul_rax_rcx();
    e.add_rsp_imm8(0x20);
    e.mov_rcx_rax();
    e.call_rax();
    e.mov_rsp_rbp();
    e.pop_rbp();
    e.ret();
    assert_eq!(
        e.into_bytes(),
        vec![
            0x55, 0x48, 0x89, 0xE5, 0x48, 0x83, 0xEC, 0x20, 0x50, 0x58, 0x59, 0x48, 0x01, 0xC8, 0x48,
            0x29, 0xC8, 0x48, 0x0F, 0xAF, 0xC1, 0x48, 0x83, 0xC4, 0x20, 0x48, 0x89, 0xC1, 0xFF, 0xD0,
            0x48, 0x89, 0xEC, 0x5D, 0xC3,
        ]
    );
}

#[test]
fn emitter_immediates_are_little_endian() {
    let mut e = X86_64Emitter::new();
    e.mov_eax_imm32(0x12345678);
    e.mov_eax_imm32(-2);
    e.mov_rax_imm64(0x0102030405060708);
    assert_eq!(
        e.into_bytes(),
        vec![
            0xB8, 0x78, 0x56, 0x34, 0x12, 0xB8, 0xFE, 0xFF, 0xFF, 0xFF, 0x48, 0xB8, 0x08, 0x07, 0x06,
            0x05, 0x04, 0x03, 0x02, 0x01,
        ]
    );
}

#[test]
fn emitter_displacements() {
    let mut e = X86_64Emitter::new();
    e.mov_rax_rbp_disp8(-16);
    e.mov_rbp_disp8_rax(-24);
    assert_eq!(e.into_bytes(), vec![0x48, 0x8B, 0x45, 0xF0, 0x48, 0x89, 0x45, 0xE8]);
}

#[test]
fn local_offsets() {
    assert_eq!(X86_64Compiler::local_offset(0), -16);
    assert_eq!(X86_64Compiler::local_offset(1), -24);
    assert_eq!(X86_64Compiler::local_offset(14), -128);
}

fn function(locals: usize, body: Vec<Instruction>) -> WasmFunction {
    WasmFunction {
        name: "f".to_string(),
        func_type: FuncType::new(vec![], vec![ValType::I32]),
        locals: vec![ValType::I32; locals],
        body,
    }
}

#[test]
fn compile_empty_function() {
    let c = X86_64Compiler.compile_function(&function(0, vec![]));
    // push rbp; mov rbp, rsp; sub rsp, 16; mov rsp, rbp; pop rbp; ret
    assert_eq!(c.code, vec![0x55, 0x48, 0x89, 0xE5, 0x48, 0x83, 0xEC, 0x10, 0x48, 0x89, 0xEC, 0x5D, 0xC3]);
    assert_eq!(c.func_type.results, vec![ValType::I32]);
}

#[test]
fn compile_add_and_return() {
    let body = vec![
        Instruction::I32Const(2),
        Instruction::LocalSet(0),
        Instruction::LocalGet(0),
        Instruction::I32Const(3),
        Instruction::I32Add,
        Instruction::Return,
        Instruction::Call(0),
        Instruction::F64Add,
    ];
    let c = X86_64Compiler.compile_function(&function(1, body));
    assert_eq!(
        c.code,
        vec![
            0x55, 0x48, 0x89, 0xE5, 0x48, 0x83, 0xEC, 0x18, // prologue, 24-byte frame
            0xB8, 0x02, 0x00, 0x00, 0x00, 0x50, // i32.const 2
            0x58, 0x48, 0x89, 0x45, 0xF0, // local.set 0
            0x48, 0x8B, 0x45, 0xF0, 0x50, // local.get 0
            0xB8, 0x03, 0x00, 0x00, 0x00, 0x50, // i32.const 3
            0x59, 0x58, 0x48, 0x01, 0xC8, 0x50, // i32.add
            0x58, 0x48, 0x89, 0xEC, 0x5D, 0xC3, // return
            0x48, 0x89, 0xEC, 0x5D, 0xC3, // epilogue
        ]
    );
}

#[test]
fn compile_module_keeps_order() {
    let module = WasmModule {
        imports: vec![],
        functions: vec![function(0, vec![Instruction::Return]), function(2, vec![])],
        exports: vec![],
        data_sections: vec![],
        memory_pages: 1,
    };
    let fs = X86_64Compiler.compile_module(&module);
    assert_eq!(fs.len(), 2);
    assert_eq!(fs[0].code.len(), 8 + 6 + 5);
    assert_eq!(fs[1].code[7], 0x20);
}

#[test]
fn local_slots_lie_in_frame() {
    let c = X86_64Compiler.compile_function(&function(3, vec![]));
    let frame = c.code[7] as i32;
    assert_eq!(frame, 40);
    let offsets: Vec<i32> = (0..3).map(|i| X86_64Compiler::local_offset(i) as i32).collect();
    for (k, &d) in offsets.iter().enumerate() {
        assert!(-frame <= d && d + 8 <= 0);
        for &e in &offsets[k + 1..] {
            assert!(d + 8 <= e || e + 8 <= d);
        }
    }
}
