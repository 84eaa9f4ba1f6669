use vstd::prelude::*;

use crate::backend::x86_64_emitter::{
    enc_add_rax_rcx, enc_mov_eax_imm32, enc_mov_rax_rbp_disp8, enc_mov_rbp_disp8_rax, enc_mov_rbp_rsp,
    enc_mov_rsp_rbp, enc_pop_rax, enc_pop_rbp, enc_pop_rcx, enc_push_rax, enc_push_rbp, enc_ret,
    enc_sub_rsp_imm8, X86_64Emitter,
};
use crate::runtime::module::CompiledFunction;
use crate::wasm::types::{Instruction, WasmFunction, WasmModule};

verus! {

/// Single-pass compiler from stack-machine functions to x86-64.
///
/// Every stack-machine value lives in a 64-bit slot of the native stack;
/// locals live below the saved frame pointer.
pub struct X86_64Compiler;

/// Byte displacement from `rbp` of the slot of local `local_idx`:
/// `-16 - 8 * idx`, computed in 8-bit arithmetic on the index truncated
/// to `i8`.
pub open spec fn spec_local_offset(local_idx: u32) -> i8 {
    (-16 - (local_idx as i8) * 8) as i8
}

/// The indices whose slot displacement fits the 8-bit arithmetic
/// without overflow.
pub open spec fn local_index_ok(local_idx: u32) -> bool {
    -16 <= (local_idx as i8) <= 14
}

/// The native code emitted for one instruction.
pub open spec fn instr_code(instr: Instruction) -> Seq<u8> {
    match instr {
        Instruction::I32Const(v) => enc_mov_eax_imm32(v) + enc_push_rax(),
        Instruction::LocalGet(idx) => enc_mov_rax_rbp_disp8(spec_local_offset(idx)) + enc_push_rax(),
        Instruction::LocalSet(idx) => enc_pop_rax() + enc_mov_rbp_disp8_rax(spec_local_offset(idx)),
        Instruction::I32Add => enc_pop_rcx() + enc_pop_rax() + enc_add_rax_rcx() + enc_push_rax(),
        Instruction::Return => enc_pop_rax() + enc_mov_rsp_rbp() + enc_pop_rbp() + enc_ret(),
        _ => Seq::empty(),
    }
}

/// The native code for a sequence of instructions, one after the other.
pub open spec fn body_code(body: Seq<Instruction>) -> Seq<u8>
    decreases body.len(),
{
    if body.len() == 0 {
        Seq::empty()
    } else {
        body_code(body.drop_last()) + instr_code(body.last())
    }
}

/// Frame size: 16 bytes for return address and saved `rbp`, 8 per local,
/// in 8-bit arithmetic on the local count truncated to `u8`.
pub open spec fn frame_size(num_locals: nat) -> u8 {
    (16 + (num_locals as u8) * 8) as u8
}

/// The frame of a function with this many locals fits the 8-bit arithmetic.
pub open spec fn frame_ok(num_locals: nat) -> bool {
    (num_locals as u8) <= 29
}

/// A function can be compiled: its frame and every local it touches fit
/// the 8-bit displacements.
pub open spec fn compilable(func: &WasmFunction) -> bool {
    &&& frame_ok(func.locals@.len())
    &&& forall|i: int|
        0 <= i < func.body@.len() ==> match #[trigger] func.body@[i] {
            Instruction::LocalGet(idx) => local_index_ok(idx),
            Instruction::LocalSet(idx) => local_index_ok(idx),
            _ => true,
        }
}

/// Prologue, the code of each instruction in order, then an epilogue that
/// returns (so a body without `Return` falls through to it).
pub open spec fn function_code(func: &WasmFunction) -> Seq<u8> {
    enc_push_rbp() + enc_mov_rbp_rsp() + enc_sub_rsp_imm8(frame_size(func.locals@.len()))
        + body_code(func.body@) + enc_mov_rsp_rbp() + enc_pop_rbp() + enc_ret()
}

/// Whether a function can be compiled (see `compilable`).
pub fn is_compilable(func: &WasmFunction) -> (b: bool)
    ensures
        b == compilable(func),
{
    if func.locals.len() as u8 > 29 {
        return false;
    }
    let mut k: usize = 0;
    while k < func.body.len()
        invariant
            0 <= k <= func.body@.len(),
            frame_ok(func.locals@.len()),
            forall|i: int|
                0 <= i < k ==> match #[trigger] func.body@[i] {
                    Instruction::LocalGet(idx) => local_index_ok(idx),
                    Instruction::LocalSet(idx) => local_index_ok(idx),
                    _ => true,
                },
        decreases func.body@.len() - k,
    {
        let ok = match &func.body[k] {
            Instruction::LocalGet(idx) => -16 <= (*idx as i8) && (*idx as i8) <= 14,
            Instruction::LocalSet(idx) => -16 <= (*idx as i8) && (*idx as i8) <= 14,
            _ => true,
        };
        if !ok {
            assert(!compilable(func)) by {
                let _ = func.body@[k as int];
            }
            return false;
        }
        k = k + 1;
    }
    true
}

/// Single-pass code generation is compositional: the code of two
/// instruction sequences one after the other is the code of the first
/// followed by the code of the second.
pub proof fn law_body_code_concat(a: Seq<Instruction>, b: Seq<Instruction>)
    ensures
        body_code(a + b) == body_code(a) + body_code(b),
    decreases b.len(),
{
    if b.len() == 0 {
        assert(a + b =~= a);
        assert(body_code(a) + Seq::<u8>::empty() =~= body_code(a));
    } else {
        law_body_code_concat(a, b.drop_last());
        assert((a + b).drop_last() =~= a + b.drop_last());
        assert((a + b).last() == b.last());
        assert(body_code(a) + body_code(b.drop_last()) + instr_code(b.last()) =~= body_code(a) + (body_code(
            b.drop_last(),
        ) + instr_code(b.last())));
    }
}

/// The frame that the prologue reserves holds every local: the 8-byte
/// slot of each local lies between `rbp - frame_size` and `rbp`, and
/// different locals have disjoint slots.
pub proof fn law_local_slots_in_frame(num_locals: nat, a: u32, b: u32)
    requires
        num_locals < 256,
        frame_ok(num_locals),
        a < num_locals,
        b < num_locals,
        local_index_ok(a),
        local_index_ok(b),
    ensures
        -(frame_size(num_locals) as int) <= spec_local_offset(a),
        spec_local_offset(a) + 8 <= 0,
        a != b ==> spec_local_offset(a) + 8 <= spec_local_offset(b) || spec_local_offset(b) + 8
            <= spec_local_offset(a),
{
    assert((num_locals as u8) as int == num_locals);
    assert((a as i8) as int == a);
    assert((b as i8) as int == b);
}

impl X86_64Compiler {
    /// Displacement from `rbp` of a local's slot:
    /// `rbp - 16` (return address and old `rbp`) `- 8 * local_idx`.
    pub fn local_offset(local_idx: u32) -> (d: i8)
        requires
            local_index_ok(local_idx),
        ensures
            d == spec_local_offset(local_idx),
            d as int == -16 - 8 * (local_idx as i8),
    {
        -16 - (local_idx as i8 * 8)
    }

    /// Compiles one function: prologue, one native sequence per
    /// instruction (single pass), epilogue.
    pub fn compile_function(&self, func: &WasmFunction) -> (c: CompiledFunction)
        requires
            compilable(func),
        ensures
            c.code@ == function_code(func),
            c.func_type.params@ == func.func_type.params@,
            c.func_type.results@ == func.func_type.results@,
    {
        let mut emit = X86_64Emitter::new();
        let frame_size: u8 = 16 + func.locals.len() as u8 * 8;
        // Prologue
        emit.push_rbp();
        emit.mov_rbp_rsp();
        emit.sub_rsp_imm8(frame_size);
        let ghost prologue = emit@;

        let mut k: usize = 0;
        while k < func.body.len()
            invariant
                compilable(func),
                0 <= k <= func.body@.len(),
                emit@ == prologue + body_code(func.body@.subrange(0, k as int)),
            decreases func.body@.len() - k,
        {
            let instr = &func.body[k];
            proof {
                let _ = func.body@[k as int];
            }
            match instr {
                Instruction::I32Const(val) => {
                    emit.mov_eax_imm32(*val);
                    emit.push_rax();
                },
                Instruction::LocalGet(idx) => {
                    emit.mov_rax_rbp_disp8(Self::local_offset(*idx));
                    emit.push_rax();
                },
                Instruction::LocalSet(idx) => {
                    emit.pop_rax();
                    emit.mov_rbp_disp8_rax(Self::local_offset(*idx));
                },
                Instruction::I32Add => {
                    emit.pop_rcx();
                    emit.pop_rax();
                    emit.add_rax_rcx();
                    emit.push_rax();
                },
                Instruction::Call(_func_idx) => {
                    // Calls are not lowered yet: no code is emitted.
                },
                Instruction::Return => {
                    emit.pop_rax();
                    emit.mov_rsp_rbp();
                    emit.pop_rbp();
                    emit.ret();
                },
                _ => {},
            }
            let ghost done = func.body@.subrange(0, k as int);
            k = k + 1;
            proof {
                let next = func.body@.subrange(0, k as int);
                assert(next.drop_last() == done);
                assert(next.last() == func.body@[k - 1]);
            }
        }
        assert(func.body@.subrange(0, func.body@.len() as int) == func.body@);

        // Epilogue (implicit return if no explicit return)
        emit.mov_rsp_rbp();
        emit.pop_rbp();
        emit.ret();

        CompiledFunction { code: emit.into_bytes(), func_type: func.func_type.clone() }
    }

    /// Compiles every function of the module, in order.
    pub fn compile_module(&self, module: &WasmModule) -> (fs: Vec<CompiledFunction>)
        requires
            forall|i: int| 0 <= i < module.functions@.len() ==> compilable(&#[trigger] module.functions@[i]),
        ensures
            fs@.len() == module.functions@.len(),
            forall|i: int|
                0 <= i < fs@.len() ==> {
                    &&& (#[trigger] fs@[i]).code@ == function_code(&module.functions@[i])
                    &&& fs@[i].func_type.params@ == module.functions@[i].func_type.params@
                    &&& fs@[i].func_type.results@ == module.functions@[i].func_type.results@
                },
    {
        let mut fs: Vec<CompiledFunction> = Vec::new();
        let mut i: usize = 0;
        while i < module.functions.len()
            invariant
                0 <= i <= module.functions@.len(),
                forall|j: int| 0 <= j < module.functions@.len() ==> compilable(&#[trigger] module.functions@[j]),
                fs@.len() == i,
                forall|j: int|
                    0 <= j < i ==> {
                        &&& (#[trigger] fs@[j]).code@ == function_code(&module.functions@[j])
                        &&& fs@[j].func_type.params@ == module.functions@[j].func_type.params@
                        &&& fs@[j].func_type.results@ == module.functions@[j].func_type.results@
                    },
            decreases module.functions@.len() - i,
        {
            let c = self.compile_function(&module.functions[i]);
            fs.push(c);
            i = i + 1;
        }
        fs
    }
}

} // verus!
