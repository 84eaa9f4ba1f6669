use vstd::prelude::*;

verus! {

/// An append-only buffer of x86-64 machine code.
pub struct X86_64Emitter {
    buffer: Vec<u8>,
}

impl View for X86_64Emitter {
    type V = Seq<u8>;

    closed spec fn view(&self) -> Seq<u8> {
        self.buffer@
    }
}

/// Encoding of `push rbp`.
pub open spec fn enc_push_rbp() -> Seq<u8> {
    seq![0x55u8]
}

/// Encoding of `pop rbp`.
pub open spec fn enc_pop_rbp() -> Seq<u8> {
    seq![0x5Du8]
}

/// Encoding of `push rax`.
pub open spec fn enc_push_rax() -> Seq<u8> {
    seq![0x50u8]
}

/// Encoding of `pop rax`.
pub open spec fn enc_pop_rax() -> Seq<u8> {
    seq![0x58u8]
}

/// Encoding of `pop rcx`.
pub open spec fn enc_pop_rcx() -> Seq<u8> {
    seq![0x59u8]
}

/// Encoding of `ret`.
pub open spec fn enc_ret() -> Seq<u8> {
    seq![0xC3u8]
}

/// Encoding of `mov rbp, rsp`.
pub open spec fn enc_mov_rbp_rsp() -> Seq<u8> {
    seq![0x48u8, 0x89u8, 0xE5u8]
}

/// Encoding of `mov rsp, rbp`.
pub open spec fn enc_mov_rsp_rbp() -> Seq<u8> {
    seq![0x48u8, 0x89u8, 0xECu8]
}

/// Encoding of `sub rsp, imm8`.
pub open spec fn enc_sub_rsp_imm8(n: u8) -> Seq<u8> {
    seq![0x48u8, 0x83u8, 0xECu8, n]
}

/// Encoding of `add rsp, imm8`.
pub open spec fn enc_add_rsp_imm8(n: u8) -> Seq<u8> {
    seq![0x48u8, 0x83u8, 0xC4u8, n]
}

/// Encoding of `add rax, rcx`.
pub open spec fn enc_add_rax_rcx() -> Seq<u8> {
    seq![0x48u8, 0x01u8, 0xC8u8]
}

/// Encoding of `sub rax, rcx`.
pub open spec fn enc_sub_rax_rcx() -> Seq<u8> {
    seq![0x48u8, 0x29u8, 0xC8u8]
}

/// Encoding of `imul rax, rcx`.
pub open spec fn enc_imul_rax_rcx() -> Seq<u8> {
    seq![0x48u8, 0x0Fu8, 0xAFu8, 0xC1u8]
}

/// The little-endian bytes of a 32-bit two's-complement value.
pub open spec fn le_bytes_i32(v: i32) -> Seq<u8> {
    let u = v as u32;
    seq![(u & 0xff) as u8, ((u >> 8) & 0xff) as u8, ((u >> 16) & 0xff) as u8, ((u >> 24) & 0xff) as u8]
}

/// The little-endian bytes of a 64-bit value.
pub open spec fn le_bytes_u64(v: u64) -> Seq<u8> {
    Seq::new(8, |i: int| ((v >> (8 * i) as u64) & 0xff) as u8)
}

/// Encoding of `mov eax, imm32`.
pub open spec fn enc_mov_eax_imm32(v: i32) -> Seq<u8> {
    seq![0xB8u8] + le_bytes_i32(v)
}

/// Encoding of `movabs rax, imm64`.
pub open spec fn enc_mov_rax_imm64(v: u64) -> Seq<u8> {
    seq![0x48u8, 0xB8u8] + le_bytes_u64(v)
}

/// Encoding of `call rax`.
pub open spec fn enc_call_rax() -> Seq<u8> {
    seq![0xFFu8, 0xD0u8]
}

/// Encoding of `mov rax, [rbp + disp8]`.
pub open spec fn enc_mov_rax_rbp_disp8(d: i8) -> Seq<u8> {
    seq![0x48u8, 0x8Bu8, 0x45u8, d as u8]
}

/// Encoding of `mov [rbp + disp8], rax`.
pub open spec fn enc_mov_rbp_disp8_rax(d: i8) -> Seq<u8> {
    seq![0x48u8, 0x89u8, 0x45u8, d as u8]
}

/// Encoding of `mov rcx, rax`.
pub open spec fn enc_mov_rcx_rax() -> Seq<u8> {
    seq![0x48u8, 0x89u8, 0xC1u8]
}

impl X86_64Emitter {
    /// Creates a new `X86_64Emitter` with an empty instruction buffer.
    pub fn new() -> (e: Self)
        ensures
            e@ == Seq::<u8>::empty(),
    {
        Self { buffer: Vec::new() }
    }

    /// Appends raw bytes to the instruction buffer.
    fn emit(&mut self, bytes: &[u8])
        ensures
            final(self)@ == old(self)@ + bytes@,
    {
        let mut i: usize = 0;
        while i < bytes.len()
            invariant
                0 <= i <= bytes@.len(),
                self@ == old(self)@ + bytes@.subrange(0, i as int),
            decreases bytes@.len() - i,
        {
            self.buffer.push(bytes[i]);
            i = i + 1;
            assert(bytes@.subrange(0, i as int) == bytes@.subrange(0, i - 1).push(bytes@[i - 1]));
        }
        assert(bytes@.subrange(0, bytes@.len() as int) == bytes@);
    }

    /// `push rbp` (opcode: 0x55)
    pub fn push_rbp(&mut self)
        ensures
            final(self)@ == old(self)@ + enc_push_rbp(),
    {
        self.buffer.push(0x55);
    }

    /// `pop rbp` (opcode: 0x5D)
    pub fn pop_rbp(&mut self)
        ensures
            final(self)@ == old(self)@ + enc_pop_rbp(),
    {
        self.buffer.push(0x5D);
    }

    /// `push rax` (opcode: 0x50)
    pub fn push_rax(&mut self)
        ensures
            final(self)@ == old(self)@ + enc_push_rax(),
    {
        self.buffer.push(0x50);
    }

    /// `pop rax` (opcode: 0x58)
    pub fn pop_rax(&mut self)
        ensures
            final(self)@ == old(self)@ + enc_pop_rax(),
    {
        self.buffer.push(0x58);
    }

    /// `pop rcx` (opcode: 0x59)
    pub fn pop_rcx(&mut self)
        ensures
            final(self)@ == old(self)@ + enc_pop_rcx(),
    {
        self.buffer.push(0x59);
    }

    /// `ret` (opcode: 0xC3)
    pub fn ret(&mut self)
        ensures
            final(self)@ == old(self)@ + enc_ret(),
    {
        self.buffer.push(0xC3);
    }

    /// `mov rbp, rsp` (opcodes: 0x48 0x89 0xE5)
    pub fn mov_rbp_rsp(&mut self)
        ensures
            final(self)@ == old(self)@ + enc_mov_rbp_rsp(),
    {
        self.emit(&[0x48, 0x89, 0xE5]);
    }

    /// `mov rsp, rbp` (opcodes: 0x48 0x89 0xEC)
    pub fn mov_rsp_rbp(&mut self)
        ensures
            final(self)@ == old(self)@ + enc_mov_rsp_rbp(),
    {
        self.emit(&[0x48, 0x89, 0xEC]);
    }

    /// `sub rsp, imm8` (opcodes: 0x48 0x83 0xEC imm8)
    pub fn sub_rsp_imm8(&mut self, n: u8)
        ensures
            final(self)@ == old(self)@ + enc_sub_rsp_imm8(n),
    {
        self.emit(&[0x48, 0x83, 0xEC, n]);
    }

    /// `add rsp, imm8` (opcodes: 0x48 0x83 0xC4 imm8)
    pub fn add_rsp_imm8(&mut self, n: u8)
        ensures
            final(self)@ == old(self)@ + enc_add_rsp_imm8(n),
    {
        self.emit(&[0x48, 0x83, 0xC4, n]);
    }

    /// `add rax, rcx` (opcodes: 0x48 0x01 0xC8)
    pub fn add_rax_rcx(&mut self)
        ensures
            final(self)@ == old(self)@ + enc_add_rax_rcx(),
    {
        self.emit(&[0x48, 0x01, 0xC8]);
    }

    /// `sub rax, rcx` (opcodes: 0x48 0x29 0xC8)
    pub fn sub_rax_rcx(&mut self)
        ensures
            final(self)@ == old(self)@ + enc_sub_rax_rcx(),
    {
        self.emit(&[0x48, 0x29, 0xC8]);
    }

    /// `imul rax, rcx` (opcodes: 0x48 0x0F 0xAF 0xC1)
    pub fn imul_rax_rcx(&mut self)
        ensures
            final(self)@ == old(self)@ + enc_imul_rax_rcx(),
    {
        self.emit(&[0x48, 0x0F, 0xAF, 0xC1]);
    }

    /// `mov eax, imm32` (opcode: 0xB8 + imm32, little endian)
    pub fn mov_eax_imm32(&mut self, v: i32)
        ensures
            final(self)@ == old(self)@ + enc_mov_eax_imm32(v),
    {
        self.buffer.push(0xB8);
        let u: u32 = v as u32;
        let b0: u8 = (u & 0xff) as u8;
        let b1: u8 = ((u >> 8) & 0xff) as u8;
        let b2: u8 = ((u >> 16) & 0xff) as u8;
        let b3: u8 = ((u >> 24) & 0xff) as u8;
        self.emit(&[b0, b1, b2, b3]);
    }

    /// `movabs rax, imm64` (opcodes: 0x48 0xB8 + imm64, little endian)
    pub fn mov_rax_imm64(&mut self, v: u64)
        ensures
            final(self)@ == old(self)@ + enc_mov_rax_imm64(v),
    {
        self.emit(&[0x48, 0xB8]);
        let mut k: u64 = 0;
        while k < 8
            invariant
                k <= 8,
                self@ == old(self)@ + seq![0x48u8, 0xB8u8] + le_bytes_u64(v).subrange(0, k as int),
            decreases 8 - k,
        {
            let b: u8 = ((v >> (8 * k)) & 0xff) as u8;
            self.buffer.push(b);
            k = k + 1;
            assert(le_bytes_u64(v).subrange(0, k as int)
                == le_bytes_u64(v).subrange(0, k - 1).push(b));
        }
        assert(le_bytes_u64(v).subrange(0, 8) == le_bytes_u64(v));
    }

    /// `call rax` (opcodes: 0xFF 0xD0)
    pub fn call_rax(&mut self)
        ensures
            final(self)@ == old(self)@ + enc_call_rax(),
    {
        self.emit(&[0xFF, 0xD0]);
    }

    /// `mov rax, [rbp + disp8]` (opcodes: 0x48 0x8B 0x45 disp8)
    pub fn mov_rax_rbp_disp8(&mut self, d: i8)
        ensures
            final(self)@ == old(self)@ + enc_mov_rax_rbp_disp8(d),
    {
        self.emit(&[0x48, 0x8B, 0x45, d as u8]);
    }

    /// `mov [rbp + disp8], rax` (opcodes: 0x48 0x89 0x45 disp8)
    pub fn mov_rbp_disp8_rax(&mut self, d: i8)
        ensures
            final(self)@ == old(self)@ + enc_mov_rbp_disp8_rax(d),
    {
        self.emit(&[0x48, 0x89, 0x45, d as u8]);
    }

    /// `mov rcx, rax` (opcodes: 0x48 0x89 0xC1)
    pub fn mov_rcx_rax(&mut self)
        ensures
            final(self)@ == old(self)@ + enc_mov_rcx_rax(),
    {
        self.emit(&[0x48, 0x89, 0xC1]);
    }

    /// Consumes the emitter and returns the assembled machine code.
    pub fn into_bytes(self) -> (bytes: Vec<u8>)
        ensures
            bytes@ == self@,
    {
        self.buffer
    }
}

} // verus!
