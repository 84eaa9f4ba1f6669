use vstd::prelude::*;

verus! {

/// A WebAssembly value type.
#[derive(Clone, Copy, Debug, PartialEq, Eq, Structural)]
pub enum ValType {
    I32,
    F64,
}

/// A function signature: parameter and result types.
#[derive(Debug)]
pub struct FuncType {
    pub params: Vec<ValType>,
    pub results: Vec<ValType>,
}

/// Copies a sequence of value types.
fn copy_val_types(v: &Vec<ValType>) -> (r: Vec<ValType>)
    ensures
        r@ == v@,
{
    let mut r: Vec<ValType> = Vec::new();
    let mut i: usize = 0;
    while i < v.len()
        invariant
            0 <= i <= v@.len(),
            r@ == v@.subrange(0, i as int),
        decreases v@.len() - i,
    {
        r.push(v[i]);
        i = i + 1;
        assert(r@ == v@.subrange(0, i as int));
    }
    assert(v@.subrange(0, v@.len() as int) == v@);
    r
}

impl FuncType {
    /// A signature with the given parameter and result types.
    pub fn new(params: Vec<ValType>, results: Vec<ValType>) -> (t: Self)
        ensures
            t.params@ == params@,
            t.results@ == results@,
    {
        FuncType { params, results }
    }

    /// A copy of this signature.
    pub fn clone(&self) -> (t: Self)
        ensures
            t.params@ == self.params@,
            t.results@ == self.results@,
    {
        FuncType { params: copy_val_types(&self.params), results: copy_val_types(&self.results) }
    }
}

/// One instruction of the stack machine.
///
/// A 64-bit float constant is carried as the decimal text of the literal
/// it was written as (for example `3.14`); it is turned into a number only
/// where floating point is available.
#[derive(Clone, Debug, PartialEq)]
pub enum Instruction {
    I32Const(i32),
    F64Const(String),
    LocalGet(u32),
    LocalSet(u32),
    I32Add,
    I32Sub,
    I32Mul,
    I32Div,
    F64Add,
    F64Sub,
    F64Mul,
    F64Div,
    /// Call by function index (imports first, then module functions).
    Call(u32),
    Return,
    /// Load with a byte offset (used for struct field access).
    I32Load(u32),
    /// Store with a byte offset.
    I32Store(u32),
    MemoryGrow,
}

/// Quotient of `a` by `b`, rounded toward zero (as `i32.div_s` divides).
pub open spec fn div_toward_zero(a: int, b: int) -> int {
    if a >= 0 {
        if b > 0 {
            a / b
        } else {
            -(a / (-b))
        }
    } else {
        if b > 0 {
            -((-a) / b)
        } else {
            (-a) / (-b)
        }
    }
}

/// The value a 32-bit integer arithmetic instruction leaves for operands
/// `a` and `b` (before wrapping to 32 bits); `None` for other instructions.
pub open spec fn i32_arith_result(instr: Instruction, a: int, b: int) -> Option<int> {
    match instr {
        Instruction::I32Add => Some(a + b),
        Instruction::I32Sub => Some(a - b),
        Instruction::I32Mul => Some(a * b),
        Instruction::I32Div => Some(div_toward_zero(a, b)),
        _ => None,
    }
}

/// The 32-bit integer instruction that performs the same arithmetic
/// operation as a 64-bit float arithmetic instruction; `None` for other
/// instructions.
pub open spec fn integer_counterpart(instr: Instruction) -> Option<Instruction> {
    match instr {
        Instruction::F64Add => Some(Instruction::I32Add),
        Instruction::F64Sub => Some(Instruction::I32Sub),
        Instruction::F64Mul => Some(Instruction::I32Mul),
        Instruction::F64Div => Some(Instruction::I32Div),
        _ => None,
    }
}

/// A function of a module.
#[derive(Debug)]
pub struct WasmFunction {
    pub name: String,
    pub func_type: FuncType,
    pub locals: Vec<ValType>,
    pub body: Vec<Instruction>,
}

/// An imported host function, named by module and field name.
#[derive(Debug)]
pub struct WasmImport {
    /// e.g. "env"
    pub module: String,
    /// e.g. "print_i32"
    pub name: String,
    pub func_type: FuncType,
}

/// A function exported under a name.
#[derive(Debug)]
pub struct WasmExport {
    pub name: String,
    pub func_index: u32,
}

/// Bytes placed at a fixed offset of linear memory (string literals).
#[derive(Debug)]
pub struct DataSection {
    pub offset: u32,
    pub data: Vec<u8>,
}

/// A whole module.
#[derive(Debug)]
pub struct WasmModule {
    pub imports: Vec<WasmImport>,
    pub functions: Vec<WasmFunction>,
    pub exports: Vec<WasmExport>,
    /// String literals.
    pub data_sections: Vec<DataSection>,
    /// Initial memory size in 64 KiB pages.
    pub memory_pages: u32,
}

} // verus!
