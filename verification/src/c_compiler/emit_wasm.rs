use vstd::prelude::*;

use crate::c_compiler::ast::{op_apply, Expr, Function, Op, Program, Stmt, StructDef, Type};
use crate::wasm::types::{
    i32_arith_result, integer_counterpart, DataSection, FuncType, Instruction, ValType, WasmExport,
    WasmFunction, WasmImport, WasmModule,
};

verus! {

// Layout conventions:
//   - Imports come first in the function index space: `print_i32` is
//     function 0 and `print_str` function 1.
//   - Module functions follow (indices 2..2+M), in source order; a name
//     defined twice refers to its last definition.
//   - String literals are placed in linear memory via data sections, one
//     after another from offset 0, as UTF-8 bytes; a literal is pushed as
//     its (offset, length).
//   - Struct fields are 4 bytes each, at offsets 0, 4, 8, ... in
//     declaration order, and are accessed via I32Load/I32Store.
//   - Every parameter and every declared variable has a local slot;
//     parameters first, then declarations in order, one slot per name.

/// Why a program cannot be lowered.
#[derive(Debug)]
pub enum EmitError {
    /// A variable that no parameter or declaration introduces.
    UnknownVariable(String),
    /// A call of a function that is neither imported nor defined.
    UnknownFunction(String),
    /// A field that the struct type of the accessed value does not have
    /// (or a field access on a value that is not a struct).
    UnknownField(String),
    /// The string literals would not fit below offset `i32::MAX`.
    DataOverflow,
}

// ── The meaning of the lowering, as spec functions ───────────────────

/// The value type that holds a value of a C type (struct values are
/// addresses).
pub open spec fn val_type(t: Type) -> ValType {
    match t {
        Type::Float => ValType::F64,
        _ => ValType::I32,
    }
}

/// What an expression can refer to while one function is lowered.
pub ghost struct Scope {
    pub structs: Seq<StructDef>,
    pub functions: Seq<Function>,
    /// Local slots: name and declared type.
    pub locals: Seq<(Seq<char>, Type)>,
}

/// Index of the first slot named `name`.
pub open spec fn slot_of(locals: Seq<(Seq<char>, Type)>, name: Seq<char>) -> Option<int>
    decreases locals.len(),
{
    if locals.len() == 0 {
        None
    } else {
        match slot_of(locals.drop_last(), name) {
            Some(i) => Some(i),
            None => if locals.last().0 == name {
                Some(locals.len() - 1)
            } else {
                None
            },
        }
    }
}

/// The fields of the last struct definition named `name`.
pub open spec fn struct_fields(structs: Seq<StructDef>, name: Seq<char>) -> Option<Seq<(String, Type)>>
    decreases structs.len(),
{
    if structs.len() == 0 {
        None
    } else if structs.last().name@ == name {
        Some(structs.last().fields@)
    } else {
        struct_fields(structs.drop_last(), name)
    }
}

/// Index of the first field named `f`.
pub open spec fn field_index(fields: Seq<(String, Type)>, f: Seq<char>) -> Option<int>
    decreases fields.len(),
{
    if fields.len() == 0 {
        None
    } else {
        match field_index(fields.drop_last(), f) {
            Some(i) => Some(i),
            None => if fields.last().0@ == f {
                Some(fields.len() - 1)
            } else {
                None
            },
        }
    }
}

/// Byte offset of field `f` in a value of type `ty`, when `ty` is a
/// struct type that has such a field.
pub open spec fn field_offset(structs: Seq<StructDef>, ty: Type, f: Seq<char>) -> Option<int> {
    match ty {
        Type::Struct(sname) => match struct_fields(structs, sname@) {
            Some(fields) => match field_index(fields, f) {
                Some(i) => Some(4 * i),
                None => None,
            },
            None => None,
        },
        _ => None,
    }
}

/// Function index of an imported host function.
pub open spec fn import_index(name: Seq<char>) -> Option<int> {
    if name == seq!['p', 'r', 'i', 'n', 't', '_', 'i', '3', '2'] {
        Some(0)
    } else if name == seq!['p', 'r', 'i', 'n', 't', '_', 's', 't', 'r'] {
        Some(1)
    } else {
        None
    }
}

/// Position of the last function named `name`.
pub open spec fn function_position(functions: Seq<Function>, name: Seq<char>) -> Option<int>
    decreases functions.len(),
{
    if functions.len() == 0 {
        None
    } else if functions.last().name@ == name {
        Some(functions.len() - 1)
    } else {
        function_position(functions.drop_last(), name)
    }
}

/// Function index that a call of `name` targets: imports first, then
/// module functions.
pub open spec fn call_index(functions: Seq<Function>, name: Seq<char>) -> Option<int> {
    match import_index(name) {
        Some(i) => Some(i),
        None => match function_position(functions, name) {
            Some(i) => Some(2 + i),
            None => None,
        },
    }
}

/// The type an expression's value is taken to have when choosing an
/// arithmetic instruction: float literals are `Float`; a variable has its
/// declared type; an operation has its left operand's type; a call has
/// its callee's return type (`Int` for host functions); other expressions
/// are `Int` (string literals `Ptr`).
pub open spec fn expr_type(scope: Scope, e: Expr) -> Type
    decreases e,
{
    match e {
        Expr::FloatLit(_) => Type::Float,
        Expr::StringLit(_) => Type::Ptr,
        Expr::Var(x) => match slot_of(scope.locals, x@) {
            Some(i) => scope.locals[i].1,
            None => Type::Int,
        },
        Expr::BinOp(l, _, _) => expr_type(scope, *l),
        Expr::Call(f, _) => match import_index(f@) {
            Some(_) => Type::Int,
            None => match function_position(scope.functions, f@) {
                Some(i) => scope.functions[i].return_type,
                None => Type::Int,
            },
        },
        _ => Type::Int,
    }
}

/// The instruction for an arithmetic operator on values of type `ty`.
pub open spec fn op_instr(op: Op, ty: Type) -> Instruction {
    if ty is Float {
        match op {
            Op::Add => Instruction::F64Add,
            Op::Sub => Instruction::F64Sub,
            Op::Mul => Instruction::F64Mul,
            Op::Div => Instruction::F64Div,
        }
    } else {
        match op {
            Op::Add => Instruction::I32Add,
            Op::Sub => Instruction::I32Sub,
            Op::Mul => Instruction::I32Mul,
            Op::Div => Instruction::I32Div,
        }
    }
}

/// An arithmetic operator is lowered to the instruction that computes it:
/// on integer operands the chosen instruction computes what the operator
/// computes (division rounding toward zero); on float operands it is the
/// 64-bit float instruction of the same operation; and different operators
/// never lower to the same instruction.
pub proof fn law_operator_instructions(op: Op, other: Op, ty: Type, a: int, b: int)
    ensures
        !(ty is Float) && (op != Op::Div || b != 0) ==> i32_arith_result(op_instr(op, ty), a, b) == Some(
            op_apply(op, a, b),
        ),
        ty is Float ==> integer_counterpart(op_instr(op, ty)) == Some(op_instr(op, Type::Int)),
        op != other ==> op_instr(op, ty) != op_instr(other, ty),
{
}

/// The result of lowering a piece of code: its instructions, the data
/// sections (offset, bytes) it adds, and the next free data offset.
pub type Lowered = (Seq<Instruction>, Seq<(u32, Seq<u8>)>, int);

/// Appends `more` (lowered after `first`) to `first`.
pub open spec fn then(first: Lowered, more: Lowered) -> Lowered {
    (first.0 + more.0, first.1 + more.1, more.2)
}

/// Lowers an expression, with string data placed from offset `off`; the
/// code leaves the expression's value on the stack (a string as offset,
/// then length).
pub open spec fn lower_expr(scope: Scope, e: Expr, off: int) -> Result<Lowered, EmitError>
    decreases e,
{
    match e {
        Expr::IntLit(n) => Ok((seq![Instruction::I32Const(n)], Seq::empty(), off)),
        Expr::FloatLit(s) => Ok((seq![Instruction::F64Const(s)], Seq::empty(), off)),
        Expr::StringLit(s) => {
            let bytes = vstd::utf8::encode_utf8(s@);
            if off + bytes.len() > i32::MAX {
                Err(EmitError::DataOverflow)
            } else {
                Ok(
                    (
                        seq![Instruction::I32Const(off as i32), Instruction::I32Const(bytes.len() as i32)],
                        seq![(off as u32, bytes)],
                        off + bytes.len(),
                    ),
                )
            }
        },
        Expr::Var(x) => match slot_of(scope.locals, x@) {
            Some(i) => Ok((seq![Instruction::LocalGet(i as u32)], Seq::empty(), off)),
            None => Err(EmitError::UnknownVariable(x)),
        },
        Expr::BinOp(l, op, r) => match lower_expr(scope, *l, off) {
            Ok(a) => match lower_expr(scope, *r, a.2) {
                Ok(b) => Ok(then(then(a, b), (seq![op_instr(op, expr_type(scope, *l))], Seq::empty(), b.2))),
                Err(err) => Err(err),
            },
            Err(err) => Err(err),
        },
        Expr::Call(name, args) => match lower_exprs(scope, args@, off) {
            Ok(a) => match call_index(scope.functions, name@) {
                Some(i) => Ok(then(a, (seq![Instruction::Call(i as u32)], Seq::empty(), a.2))),
                None => Err(EmitError::UnknownFunction(name)),
            },
            Err(err) => Err(err),
        },
        Expr::FieldAccess(obj, f) => match lower_expr(scope, *obj, off) {
            Ok(a) => match field_offset(scope.structs, expr_type(scope, *obj), f@) {
                Some(k) => Ok(then(a, (seq![Instruction::I32Load(k as u32)], Seq::empty(), a.2))),
                None => Err(EmitError::UnknownField(f)),
            },
            Err(err) => Err(err),
        },
    }
}

/// Lowers expressions one after another.
pub open spec fn lower_exprs(scope: Scope, es: Seq<Expr>, off: int) -> Result<Lowered, EmitError>
    decreases es,
{
    if es.len() == 0 {
        Ok((Seq::empty(), Seq::empty(), off))
    } else {
        match lower_exprs(scope, es.drop_last(), off) {
            Ok(a) => match lower_expr(scope, es.last(), a.2) {
                Ok(b) => Ok(then(a, b)),
                Err(err) => Err(err),
            },
            Err(err) => Err(err),
        }
    }
}

/// Lowers a statement, with string data placed from offset `off`.
pub open spec fn lower_stmt(scope: Scope, st: Stmt, off: int) -> Result<Lowered, EmitError> {
    match st {
        Stmt::Return(e) => match lower_expr(scope, e, off) {
            Ok(a) => Ok(then(a, (seq![Instruction::Return], Seq::empty(), a.2))),
            Err(err) => Err(err),
        },
        Stmt::Let(name, _ty, init) => match init {
            Some(e) => match lower_expr(scope, e, off) {
                Ok(a) => match slot_of(scope.locals, name@) {
                    Some(i) => Ok(then(a, (seq![Instruction::LocalSet(i as u32)], Seq::empty(), a.2))),
                    None => Err(EmitError::UnknownVariable(name)),
                },
                Err(err) => Err(err),
            },
            None => Ok((Seq::empty(), Seq::empty(), off)),
        },
        Stmt::Assign(name, e) => match lower_expr(scope, e, off) {
            Ok(a) => match slot_of(scope.locals, name@) {
                Some(i) => Ok(then(a, (seq![Instruction::LocalSet(i as u32)], Seq::empty(), a.2))),
                None => Err(EmitError::UnknownVariable(name)),
            },
            Err(err) => Err(err),
        },
        Stmt::FieldAssign(var, field, e) => match slot_of(scope.locals, var@) {
            Some(i) => match field_offset(scope.structs, scope.locals[i].1, field@) {
                Some(k) => match lower_expr(scope, e, off) {
                    Ok(a) => Ok(
                        then(
                            then((seq![Instruction::LocalGet(i as u32)], Seq::empty(), off), a),
                            (seq![Instruction::I32Store(k as u32)], Seq::empty(), a.2),
                        ),
                    ),
                    Err(err) => Err(err),
                },
                None => Err(EmitError::UnknownField(field)),
            },
            None => Err(EmitError::UnknownVariable(var)),
        },
        Stmt::Expr(e) => lower_expr(scope, e, off),
    }
}

/// Lowers statements one after another.
pub open spec fn lower_stmts(scope: Scope, sts: Seq<Stmt>, off: int) -> Result<Lowered, EmitError>
    decreases sts.len(),
{
    if sts.len() == 0 {
        Ok((Seq::empty(), Seq::empty(), off))
    } else {
        match lower_stmts(scope, sts.drop_last(), off) {
            Ok(a) => match lower_stmt(scope, sts.last(), a.2) {
                Ok(b) => Ok(then(a, b)),
                Err(err) => Err(err),
            },
            Err(err) => Err(err),
        }
    }
}

/// Adds a slot for `name` unless one exists.
pub open spec fn declare(locals: Seq<(Seq<char>, Type)>, name: Seq<char>, ty: Type) -> Seq<(Seq<char>, Type)> {
    if slot_of(locals, name) is Some {
        locals
    } else {
        locals.push((name, ty))
    }
}

/// The slots of the parameters.
pub open spec fn param_slots(params: Seq<(String, Type)>) -> Seq<(Seq<char>, Type)>
    decreases params.len(),
{
    if params.len() == 0 {
        Seq::empty()
    } else {
        declare(param_slots(params.drop_last()), params.last().0@, params.last().1)
    }
}

/// `locals` with a slot added for each declaration of `body`.
pub open spec fn declared_slots(locals: Seq<(Seq<char>, Type)>, body: Seq<Stmt>) -> Seq<(Seq<char>, Type)>
    decreases body.len(),
{
    if body.len() == 0 {
        locals
    } else {
        let before = declared_slots(locals, body.drop_last());
        match body.last() {
            Stmt::Let(name, ty, _) => declare(before, name@, ty),
            _ => before,
        }
    }
}

/// The local slots of a function: parameters, then declarations.
pub open spec fn function_slots(f: Function) -> Seq<(Seq<char>, Type)> {
    declared_slots(param_slots(f.params@), f.body@)
}

/// The value types of the local slots of a function.
pub open spec fn local_types(f: Function) -> Seq<ValType> {
    function_slots(f).map_values(|l: (Seq<char>, Type)| val_type(l.1))
}

/// The value types of a function's parameters.
pub open spec fn param_types(f: Function) -> Seq<ValType> {
    f.params@.map_values(|p: (String, Type)| val_type(p.1))
}

/// The scope in which the body of `f` is lowered.
pub open spec fn function_scope(structs: Seq<StructDef>, functions: Seq<Function>, f: Function) -> Scope {
    Scope { structs, functions, locals: function_slots(f) }
}

/// Lowers the bodies of `fs`, one after another, with string data placed
/// from offset `off`: each function's instructions, all data sections,
/// and the next free offset.
pub open spec fn lower_functions(
    structs: Seq<StructDef>,
    functions: Seq<Function>,
    fs: Seq<Function>,
    off: int,
) -> Result<(Seq<Seq<Instruction>>, Seq<(u32, Seq<u8>)>, int), EmitError>
    decreases fs.len(),
{
    if fs.len() == 0 {
        Ok((Seq::empty(), Seq::empty(), off))
    } else {
        match lower_functions(structs, functions, fs.drop_last(), off) {
            Ok(a) => match lower_stmts(function_scope(structs, functions, fs.last()), fs.last().body@, a.2) {
                Ok(b) => Ok((a.0.push(b.0), a.1 + b.1, b.2)),
                Err(err) => Err(err),
            },
            Err(err) => Err(err),
        }
    }
}

/// Memory pages needed for `size` bytes of string data (at least one).
pub open spec fn pages_for(size: int) -> int {
    if size == 0 {
        1
    } else {
        size / 65536 + 1
    }
}

/// The imports every module has: `env.print_i32(i32)` and
/// `env.print_str(i32, i32)`.
pub open spec fn standard_import(k: int, imp: WasmImport) -> bool {
    &&& imp.module@ == seq!['e', 'n', 'v']
    &&& imp.func_type.results@ == Seq::<ValType>::empty()
    &&& if k == 0 {
        imp.name@ == seq!['p', 'r', 'i', 'n', 't', '_', 'i', '3', '2'] && imp.func_type.params@ == seq![ValType::I32]
    } else {
        imp.name@ == seq!['p', 'r', 'i', 'n', 't', '_', 's', 't', 'r']
            && imp.func_type.params@ == seq![ValType::I32, ValType::I32]
    }
}

/// The module that `program` lowers to, given the bodies and data that
/// `lower_functions` gives.
pub open spec fn lowered_module(
    program: Program,
    bodies: Seq<Seq<Instruction>>,
    data: Seq<(u32, Seq<u8>)>,
    size: int,
    m: WasmModule,
) -> bool {
    let fs = program.functions@;
    &&& m.imports@.len() == 2
    &&& forall|k: int| 0 <= k < 2 ==> standard_import(k, #[trigger] m.imports@[k])
    &&& m.functions@.len() == fs.len()
    &&& forall|i: int|
        0 <= i < fs.len() ==> {
            &&& (#[trigger] m.functions@[i]).name@ == fs[i].name@
            &&& m.functions@[i].func_type.params@ == param_types(fs[i])
            &&& m.functions@[i].func_type.results@ == seq![val_type(fs[i].return_type)]
            &&& m.functions@[i].locals@ == local_types(fs[i])
            &&& m.functions@[i].body@ == bodies[i]
        }
    &&& m.exports@.len() == fs.len()
    &&& forall|i: int|
        0 <= i < fs.len() ==> (#[trigger] m.exports@[i]).name@ == fs[i].name@ && m.exports@[i].func_index
            == 2 + i
    &&& m.data_sections@.len() == data.len()
    &&& forall|i: int|
        0 <= i < data.len() ==> (#[trigger] m.data_sections@[i]).offset == data[i].0
            && m.data_sections@[i].data@ == data[i].1
    &&& m.memory_pages == pages_for(size)
}

/// The result of lowering `program`: with the bodies, data and data size,
/// or the first error.
pub open spec fn lower_program(program: Program) -> Result<(Seq<Seq<Instruction>>, Seq<(u32, Seq<u8>)>, int), EmitError> {
    lower_functions(program.structs@, program.functions@, program.functions@, 0)
}

/// The program fits the 32-bit indices and offsets of the module format:
/// function indices, local slot numbers and field offsets.
pub open spec fn fits_indices(program: Program) -> bool {
    &&& program.functions@.len() + 2 <= u32::MAX
    &&& forall|i: int|
        0 <= i < program.functions@.len() ==> (#[trigger] program.functions@[i]).params@.len()
            + program.functions@[i].body@.len() <= u32::MAX
    &&& forall|i: int|
        0 <= i < program.structs@.len() ==> 4 * (#[trigger] program.structs@[i]).fields@.len() <= u32::MAX
}

// ── Facts about the lookups ────────────────────────────────────────

/// `slot_of` finds the first slot with the name.
pub proof fn lemma_slot_of(locals: Seq<(Seq<char>, Type)>, name: Seq<char>)
    ensures
        match slot_of(locals, name) {
            Some(i) => 0 <= i < locals.len() && locals[i].0 == name && forall|j: int|
                0 <= j < i ==> (#[trigger] locals[j]).0 != name,
            None => forall|j: int| 0 <= j < locals.len() ==> (#[trigger] locals[j]).0 != name,
        },
    decreases locals.len(),
{
    if locals.len() > 0 {
        lemma_slot_of(locals.drop_last(), name);
        assert forall|j: int| 0 <= j < locals.len() - 1 implies locals.drop_last()[j] == locals[j] by {}
    }
}

/// `field_index` finds the first field with the name.
pub proof fn lemma_field_index(fields: Seq<(String, Type)>, f: Seq<char>)
    ensures
        match field_index(fields, f) {
            Some(i) => 0 <= i < fields.len() && fields[i].0@ == f && forall|j: int|
                0 <= j < i ==> (#[trigger] fields[j]).0@ != f,
            None => forall|j: int| 0 <= j < fields.len() ==> (#[trigger] fields[j]).0@ != f,
        },
    decreases fields.len(),
{
    if fields.len() > 0 {
        lemma_field_index(fields.drop_last(), f);
        assert forall|j: int| 0 <= j < fields.len() - 1 implies fields.drop_last()[j] == fields[j] by {}
    }
}

/// `struct_fields` finds the last struct definition with the name.
pub proof fn lemma_struct_fields(structs: Seq<StructDef>, name: Seq<char>)
    ensures
        struct_fields(structs, name) is Some <==> exists|i: int| 0 <= i < structs.len() && (#[trigger] structs[i]).name@ == name,
        struct_fields(structs, name) is Some ==> exists|i: int|
            0 <= i < structs.len() && structs[i].name@ == name && struct_fields(structs, name) == Some(
                structs[i].fields@,
            ) && forall|j: int| i < j < structs.len() ==> (#[trigger] structs[j]).name@ != name,
    decreases structs.len(),
{
    if structs.len() > 0 {
        lemma_struct_fields(structs.drop_last(), name);
        assert forall|j: int| 0 <= j < structs.len() - 1 implies structs.drop_last()[j] == structs[j] by {}
        if structs.last().name@ != name {
            if exists|i: int| 0 <= i < structs.len() && (#[trigger] structs[i]).name@ == name {
                let i = choose|i: int| 0 <= i < structs.len() && (#[trigger] structs[i]).name@ == name;
                assert(structs.drop_last()[i].name@ == name);
            }
        } else {
            assert(structs[structs.len() - 1].name@ == name);
        }
    }
}

/// `function_position` finds the last function with the name.
pub proof fn lemma_function_position(functions: Seq<Function>, name: Seq<char>)
    ensures
        match function_position(functions, name) {
            Some(i) => 0 <= i < functions.len() && functions[i].name@ == name && forall|j: int|
                i < j < functions.len() ==> (#[trigger] functions[j]).name@ != name,
            None => forall|j: int| 0 <= j < functions.len() ==> (#[trigger] functions[j]).name@ != name,
        },
    decreases functions.len(),
{
    if functions.len() > 0 {
        lemma_function_position(functions.drop_last(), name);
        assert forall|j: int| 0 <= j < functions.len() - 1 implies functions.drop_last()[j] == functions[j] by {}
    }
}

/// An error in lowering a prefix of a list of expressions is the error
/// of the whole list.
proof fn lemma_lower_exprs_prefix_err(scope: Scope, es: Seq<Expr>, k: int, off: int)
    requires
        0 <= k <= es.len(),
        lower_exprs(scope, es.subrange(0, k), off) is Err,
    ensures
        lower_exprs(scope, es, off) == lower_exprs(scope, es.subrange(0, k), off),
    decreases es.len(),
{
    if k == es.len() {
        assert(es.subrange(0, k) =~= es);
    } else {
        assert(es.drop_last().subrange(0, k) =~= es.subrange(0, k));
        lemma_lower_exprs_prefix_err(scope, es.drop_last(), k, off);
    }
}

/// An error in lowering a prefix of a list of statements is the error of
/// the whole list.
proof fn lemma_lower_stmts_prefix_err(scope: Scope, sts: Seq<Stmt>, k: int, off: int)
    requires
        0 <= k <= sts.len(),
        lower_stmts(scope, sts.subrange(0, k), off) is Err,
    ensures
        lower_stmts(scope, sts, off) == lower_stmts(scope, sts.subrange(0, k), off),
    decreases sts.len(),
{
    if k == sts.len() {
        assert(sts.subrange(0, k) =~= sts);
    } else {
        assert(sts.drop_last().subrange(0, k) =~= sts.subrange(0, k));
        lemma_lower_stmts_prefix_err(scope, sts.drop_last(), k, off);
    }
}

/// An error in lowering a prefix of the functions is the error of the
/// whole program.
proof fn lemma_lower_functions_prefix_err(
    structs: Seq<StructDef>,
    functions: Seq<Function>,
    fs: Seq<Function>,
    k: int,
    off: int,
)
    requires
        0 <= k <= fs.len(),
        lower_functions(structs, functions, fs.subrange(0, k), off) is Err,
    ensures
        lower_functions(structs, functions, fs, off) == lower_functions(structs, functions, fs.subrange(0, k), off),
    decreases fs.len(),
{
    if k == fs.len() {
        assert(fs.subrange(0, k) =~= fs);
    } else {
        assert(fs.drop_last().subrange(0, k) =~= fs.subrange(0, k));
        lemma_lower_functions_prefix_err(structs, functions, fs.drop_last(), k, off);
    }
}

pub(crate) proof fn lemma_param_slots_len(params: Seq<(String, Type)>)
    ensures
        param_slots(params).len() <= params.len(),
    decreases params.len(),
{
    if params.len() > 0 {
        lemma_param_slots_len(params.drop_last());
    }
}

pub(crate) proof fn lemma_declared_slots_len(locals: Seq<(Seq<char>, Type)>, body: Seq<Stmt>)
    ensures
        declared_slots(locals, body).len() <= locals.len() + body.len(),
    decreases body.len(),
{
    if body.len() > 0 {
        lemma_declared_slots_len(locals, body.drop_last());
    }
}

// ── The emitter ──────────────────────────────────────────────────

/// Copies a type.
fn copy_type(t: &Type) -> (r: Type)
    ensures
        r == *t,
{
    match t {
        Type::Int => Type::Int,
        Type::Float => Type::Float,
        Type::Ptr => Type::Ptr,
        Type::Struct(n) => Type::Struct(n.clone()),
    }
}

/// The value type that holds a value of a C type.
fn val_type_of(t: &Type) -> (v: ValType)
    ensures
        v == val_type(*t),
{
    match t {
        Type::Float => ValType::F64,
        _ => ValType::I32,
    }
}

struct WasmEmitter {
    /// Import name → function index.
    import_indices: Vec<(String, u32)>,
    /// Module function name → function index, with its return type; a
    /// later entry for a name overrides an earlier one.
    function_indices: Vec<(String, u32, Type)>,
    /// Struct name → field layout (field name → byte offset); a later entry
    /// for a name overrides an earlier one.
    struct_layouts: Vec<(String, Vec<(String, u32)>)>,
    /// Accumulated data sections for string literals.
    data_sections: Vec<DataSection>,
    /// Next free byte in linear memory (for string literal placement).
    data_offset: u32,
    /// Local slots of the function being lowered: name and declared type.
    locals: Vec<(String, Type)>,
}

impl WasmEmitter {
    /// The data sections, as (offset, bytes).
    spec fn data_view(&self) -> Seq<(u32, Seq<u8>)> {
        self.data_sections@.map_values(|d: DataSection| (d.offset, d.data@))
    }

    /// The import table holds the two host functions.
    spec fn imports_ok(&self) -> bool {
        &&& self.import_indices@.len() == 2
        &&& self.import_indices@[0].0@ == seq!['p', 'r', 'i', 'n', 't', '_', 'i', '3', '2']
        &&& self.import_indices@[0].1 == 0
        &&& self.import_indices@[1].0@ == seq!['p', 'r', 'i', 'n', 't', '_', 's', 't', 'r']
        &&& self.import_indices@[1].1 == 1
    }

    /// The struct layouts are those of `structs`, in order.
    spec fn layouts_match(&self, structs: Seq<StructDef>) -> bool {
        &&& self.struct_layouts@.len() == structs.len()
        &&& forall|i: int|
            0 <= i < structs.len() ==> {
                &&& (#[trigger] self.struct_layouts@[i]).0@ == structs[i].name@
                &&& self.struct_layouts@[i].1@.len() == structs[i].fields@.len()
                &&& forall|k: int|
                    0 <= k < structs[i].fields@.len() ==> (#[trigger] self.struct_layouts@[i].1@[k]).0@
                        == structs[i].fields@[k].0@ && self.struct_layouts@[i].1@[k].1 == 4 * k
            }
    }

    /// The function table is that of `functions`, in order.
    spec fn functions_match(&self, functions: Seq<Function>) -> bool {
        &&& self.function_indices@.len() == functions.len()
        &&& forall|i: int|
            0 <= i < functions.len() ==> {
                &&& (#[trigger] self.function_indices@[i]).0@ == functions[i].name@
                &&& self.function_indices@[i].1 == 2 + i
                &&& self.function_indices@[i].2 == functions[i].return_type
            }
    }

    /// The local slots are `locals`.
    spec fn locals_match(&self, locals: Seq<(Seq<char>, Type)>) -> bool {
        &&& self.locals@.len() == locals.len()
        &&& locals.len() <= u32::MAX
        &&& forall|i: int|
            0 <= i < locals.len() ==> (#[trigger] self.locals@[i]).0@ == locals[i].0 && self.locals@[i].1
                == locals[i].1
    }

    /// The emitter's tables describe `scope`, and the data offset is in range.
    spec fn matches(&self, scope: Scope) -> bool {
        &&& self.imports_ok()
        &&& self.layouts_match(scope.structs)
        &&& self.functions_match(scope.functions)
        &&& self.locals_match(scope.locals)
        &&& self.data_offset <= i32::MAX
    }

    /// The tables other than data are unchanged from `old`.
    spec fn same_tables(&self, old: &Self) -> bool {
        &&& self.import_indices == old.import_indices
        &&& self.function_indices == old.function_indices
        &&& self.struct_layouts == old.struct_layouts
        &&& self.locals == old.locals
    }

    /// Slot number of `name` in the current function.
    fn lookup_slot(&self, Ghost(scope): Ghost<Scope>, name: &String) -> (r: Option<u32>)
        requires
            self.matches(scope),
        ensures
            match slot_of(scope.locals, name@) {
                Some(i) => r == Some(i as u32) && i <= u32::MAX,
                None => r is None,
            },
    {
        let mut i: usize = 0;
        while i < self.locals.len()
            invariant
                self.matches(scope),
                0 <= i <= self.locals@.len(),
                forall|j: int| 0 <= j < i ==> (#[trigger] scope.locals[j]).0 != name@,
            decreases self.locals@.len() - i,
        {
            if self.locals[i].0 == *name {
                proof {
                    lemma_slot_of(scope.locals, name@);
                    if let Some(k) = slot_of(scope.locals, name@) {
                        if k < i {
                            assert(scope.locals[k].0 != name@);
                        }
                        if k > i {
                            assert(scope.locals[i as int].0 == name@);
                        }
                    }
                }
                return Some(i as u32);
            }
            i = i + 1;
        }
        proof {
            lemma_slot_of(scope.locals, name@);
        }
        None
    }

    /// Byte offset of field `f` of a value of type `ty`.
    fn lookup_field(&self, Ghost(scope): Ghost<Scope>, ty: &Type, f: &String) -> (r: Option<u32>)
        requires
            self.matches(scope),
        ensures
            match field_offset(scope.structs, *ty, f@) {
                Some(k) => r == Some(k as u32) && 0 <= k <= u32::MAX,
                None => r is None,
            },
    {
        let sname = match ty {
            Type::Struct(n) => n,
            _ => {
                return None;
            },
        };
        // the last layout with this name
        let mut i: usize = self.struct_layouts.len();
        while i > 0 && !(self.struct_layouts[i - 1].0 == *sname)
            invariant
                self.matches(scope),
                0 <= i <= scope.structs.len(),
                forall|j: int| i <= j < scope.structs.len() ==> (#[trigger] scope.structs[j]).name@ != sname@,
            decreases i,
        {
            i = i - 1;
        }
        proof {
            lemma_struct_fields(scope.structs, sname@);
        }
        if i == 0 {
            return None;
        }
        let ghost si = i - 1;
        proof {
            assert(scope.structs[si].name@ == sname@);
            assert(struct_fields(scope.structs, sname@) == Some(scope.structs[si].fields@)) by {
                let w = choose|w: int|
                    0 <= w < scope.structs.len() && scope.structs[w].name@ == sname@ && struct_fields(
                        scope.structs,
                        sname@,
                    ) == Some(scope.structs[w].fields@) && forall|j: int|
                        w < j < scope.structs.len() ==> (#[trigger] scope.structs[j]).name@ != sname@;
                if w < si {
                    assert(scope.structs[si].name@ != sname@);
                }
                if w > si {
                    assert(scope.structs[w].name@ != sname@);
                }
            }
        }
        let layout = &self.struct_layouts[i - 1].1;
        let ghost fields = scope.structs[si].fields@;
        let mut k: usize = 0;
        while k < layout.len()
            invariant
                self.matches(scope),
                layout == self.struct_layouts@[si].1,
                layout@.len() == fields.len(),
                fields == scope.structs[si].fields@,
                0 <= si < scope.structs.len(),
                *ty == Type::Struct(*sname),
                struct_fields(scope.structs, sname@) == Some(fields),
                0 <= k <= layout@.len(),
                forall|j: int| 0 <= j < k ==> (#[trigger] fields[j]).0@ != f@,
            decreases layout@.len() - k,
        {
            if layout[k].0 == *f {
                proof {
                    lemma_field_index(fields, f@);
                    if let Some(m) = field_index(fields, f@) {
                        if m < k {
                            assert(fields[m].0@ != f@);
                        }
                        if m > k {
                            assert(fields[k as int].0@ == f@);
                        }
                    }
                    assert(layout@[k as int].1 == 4 * k);
                }
                return Some(layout[k].1);
            }
            k = k + 1;
        }
        proof {
            lemma_field_index(fields, f@);
        }
        None
    }

    /// Function index that a call of `name` targets.
    fn lookup_function(&self, Ghost(scope): Ghost<Scope>, name: &String) -> (r: Option<u32>)
        requires
            self.matches(scope),
            scope.functions.len() + 2 <= u32::MAX,
        ensures
            match call_index(scope.functions, name@) {
                Some(i) => r == Some(i as u32) && 0 <= i <= u32::MAX,
                None => r is None,
            },
    {
        if self.import_indices[0].0 == *name {
            return Some(self.import_indices[0].1);
        }
        if self.import_indices[1].0 == *name {
            return Some(self.import_indices[1].1);
        }
        let mut i: usize = self.function_indices.len();
        while i > 0
            invariant
                self.matches(scope),
                scope.functions.len() + 2 <= u32::MAX,
                0 <= i <= scope.functions.len(),
                import_index(name@) is None,
                forall|j: int| i <= j < scope.functions.len() ==> (#[trigger] scope.functions[j]).name@ != name@,
            decreases i,
        {
            if self.function_indices[i - 1].0 == *name {
                proof {
                    lemma_function_position(scope.functions, name@);
                    let w = i - 1;
                    assert(scope.functions[w].name@ == name@);
                    if let Some(m) = function_position(scope.functions, name@) {
                        if m < w {
                            assert(scope.functions[w].name@ != name@);
                        }
                        if m > w {
                            assert(scope.functions[m].name@ != name@);
                        }
                    }
                }
                return Some(self.function_indices[i - 1].1);
            }
            i = i - 1;
        }
        proof {
            lemma_function_position(scope.functions, name@);
        }
        None
    }

    /// The type an expression is taken to have (see `expr_type`).
    fn expr_type(&self, Ghost(scope): Ghost<Scope>, e: &Expr) -> (t: Type)
        requires
            self.matches(scope),
            scope.functions.len() + 2 <= u32::MAX,
        ensures
            t == expr_type(scope, *e),
        decreases e,
    {
        match e {
            Expr::FloatLit(_) => Type::Float,
            Expr::StringLit(_) => Type::Ptr,
            Expr::Var(x) => match self.lookup_slot(Ghost(scope), x) {
                Some(i) => {
                    proof {
                        lemma_slot_of(scope.locals, x@);
                    }
                    copy_type(&self.locals[i as usize].1)
                },
                None => Type::Int,
            },
            Expr::BinOp(l, _, _) => self.expr_type(Ghost(scope), l),
            Expr::Call(f, _) => {
                if self.import_indices[0].0 == *f || self.import_indices[1].0 == *f {
                    return Type::Int;
                }
                match self.lookup_function(Ghost(scope), f) {
                    Some(idx) => {
                        proof {
                            lemma_function_position(scope.functions, f@);
                            assert(import_index(f@) is None);
                        }
                        copy_type(&self.function_indices[(idx - 2) as usize].2)
                    },
                    None => Type::Int,
                }
            },
            _ => Type::Int,
        }
    }

    /// The instruction for an arithmetic operator on values of type `ty`.
    fn op_to_instruction(&self, op: &Op, ty: &Type) -> (i: Instruction)
        ensures
            i == op_instr(*op, *ty),
    {
        match ty {
            Type::Float => match op {
                Op::Add => Instruction::F64Add,
                Op::Sub => Instruction::F64Sub,
                Op::Mul => Instruction::F64Mul,
                Op::Div => Instruction::F64Div,
            },
            _ => match op {
                Op::Add => Instruction::I32Add,
                Op::Sub => Instruction::I32Sub,
                Op::Mul => Instruction::I32Mul,
                Op::Div => Instruction::I32Div,
            },
        }
    }

    /// Places the UTF-8 bytes of `s` at the next free offset of linear
    /// memory; gives (offset, length).
    fn add_string_literal(&mut self, s: &str) -> (r: Result<(u32, u32), EmitError>)
        requires
            old(self).data_offset <= i32::MAX,
        ensures
            final(self).same_tables(old(self)),
            final(self).data_offset <= i32::MAX,
            ({
                let bytes = vstd::utf8::encode_utf8(s@);
                if old(self).data_offset + bytes.len() > i32::MAX {
                    r matches Err(EmitError::DataOverflow)
                } else {
                    &&& r == Ok::<(u32, u32), EmitError>((old(self).data_offset, bytes.len() as u32))
                    &&& final(self).data_view() == old(self).data_view().push((old(self).data_offset, bytes))
                    &&& final(self).data_offset == old(self).data_offset + bytes.len()
                }
            }),
    {
        let bytes = s.as_bytes();
        let len = bytes.len();
        if len > 2147483647 || self.data_offset as usize > 2147483647 - len {
            return Err(EmitError::DataOverflow);
        }
        let mut data: Vec<u8> = Vec::new();
        let mut k: usize = 0;
        while k < len
            invariant
                len == bytes@.len(),
                0 <= k <= len,
                data@ == bytes@.subrange(0, k as int),
            decreases len - k,
        {
            data.push(bytes[k]);
            k = k + 1;
            assert(data@ =~= bytes@.subrange(0, k as int));
        }
        assert(bytes@.subrange(0, len as int) =~= bytes@);
        let offset = self.data_offset;
        let ghost before = self.data_view();
        self.data_sections.push(DataSection { offset, data });
        assert(self.data_view() =~= before.push((offset, bytes@)));
        self.data_offset = offset + len as u32;
        Ok((offset, len as u32))
    }

    /// Appends the code of an expression to `instrs` (see `lower_expr`).
    fn emit_expr(&mut self, Ghost(scope): Ghost<Scope>, expr: &Expr, instrs: &mut Vec<Instruction>) -> (r: Result<(), EmitError>)
        requires
            old(self).matches(scope),
            scope.functions.len() + 2 <= u32::MAX,
        ensures
            final(self).same_tables(old(self)),
            final(self).matches(scope),
            match lower_expr(scope, *expr, old(self).data_offset as int) {
                Ok(a) => {
                    &&& r is Ok
                    &&& final(instrs)@ == old(instrs)@ + a.0
                    &&& final(self).data_view() == old(self).data_view() + a.1
                    &&& final(self).data_offset == a.2
                },
                Err(e) => r == Err::<(), EmitError>(e),
            },
        decreases expr,
    {
        let ghost i0 = instrs@;
        let ghost d0 = self.data_view();
        match expr {
            Expr::IntLit(n) => {
                instrs.push(Instruction::I32Const(*n));
                assert(self.data_view() =~= d0 + Seq::empty());
                Ok(())
            },
            Expr::FloatLit(text) => {
                instrs.push(Instruction::F64Const(text.clone()));
                assert(self.data_view() =~= d0 + Seq::empty());
                Ok(())
            },
            Expr::StringLit(text) => {
                match self.add_string_literal(text.as_str()) {
                    Ok((offset, len)) => {
                        instrs.push(Instruction::I32Const(offset as i32));
                        instrs.push(Instruction::I32Const(len as i32));
                        Ok(())
                    },
                    Err(e) => Err(e),
                }
            },
            Expr::Var(name) => match self.lookup_slot(Ghost(scope), name) {
                Some(slot) => {
                    instrs.push(Instruction::LocalGet(slot));
                    assert(self.data_view() =~= d0 + Seq::empty());
                    Ok(())
                },
                None => Err(EmitError::UnknownVariable(name.clone())),
            },
            Expr::BinOp(l, op, rhs) => {
                match self.emit_expr(Ghost(scope), l, instrs) {
                    Ok(()) => {},
                    Err(e) => {
                        return Err(e);
                    },
                }
                let ghost i1 = instrs@;
                let ghost d1 = self.data_view();
                match self.emit_expr(Ghost(scope), rhs, instrs) {
                    Ok(()) => {},
                    Err(e) => {
                        return Err(e);
                    },
                }
                let ty = self.expr_type(Ghost(scope), l);
                let instr = self.op_to_instruction(op, &ty);
                instrs.push(instr);
                proof {
                    let a = lower_expr(scope, **l, old(self).data_offset as int)->Ok_0;
                    let b = lower_expr(scope, **rhs, a.2)->Ok_0;
                    assert(instrs@ =~= i0 + (a.0 + b.0 + seq![instr]));
                    assert(self.data_view() =~= d0 + (a.1 + b.1 + Seq::empty()));
                }
                Ok(())
            },
            Expr::Call(name, args) => {
                let mut k: usize = 0;
                assert(args@.subrange(0, 0) =~= Seq::<Expr>::empty());
                assert(instrs@ =~= i0 + Seq::empty());
                assert(self.data_view() =~= d0 + Seq::empty());
                while k < args.len()
                    invariant
                        old(self).matches(scope),
                        scope.functions.len() + 2 <= u32::MAX,
                        self.same_tables(old(self)),
                        self.matches(scope),
                        0 <= k <= args@.len(),
                        *expr == Expr::Call(*name, *args),
                        lower_exprs(scope, args@.subrange(0, k as int), old(self).data_offset as int) matches Ok(a)
                            && instrs@ == i0 + a.0 && self.data_view() == d0 + a.1 && self.data_offset == a.2,
                    decreases args@.len() - k,
                {
                    let ghost prev = lower_exprs(scope, args@.subrange(0, k as int), old(self).data_offset as int)->Ok_0;
                    let ghost ik = instrs@;
                    let ghost dk = self.data_view();
                    proof {
                        assert(args@.subrange(0, k + 1).drop_last() =~= args@.subrange(0, k as int));
                        assert(args@.subrange(0, k + 1).last() == args@[k as int]);
                    }
                    match self.emit_expr(Ghost(scope), &args[k], instrs) {
                        Ok(()) => {},
                        Err(e) => {
                            proof {
                                lemma_lower_exprs_prefix_err(scope, args@, k + 1, old(self).data_offset as int);
                                assert(args@.subrange(0, k + 1) =~= args@.subrange(0, k + 1));
                            }
                            return Err(e);
                        },
                    }
                    proof {
                        let b = lower_expr(scope, args@[k as int], prev.2)->Ok_0;
                        assert(instrs@ =~= i0 + (prev.0 + b.0));
                        assert(self.data_view() =~= d0 + (prev.1 + b.1));
                    }
                    k = k + 1;
                }
                assert(args@.subrange(0, args@.len() as int) =~= args@);
                match self.lookup_function(Ghost(scope), name) {
                    Some(index) => {
                        let ghost a = lower_exprs(scope, args@, old(self).data_offset as int)->Ok_0;
                        instrs.push(Instruction::Call(index));
                        assert(instrs@ =~= i0 + (a.0 + seq![Instruction::Call(index)]));
                        assert(self.data_view() =~= d0 + (a.1 + Seq::empty()));
                        Ok(())
                    },
                    None => Err(EmitError::UnknownFunction(name.clone())),
                }
            },
            Expr::FieldAccess(obj, field) => {
                match self.emit_expr(Ghost(scope), obj, instrs) {
                    Ok(()) => {},
                    Err(e) => {
                        return Err(e);
                    },
                }
                let ty = self.expr_type(Ghost(scope), obj);
                match self.lookup_field(Ghost(scope), &ty, field) {
                    Some(offset) => {
                        let ghost a = lower_expr(scope, **obj, old(self).data_offset as int)->Ok_0;
                        instrs.push(Instruction::I32Load(offset));
                        assert(instrs@ =~= i0 + (a.0 + seq![Instruction::I32Load(offset)]));
                        assert(self.data_view() =~= d0 + (a.1 + Seq::empty()));
                        Ok(())
                    },
                    None => Err(EmitError::UnknownField(field.clone())),
                }
            },
        }
    }

    /// Appends the code of a statement to `instrs` (see `lower_stmt`).
    fn emit_stmt(&mut self, Ghost(scope): Ghost<Scope>, stmt: &Stmt, instrs: &mut Vec<Instruction>) -> (r: Result<(), EmitError>)
        requires
            old(self).matches(scope),
            scope.functions.len() + 2 <= u32::MAX,
        ensures
            final(self).same_tables(old(self)),
            final(self).matches(scope),
            match lower_stmt(scope, *stmt, old(self).data_offset as int) {
                Ok(a) => {
                    &&& r is Ok
                    &&& final(instrs)@ == old(instrs)@ + a.0
                    &&& final(self).data_view() == old(self).data_view() + a.1
                    &&& final(self).data_offset == a.2
                },
                Err(e) => r == Err::<(), EmitError>(e),
            },
    {
        let ghost i0 = instrs@;
        let ghost d0 = self.data_view();
        match stmt {
            Stmt::Return(e) => {
                match self.emit_expr(Ghost(scope), e, instrs) {
                    Ok(()) => {},
                    Err(err) => {
                        return Err(err);
                    },
                }
                let ghost a = lower_expr(scope, *e, old(self).data_offset as int)->Ok_0;
                instrs.push(Instruction::Return);
                assert(instrs@ =~= i0 + (a.0 + seq![Instruction::Return]));
                assert(self.data_view() =~= d0 + (a.1 + Seq::empty()));
                Ok(())
            },
            Stmt::Let(name, _ty, init) => match init {
                Some(e) => {
                    match self.emit_expr(Ghost(scope), e, instrs) {
                        Ok(()) => {},
                        Err(err) => {
                            return Err(err);
                        },
                    }
                    match self.lookup_slot(Ghost(scope), name) {
                        Some(slot) => {
                            let ghost a = lower_expr(scope, *e, old(self).data_offset as int)->Ok_0;
                            instrs.push(Instruction::LocalSet(slot));
                            assert(instrs@ =~= i0 + (a.0 + seq![Instruction::LocalSet(slot)]));
                            assert(self.data_view() =~= d0 + (a.1 + Seq::empty()));
                            Ok(())
                        },
                        None => Err(EmitError::UnknownVariable(name.clone())),
                    }
                },
                None => {
                    assert(instrs@ =~= i0 + Seq::empty());
                    assert(self.data_view() =~= d0 + Seq::empty());
                    Ok(())
                },
            },
            Stmt::Assign(name, e) => {
                match self.emit_expr(Ghost(scope), e, instrs) {
                    Ok(()) => {},
                    Err(err) => {
                        return Err(err);
                    },
                }
                match self.lookup_slot(Ghost(scope), name) {
                    Some(slot) => {
                        let ghost a = lower_expr(scope, *e, old(self).data_offset as int)->Ok_0;
                        instrs.push(Instruction::LocalSet(slot));
                        assert(instrs@ =~= i0 + (a.0 + seq![Instruction::LocalSet(slot)]));
                        assert(self.data_view() =~= d0 + (a.1 + Seq::empty()));
                        Ok(())
                    },
                    None => Err(EmitError::UnknownVariable(name.clone())),
                }
            },
            Stmt::FieldAssign(var, field, e) => {
                let slot = match self.lookup_slot(Ghost(scope), var) {
                    Some(slot) => slot,
                    None => {
                        return Err(EmitError::UnknownVariable(var.clone()));
                    },
                };
                proof {
                    lemma_slot_of(scope.locals, var@);
                }
                let offset = match self.lookup_field(Ghost(scope), &self.locals[slot as usize].1, field) {
                    Some(offset) => offset,
                    None => {
                        return Err(EmitError::UnknownField(field.clone()));
                    },
                };
                // address first, then the value
                instrs.push(Instruction::LocalGet(slot));
                match self.emit_expr(Ghost(scope), e, instrs) {
                    Ok(()) => {},
                    Err(err) => {
                        return Err(err);
                    },
                }
                let ghost a = lower_expr(scope, *e, old(self).data_offset as int)->Ok_0;
                instrs.push(Instruction::I32Store(offset));
                assert(instrs@ =~= i0 + (seq![Instruction::LocalGet(slot)] + a.0 + seq![Instruction::I32Store(offset)]));
                assert(self.data_view() =~= d0 + (Seq::empty() + a.1 + Seq::empty()));
                Ok(())
            },
            Stmt::Expr(e) => self.emit_expr(Ghost(scope), e, instrs),
        }
    }

    /// Adds a slot for `name` unless the current function has one.
    fn declare(
        &mut self,
        Ghost(structs): Ghost<Seq<StructDef>>,
        Ghost(functions): Ghost<Seq<Function>>,
        Ghost(cur): Ghost<Seq<(Seq<char>, Type)>>,
        name: &String,
        ty: &Type,
    )
        requires
            old(self).matches(Scope { structs, functions, locals: cur }),
            cur.len() + 1 <= u32::MAX,
        ensures
            final(self).matches(Scope { structs, functions, locals: declare(cur, name@, *ty) }),
            final(self).import_indices == old(self).import_indices,
            final(self).function_indices == old(self).function_indices,
            final(self).struct_layouts == old(self).struct_layouts,
            final(self).data_sections == old(self).data_sections,
            final(self).data_offset == old(self).data_offset,
    {
        let ghost scope = Scope { structs, functions, locals: cur };
        match self.lookup_slot(Ghost(scope), name) {
            Some(_) => {},
            None => {
                self.locals.push((name.clone(), copy_type(ty)));
            },
        }
    }

    /// Lowers one function (see `lower_stmts` and `function_slots`).
    fn emit_function(
        &mut self,
        Ghost(structs): Ghost<Seq<StructDef>>,
        Ghost(functions): Ghost<Seq<Function>>,
        func: &Function,
    ) -> (r: Result<WasmFunction, EmitError>)
        requires
            old(self).matches(Scope { structs, functions, locals: old(self).locals@.map_values(|l: (String, Type)| (l.0@, l.1)) }),
            functions.len() + 2 <= u32::MAX,
            func.params@.len() + func.body@.len() <= u32::MAX,
        ensures
            final(self).import_indices == old(self).import_indices,
            final(self).function_indices == old(self).function_indices,
            final(self).struct_layouts == old(self).struct_layouts,
            final(self).matches(function_scope(structs, functions, *func)),
            match lower_stmts(function_scope(structs, functions, *func), func.body@, old(self).data_offset as int) {
                Ok(a) => r matches Ok(wf) && {
                    &&& wf.name@ == func.name@
                    &&& wf.func_type.params@ == param_types(*func)
                    &&& wf.func_type.results@ == seq![val_type(func.return_type)]
                    &&& wf.locals@ == local_types(*func)
                    &&& wf.body@ == a.0
                    &&& final(self).data_view() == old(self).data_view() + a.1
                    &&& final(self).data_offset == a.2
                },
                Err(e) => r matches Err(x) && x == e,
            },
    {
        // 1. Local slots: parameters, then declarations
        self.locals = Vec::new();
        let ghost params = func.params@;
        let ghost body = func.body@;
        let mut k: usize = 0;
        proof {
            assert(params.subrange(0, 0) =~= Seq::<(String, Type)>::empty());
        }
        while k < func.params.len()
            invariant
                0 <= k <= params.len(),
                params == func.params@,
                body == func.body@,
                params.len() + body.len() <= u32::MAX,
                self.matches(Scope { structs, functions, locals: param_slots(params.subrange(0, k as int)) }),
                self.import_indices == old(self).import_indices,
                self.function_indices == old(self).function_indices,
                self.struct_layouts == old(self).struct_layouts,
                self.data_sections == old(self).data_sections,
                self.data_offset == old(self).data_offset,
            decreases params.len() - k,
        {
            let ghost cur = param_slots(params.subrange(0, k as int));
            proof {
                lemma_param_slots_len(params.subrange(0, k as int));
                assert(params.subrange(0, k + 1).drop_last() =~= params.subrange(0, k as int));
            }
            self.declare(Ghost(structs), Ghost(functions), Ghost(cur), &func.params[k].0, &func.params[k].1);
            k = k + 1;
        }
        assert(params.subrange(0, params.len() as int) =~= params);
        let ghost pslots = param_slots(params);
        let mut k: usize = 0;
        proof {
            assert(body.subrange(0, 0) =~= Seq::<Stmt>::empty());
            lemma_param_slots_len(params);
        }
        while k < func.body.len()
            invariant
                0 <= k <= body.len(),
                params == func.params@,
                body == func.body@,
                pslots == param_slots(params),
                pslots.len() <= params.len(),
                params.len() + body.len() <= u32::MAX,
                self.matches(Scope { structs, functions, locals: declared_slots(pslots, body.subrange(0, k as int)) }),
                self.import_indices == old(self).import_indices,
                self.function_indices == old(self).function_indices,
                self.struct_layouts == old(self).struct_layouts,
                self.data_sections == old(self).data_sections,
                self.data_offset == old(self).data_offset,
            decreases body.len() - k,
        {
            let ghost cur = declared_slots(pslots, body.subrange(0, k as int));
            proof {
                lemma_declared_slots_len(pslots, body.subrange(0, k as int));
                assert(body.subrange(0, k + 1).drop_last() =~= body.subrange(0, k as int));
                assert(body.subrange(0, k + 1).last() == body[k as int]);
            }
            match &func.body[k] {
                Stmt::Let(name, ty, _) => {
                    self.declare(Ghost(structs), Ghost(functions), Ghost(cur), name, ty);
                },
                _ => {},
            }
            k = k + 1;
        }
        assert(body.subrange(0, body.len() as int) =~= body);
        let ghost scope = function_scope(structs, functions, *func);

        // 2. Signature and local types
        let mut param_vt: Vec<ValType> = Vec::new();
        let mut k: usize = 0;
        while k < func.params.len()
            invariant
                0 <= k <= func.params@.len(),
                param_vt@ == func.params@.subrange(0, k as int).map_values(|p: (String, Type)| val_type(p.1)),
            decreases func.params@.len() - k,
        {
            param_vt.push(val_type_of(&func.params[k].1));
            k = k + 1;
            assert(param_vt@ =~= func.params@.subrange(0, k as int).map_values(|p: (String, Type)| val_type(p.1)));
        }
        assert(func.params@.subrange(0, func.params@.len() as int) =~= func.params@);
        let mut results: Vec<ValType> = Vec::new();
        results.push(val_type_of(&func.return_type));
        let mut local_vt: Vec<ValType> = Vec::new();
        let mut k: usize = 0;
        while k < self.locals.len()
            invariant
                self.matches(scope),
                0 <= k <= scope.locals.len(),
                local_vt@ == scope.locals.subrange(0, k as int).map_values(|l: (Seq<char>, Type)| val_type(l.1)),
            decreases scope.locals.len() - k,
        {
            local_vt.push(val_type_of(&self.locals[k].1));
            k = k + 1;
            assert(local_vt@ =~= scope.locals.subrange(0, k as int).map_values(|l: (Seq<char>, Type)| val_type(l.1)));
        }
        assert(scope.locals.subrange(0, scope.locals.len() as int) =~= scope.locals);

        // 3. Body
        let mut instrs: Vec<Instruction> = Vec::new();
        let ghost d0 = self.data_view();
        let ghost off0 = self.data_offset as int;
        let mut k: usize = 0;
        assert(instrs@ =~= Seq::<Instruction>::empty());
        assert(d0 + Seq::<(u32, Seq<u8>)>::empty() =~= d0);
        while k < func.body.len()
            invariant
                0 <= k <= body.len(),
                body == func.body@,
                functions.len() + 2 <= u32::MAX,
                scope == function_scope(structs, functions, *func),
                off0 == old(self).data_offset as int,
                d0 == old(self).data_view(),
                self.matches(scope),
                self.import_indices == old(self).import_indices,
                self.function_indices == old(self).function_indices,
                self.struct_layouts == old(self).struct_layouts,
                lower_stmts(scope, body.subrange(0, k as int), off0) matches Ok(a) && instrs@ == a.0
                    && self.data_view() == d0 + a.1 && self.data_offset == a.2,
            decreases body.len() - k,
        {
            let ghost prev = lower_stmts(scope, body.subrange(0, k as int), off0)->Ok_0;
            let ghost dk = self.data_view();
            proof {
                assert(body.subrange(0, k + 1).drop_last() =~= body.subrange(0, k as int));
                assert(body.subrange(0, k + 1).last() == body[k as int]);
            }
            match self.emit_stmt(Ghost(scope), &func.body[k], &mut instrs) {
                Ok(()) => {},
                Err(e) => {
                    proof {
                        lemma_lower_stmts_prefix_err(scope, body, k + 1, off0);
                    }
                    return Err(e);
                },
            }
            proof {
                let b = lower_stmt(scope, body[k as int], prev.2)->Ok_0;
                assert(self.data_view() =~= d0 + (prev.1 + b.1));
            }
            k = k + 1;
        }
        assert(body.subrange(0, body.len() as int) =~= body);
        Ok(WasmFunction {
            name: func.name.clone(),
            func_type: FuncType::new(param_vt, results),
            locals: local_vt,
            body: instrs,
        })
    }

    fn new() -> (e: Self)
        ensures
            e.import_indices@.len() == 0,
            e.function_indices@.len() == 0,
            e.struct_layouts@.len() == 0,
            e.data_sections@.len() == 0,
            e.data_offset == 0,
            e.locals@.len() == 0,
    {
        WasmEmitter {
            import_indices: Vec::new(),
            function_indices: Vec::new(),
            struct_layouts: Vec::new(),
            data_sections: Vec::new(),
            data_offset: 0,
            locals: Vec::new(),
        }
    }

    /// Records the layout of a struct: each field 4 bytes, in order.
    fn register_struct(&mut self, Ghost(structs): Ghost<Seq<StructDef>>, s: &StructDef)
        requires
            old(self).layouts_match(structs),
            4 * s.fields@.len() <= u32::MAX,
        ensures
            final(self).layouts_match(structs.push(*s)),
            final(self).import_indices == old(self).import_indices,
            final(self).function_indices == old(self).function_indices,
            final(self).data_sections == old(self).data_sections,
            final(self).data_offset == old(self).data_offset,
            final(self).locals == old(self).locals,
    {
        let mut layout: Vec<(String, u32)> = Vec::new();
        let mut k: usize = 0;
        while k < s.fields.len()
            invariant
                0 <= k <= s.fields@.len(),
                4 * s.fields@.len() <= u32::MAX,
                layout@.len() == k,
                forall|j: int|
                    0 <= j < k ==> (#[trigger] layout@[j]).0@ == s.fields@[j].0@ && layout@[j].1 == 4 * j,
            decreases s.fields@.len() - k,
        {
            layout.push((s.fields[k].0.clone(), 4 * k as u32));
            k = k + 1;
        }
        let ghost before = self.struct_layouts@;
        self.struct_layouts.push((s.name.clone(), layout));
        assert forall|i: int| 0 <= i < structs.len() implies #[trigger] self.struct_layouts@[i] == before[i] by {}
    }

    /// The host functions every module imports; records their indices.
    fn build_imports(&mut self) -> (imports: Vec<WasmImport>)
        ensures
            final(self).imports_ok(),
            imports@.len() == 2,
            forall|k: int| 0 <= k < 2 ==> standard_import(k, #[trigger] imports@[k]),
            final(self).function_indices == old(self).function_indices,
            final(self).struct_layouts == old(self).struct_layouts,
            final(self).data_sections == old(self).data_sections,
            final(self).data_offset == old(self).data_offset,
            final(self).locals == old(self).locals,
    {
        proof {
            reveal_strlit("print_i32");
            reveal_strlit("print_str");
            reveal_strlit("env");
            assert("print_i32"@ =~= seq!['p', 'r', 'i', 'n', 't', '_', 'i', '3', '2']);
            assert("print_str"@ =~= seq!['p', 'r', 'i', 'n', 't', '_', 's', 't', 'r']);
            assert("env"@ =~= seq!['e', 'n', 'v']);
        }
        let mut i32_param: Vec<ValType> = Vec::new();
        i32_param.push(ValType::I32);
        let mut str_params: Vec<ValType> = Vec::new();
        str_params.push(ValType::I32);
        str_params.push(ValType::I32);
        let mut imports: Vec<WasmImport> = Vec::new();
        imports.push(WasmImport {
            module: "env".to_owned(),
            name: "print_i32".to_owned(),
            func_type: FuncType::new(i32_param, Vec::new()),
        });
        imports.push(WasmImport {
            module: "env".to_owned(),
            name: "print_str".to_owned(),
            func_type: FuncType::new(str_params, Vec::new()),
        });
        let mut indices: Vec<(String, u32)> = Vec::new();
        indices.push(("print_i32".to_owned(), 0));
        indices.push(("print_str".to_owned(), 1));
        self.import_indices = indices;
        assert(imports@[0].func_type.params@ =~= seq![ValType::I32]);
        assert(imports@[1].func_type.params@ =~= seq![ValType::I32, ValType::I32]);
        imports
    }

    /// Lowers a whole program (see `lower_program` and `lowered_module`).
    #[verifier::rlimit(60)]
    fn emit_program(&mut self, program: &Program) -> (r: Result<WasmModule, EmitError>)
        requires
            old(self).import_indices@.len() == 0,
            old(self).function_indices@.len() == 0,
            old(self).struct_layouts@.len() == 0,
            old(self).data_sections@.len() == 0,
            old(self).data_offset == 0,
            old(self).locals@.len() == 0,
            fits_indices(*program),
        ensures
            match lower_program(*program) {
                Ok(a) => r matches Ok(m) && lowered_module(*program, a.0, a.1, a.2, m),
                Err(e) => r matches Err(x) && x == e,
            },
    {
        let ghost structs = program.structs@;
        let ghost functions = program.functions@;
        // 1. Register struct layouts
        let mut k: usize = 0;
        assert(structs.subrange(0, 0) =~= Seq::<StructDef>::empty());
        while k < program.structs.len()
            invariant
                0 <= k <= structs.len(),
                structs == program.structs@,
                fits_indices(*program),
                self.layouts_match(structs.subrange(0, k as int)),
                self.import_indices@.len() == 0,
                self.function_indices@.len() == 0,
                self.data_sections@.len() == 0,
                self.data_offset == 0,
                self.locals@.len() == 0,
            decreases structs.len() - k,
        {
            let ghost _ = program.structs@[k as int];
            self.register_struct(Ghost(structs.subrange(0, k as int)), &program.structs[k]);
            k = k + 1;
            assert(structs.subrange(0, k - 1).push(structs[k - 1]) =~= structs.subrange(0, k as int));
        }
        assert(structs.subrange(0, structs.len() as int) =~= structs);

        // 2. Imports for the host functions
        let imports = self.build_imports();

        // 3. Function indices: imports first, then module functions
        let import_count = imports.len() as u32;
        let mut k: usize = 0;
        while k < program.functions.len()
            invariant
                0 <= k <= functions.len(),
                functions == program.functions@,
                import_count == 2,
                fits_indices(*program),
                self.function_indices@.len() == k,
                forall|i: int|
                    0 <= i < k ==> {
                        &&& (#[trigger] self.function_indices@[i]).0@ == functions[i].name@
                        &&& self.function_indices@[i].1 == 2 + i
                        &&& self.function_indices@[i].2 == functions[i].return_type
                    },
                self.imports_ok(),
                self.layouts_match(structs),
                self.data_sections@.len() == 0,
                self.data_offset == 0,
                self.locals@.len() == 0,
            decreases functions.len() - k,
        {
            let f = &program.functions[k];
            self.function_indices.push((f.name.clone(), import_count + k as u32, copy_type(&f.return_type)));
            k = k + 1;
        }

        // 4. Lower each function, exporting it under its name
        let mut out: Vec<WasmFunction> = Vec::new();
        let mut exports: Vec<WasmExport> = Vec::new();
        let mut k: usize = 0;
        assert(functions.subrange(0, 0) =~= Seq::<Function>::empty());
        assert(self.data_view() =~= Seq::<(u32, Seq<u8>)>::empty());
        assert(self.locals@.map_values(|l: (String, Type)| (l.0@, l.1)) =~= Seq::<(Seq<char>, Type)>::empty());
        while k < program.functions.len()
            invariant
                0 <= k <= functions.len(),
                functions == program.functions@,
                structs == program.structs@,
                import_count == 2,
                fits_indices(*program),
                self.matches(Scope { structs, functions, locals: self.locals@.map_values(|l: (String, Type)| (l.0@, l.1)) }),
                lower_functions(structs, functions, functions.subrange(0, k as int), 0) matches Ok(a) && {
                    &&& a.0.len() == k
                    &&& out@.len() == k
                    &&& exports@.len() == k
                    &&& forall|i: int|
                        0 <= i < k ==> {
                            &&& (#[trigger] out@[i]).name@ == functions[i].name@
                            &&& out@[i].func_type.params@ == param_types(functions[i])
                            &&& out@[i].func_type.results@ == seq![val_type(functions[i].return_type)]
                            &&& out@[i].locals@ == local_types(functions[i])
                            &&& out@[i].body@ == a.0[i]
                        }
                    &&& forall|i: int|
                        0 <= i < k ==> (#[trigger] exports@[i]).name@ == functions[i].name@ && exports@[i].func_index == 2 + i
                    &&& self.data_view() == a.1
                    &&& self.data_offset == a.2
                },
            decreases functions.len() - k,
        {
            let ghost prev = lower_functions(structs, functions, functions.subrange(0, k as int), 0)->Ok_0;
            let f = &program.functions[k];
            proof {
                assert(functions.subrange(0, k + 1).drop_last() =~= functions.subrange(0, k as int));
                assert(functions.subrange(0, k + 1).last() == functions[k as int]);
                assert(f.params@.len() + f.body@.len() <= u32::MAX);
            }
            let wf = match self.emit_function(Ghost(structs), Ghost(functions), f) {
                Ok(wf) => wf,
                Err(e) => {
                    proof {
                        lemma_lower_functions_prefix_err(structs, functions, functions, k + 1, 0);
                    }
                    return Err(e);
                },
            };
            let ghost b = lower_stmts(function_scope(structs, functions, functions[k as int]), functions[k as int].body@, prev.2)->Ok_0;
            proof {
                assert(self.locals@.map_values(|l: (String, Type)| (l.0@, l.1)) =~= function_slots(functions[k as int]));
                assert(lower_functions(structs, functions, functions.subrange(0, k + 1), 0) == Ok::<(Seq<Seq<Instruction>>, Seq<(u32, Seq<u8>)>, int), EmitError>((prev.0.push(b.0), prev.1 + b.1, b.2)));
            }
            let ghost out0 = out@;
            let ghost exports0 = exports@;
            assert(wf.body@ == b.0);
            assert(wf.name@ == functions[k as int].name@);
            assert(wf.locals@ == local_types(functions[k as int]));
            out.push(wf);
            exports.push(WasmExport { name: f.name.clone(), func_index: import_count + k as u32 });
            proof {
                let a2 = (prev.0.push(b.0), prev.1 + b.1, b.2);
                assert forall|i: int| 0 <= i < k + 1 implies {
                    &&& (#[trigger] out@[i]).name@ == functions[i].name@
                    &&& out@[i].func_type.params@ == param_types(functions[i])
                    &&& out@[i].func_type.results@ == seq![val_type(functions[i].return_type)]
                    &&& out@[i].locals@ == local_types(functions[i])
                    &&& out@[i].body@ == a2.0[i]
                } by {
                    if i < k {
                        assert(out@[i] == out0[i]);
                        assert(a2.0[i] == prev.0[i]);
                    } else {
                        assert(out@[i] == wf);
                        assert(a2.0[i] == b.0);
                    }
                }
                assert forall|i: int| 0 <= i < k + 1 implies (#[trigger] exports@[i]).name@ == functions[i].name@
                    && exports@[i].func_index == 2 + i by {
                    if i < k {
                        assert(exports@[i] == exports0[i]);
                    }
                }
            }
            k = k + 1;
        }
        assert(functions.subrange(0, functions.len() as int) =~= functions);

        // 5. Memory pages needed for the string data
        let memory_pages = if self.data_offset == 0 {
            1
        } else {
            (self.data_offset / 65536) + 1
        };
        let mut data_sections: Vec<DataSection> = Vec::new();
        std::mem::swap(&mut data_sections, &mut self.data_sections);
        Ok(WasmModule { imports, functions: out, exports, data_sections, memory_pages })
    }
}

/// Whether the program fits the 32-bit indices of the module format
/// (see `fits_indices`).
pub fn within_index_limits(program: &Program) -> (b: bool)
    ensures
        b == fits_indices(*program),
{
    if program.functions.len() > 4294967293 {
        return false;
    }
    let mut k: usize = 0;
    while k < program.functions.len()
        invariant
            0 <= k <= program.functions@.len(),
            program.functions@.len() + 2 <= u32::MAX,
            forall|i: int|
                0 <= i < k ==> (#[trigger] program.functions@[i]).params@.len() + program.functions@[i].body@.len()
                    <= u32::MAX,
        decreases program.functions@.len() - k,
    {
        let f = &program.functions[k];
        if f.params.len() > 4294967295 || f.body.len() > 4294967295 - f.params.len() {
            return false;
        }
        k = k + 1;
    }
    let mut k: usize = 0;
    while k < program.structs.len()
        invariant
            0 <= k <= program.structs@.len(),
            program.functions@.len() + 2 <= u32::MAX,
            forall|i: int|
                0 <= i < program.functions@.len() ==> (#[trigger] program.functions@[i]).params@.len()
                    + program.functions@[i].body@.len() <= u32::MAX,
            forall|i: int| 0 <= i < k ==> 4 * (#[trigger] program.structs@[i]).fields@.len() <= u32::MAX,
        decreases program.structs@.len() - k,
    {
        if program.structs[k].fields.len() > 1073741823 {
            return false;
        }
        k = k + 1;
    }
    true
}

/// Lowers a program whose names all resolve, within the size limits of
/// the module format.
pub fn emit(program: Program) -> (m: WasmModule)
    requires
        fits_indices(program),
        lower_program(program) is Ok,
    ensures
        ({
            let a = lower_program(program)->Ok_0;
            lowered_module(program, a.0, a.1, a.2, m)
        }),
{
    match try_emit(program) {
        Ok(m) => m,
        Err(_) => {
            proof { assert(false); }
            WasmModule {
                imports: Vec::new(),
                functions: Vec::new(),
                exports: Vec::new(),
                data_sections: Vec::new(),
                memory_pages: 1,
            }
        },
    }
}

/// Lowers a program, or reports the first name that does not resolve
/// (or that the string data overflows).
pub fn try_emit(program: Program) -> (r: Result<WasmModule, EmitError>)
    requires
        fits_indices(program),
    ensures
        match lower_program(program) {
            Ok(a) => r matches Ok(m) && lowered_module(program, a.0, a.1, a.2, m),
            Err(e) => r matches Err(x) && x == e,
        },
{
    let mut emitter = WasmEmitter::new();
    emitter.emit_program(&program)
}

// ── Laws of the data layout ─────────────────────────────────────────

/// The data sections lie one after another, without gaps, covering the
/// bytes from `start` to `end`.
pub open spec fn tiles(data: Seq<(u32, Seq<u8>)>, start: int, end: int) -> bool
    decreases data.len(),
{
    if data.len() == 0 {
        start == end
    } else {
        tiles(data.drop_last(), start, data.last().0 as int) && data.last().0 + data.last().1.len() == end
    }
}

proof fn lemma_tiles_concat(d1: Seq<(u32, Seq<u8>)>, d2: Seq<(u32, Seq<u8>)>, a: int, b: int, c: int)
    requires
        tiles(d1, a, b),
        tiles(d2, b, c),
    ensures
        tiles(d1 + d2, a, c),
    decreases d2.len(),
{
    if d2.len() == 0 {
        assert(d1 + d2 =~= d1);
    } else {
        lemma_tiles_concat(d1, d2.drop_last(), a, b, d2.last().0 as int);
        assert((d1 + d2).drop_last() =~= d1 + d2.drop_last());
        assert((d1 + d2).last() == d2.last());
    }
}

proof fn lemma_tiles_then(x: Lowered, y: Lowered, start: int)
    requires
        tiles(x.1, start, x.2),
        tiles(y.1, x.2, y.2),
    ensures
        tiles(then(x, y).1, start, then(x, y).2),
{
    lemma_tiles_concat(x.1, y.1, start, x.2, y.2);
}

/// Lowering an expression places its strings right after each other from
/// `off`.
pub proof fn lemma_expr_data_tiles(scope: Scope, e: Expr, off: int)
    requires
        0 <= off,
    ensures
        lower_expr(scope, e, off) matches Ok(a) ==> tiles(a.1, off, a.2),
    decreases e,
{
    match e {
        Expr::StringLit(s) => {
            if let Ok(a) = lower_expr(scope, e, off) {
                let bytes = vstd::utf8::encode_utf8(s@);
                assert(off + bytes.len() <= i32::MAX);
                assert((off as u32) as int == off);
                assert(a.1 == seq![(off as u32, bytes)]);
                assert(a.1.drop_last() =~= Seq::<(u32, Seq<u8>)>::empty());
                assert(tiles(a.1.drop_last(), off, a.1.last().0 as int));
            }
        },
        Expr::BinOp(l, op, r) => {
            lemma_expr_data_tiles(scope, *l, off);
            if let Ok(a) = lower_expr(scope, *l, off) {
                lemma_tiles_bounds(a.1, off, a.2);
                lemma_expr_data_tiles(scope, *r, a.2);
                if let Ok(b) = lower_expr(scope, *r, a.2) {
                    lemma_tiles_then(a, b, off);
                    lemma_tiles_then(then(a, b), (seq![op_instr(op, expr_type(scope, *l))], Seq::empty(), b.2), off);
                }
            }
        },
        Expr::Call(name, args) => {
            lemma_exprs_data_tiles(scope, args@, off);
            if let Ok(a) = lower_exprs(scope, args@, off) {
                lemma_tiles_bounds(a.1, off, a.2);
                if let Some(i) = call_index(scope.functions, name@) {
                    lemma_tiles_then(a, (seq![Instruction::Call(i as u32)], Seq::empty(), a.2), off);
                }
            }
        },
        Expr::FieldAccess(obj, f) => {
            lemma_expr_data_tiles(scope, *obj, off);
            if let Ok(a) = lower_expr(scope, *obj, off) {
                lemma_tiles_bounds(a.1, off, a.2);
                if let Some(k) = field_offset(scope.structs, expr_type(scope, *obj), f@) {
                    lemma_tiles_then(a, (seq![Instruction::I32Load(k as u32)], Seq::empty(), a.2), off);
                }
            }
        },
        _ => {},
    }
}

/// Lowering expressions one after another places their strings one after
/// another from `off`.
pub proof fn lemma_exprs_data_tiles(scope: Scope, es: Seq<Expr>, off: int)
    requires
        0 <= off,
    ensures
        lower_exprs(scope, es, off) matches Ok(a) ==> tiles(a.1, off, a.2),
    decreases es,
{
    if es.len() > 0 {
        lemma_exprs_data_tiles(scope, es.drop_last(), off);
        if let Ok(a) = lower_exprs(scope, es.drop_last(), off) {
                lemma_tiles_bounds(a.1, off, a.2);
            lemma_expr_data_tiles(scope, es.last(), a.2);
            if let Ok(b) = lower_expr(scope, es.last(), a.2) {
                lemma_tiles_then(a, b, off);
            }
        }
    }
}

proof fn lemma_stmt_data_tiles(scope: Scope, st: Stmt, off: int)
    requires
        0 <= off,
    ensures
        lower_stmt(scope, st, off) matches Ok(a) ==> tiles(a.1, off, a.2),
{
    match st {
        Stmt::Return(e) => {
            lemma_expr_data_tiles(scope, e, off);
            if let Ok(a) = lower_expr(scope, e, off) {
                lemma_tiles_bounds(a.1, off, a.2);
                lemma_tiles_then(a, (seq![Instruction::Return], Seq::empty(), a.2), off);
            }
        },
        Stmt::Let(name, _ty, init) => {
            if let Some(e) = init {
                lemma_expr_data_tiles(scope, e, off);
                if let Ok(a) = lower_expr(scope, e, off) {
                lemma_tiles_bounds(a.1, off, a.2);
                    if let Some(i) = slot_of(scope.locals, name@) {
                        lemma_tiles_then(a, (seq![Instruction::LocalSet(i as u32)], Seq::empty(), a.2), off);
                    }
                }
            }
        },
        Stmt::Assign(name, e) => {
            lemma_expr_data_tiles(scope, e, off);
            if let Ok(a) = lower_expr(scope, e, off) {
                lemma_tiles_bounds(a.1, off, a.2);
                if let Some(i) = slot_of(scope.locals, name@) {
                    lemma_tiles_then(a, (seq![Instruction::LocalSet(i as u32)], Seq::empty(), a.2), off);
                }
            }
        },
        Stmt::FieldAssign(var, field, e) => {
            if let Some(i) = slot_of(scope.locals, var@) {
                if let Some(k) = field_offset(scope.structs, scope.locals[i].1, field@) {
                    lemma_expr_data_tiles(scope, e, off);
                    if let Ok(a) = lower_expr(scope, e, off) {
                lemma_tiles_bounds(a.1, off, a.2);
                        let head: Lowered = (seq![Instruction::LocalGet(i as u32)], Seq::empty(), off);
                        lemma_tiles_then(head, a, off);
                        lemma_tiles_then(then(head, a), (seq![Instruction::I32Store(k as u32)], Seq::empty(), a.2), off);
                    }
                }
            }
        },
        Stmt::Expr(e) => {
            lemma_expr_data_tiles(scope, e, off);
        },
    }
}

proof fn lemma_stmts_data_tiles(scope: Scope, sts: Seq<Stmt>, off: int)
    requires
        0 <= off,
    ensures
        lower_stmts(scope, sts, off) matches Ok(a) ==> tiles(a.1, off, a.2),
    decreases sts.len(),
{
    if sts.len() > 0 {
        lemma_stmts_data_tiles(scope, sts.drop_last(), off);
        if let Ok(a) = lower_stmts(scope, sts.drop_last(), off) {
                lemma_tiles_bounds(a.1, off, a.2);
            lemma_stmt_data_tiles(scope, sts.last(), a.2);
            if let Ok(b) = lower_stmt(scope, sts.last(), a.2) {
                lemma_tiles_then(a, b, off);
            }
        }
    }
}

proof fn lemma_functions_data_tiles(structs: Seq<StructDef>, functions: Seq<Function>, fs: Seq<Function>, off: int)
    requires
        0 <= off,
    ensures
        lower_functions(structs, functions, fs, off) matches Ok(a) ==> tiles(a.1, off, a.2),
    decreases fs.len(),
{
    if fs.len() > 0 {
        lemma_functions_data_tiles(structs, functions, fs.drop_last(), off);
        if let Ok(a) = lower_functions(structs, functions, fs.drop_last(), off) {
                lemma_tiles_bounds(a.1, off, a.2);
            let scope = function_scope(structs, functions, fs.last());
            lemma_stmts_data_tiles(scope, fs.last().body@, a.2);
            if let Ok(b) = lower_stmts(scope, fs.last().body@, a.2) {
                lemma_tiles_concat(a.1, b.1, off, a.2, b.2);
            }
        }
    }
}

/// String literals are laid out in linear memory one after another from
/// offset 0, without gaps or overlap, and the initial memory holds them
/// all.
pub proof fn law_string_data_layout(program: Program)
    requires
        lower_program(program) is Ok,
    ensures
        ({
            let a = lower_program(program)->Ok_0;
            &&& tiles(a.1, 0, a.2)
            &&& a.2 < pages_for(a.2) * 65536
        }),
{
    lemma_functions_data_tiles(program.structs@, program.functions@, program.functions@, 0);
    lemma_lowered_offset_nonneg(program);
}

proof fn lemma_tiles_within(data: Seq<(u32, Seq<u8>)>, start: int, end: int)
    requires
        tiles(data, start, end),
    ensures
        forall|i: int|
            0 <= i < data.len() ==> start <= (#[trigger] data[i]).0 && data[i].0 + data[i].1.len() <= end,
    decreases data.len(),
{
    if data.len() > 0 {
        let init = data.drop_last();
        lemma_tiles_within(init, start, data.last().0 as int);
        lemma_tiles_bounds(init, start, data.last().0 as int);
        assert forall|i: int| 0 <= i < data.len() implies start <= (#[trigger] data[i]).0 && data[i].0
            + data[i].1.len() <= end by {
            if i < init.len() {
                assert(data[i] == init[i]);
            }
        }
    }
}

/// The layout of an emitted module: imports take the first function
/// indices and the program's functions follow in order, each exported
/// under its name at index (number of imports) + its position; memory has
/// at least one page, and every data section lies inside it.
pub proof fn law_emitted_module_layout(program: Program, m: WasmModule)
    requires
        lower_program(program) is Ok,
        ({
            let a = lower_program(program)->Ok_0;
            lowered_module(program, a.0, a.1, a.2, m)
        }),
    ensures
        m.functions@.len() == program.functions@.len(),
        m.exports@.len() == program.functions@.len(),
        forall|i: int|
            0 <= i < m.exports@.len() ==> (#[trigger] m.exports@[i]).name@ == program.functions@[i].name@
                && m.exports@[i].func_index == m.imports@.len() + i,
        m.memory_pages >= 1,
        forall|i: int|
            0 <= i < m.data_sections@.len() ==> (#[trigger] m.data_sections@[i]).offset
                + m.data_sections@[i].data@.len() <= m.memory_pages * 65536,
{
    let a = lower_program(program)->Ok_0;
    law_string_data_layout(program);
    lemma_lowered_offset_nonneg(program);
    lemma_tiles_within(a.1, 0, a.2);
    assert forall|i: int| 0 <= i < m.data_sections@.len() implies (#[trigger] m.data_sections@[i]).offset
        + m.data_sections@[i].data@.len() <= m.memory_pages * 65536 by {
        assert(m.data_sections@[i].offset == a.1[i].0 && m.data_sections@[i].data@ == a.1[i].1);
    }
}

proof fn lemma_lowered_offset_nonneg(program: Program)
    requires
        lower_program(program) is Ok,
    ensures
        lower_program(program)->Ok_0.2 >= 0,
{
    let a = lower_program(program)->Ok_0;
    lemma_functions_data_tiles(program.structs@, program.functions@, program.functions@, 0);
    lemma_tiles_bounds(a.1, 0, a.2);
}

proof fn lemma_tiles_bounds(data: Seq<(u32, Seq<u8>)>, start: int, end: int)
    requires
        tiles(data, start, end),
    ensures
        start <= end,
    decreases data.len(),
{
    if data.len() > 0 {
        lemma_tiles_bounds(data.drop_last(), start, data.last().0 as int);
    }
}

} // verus!
