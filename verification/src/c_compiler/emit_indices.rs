use vstd::prelude::*;

use crate::backend::compiler::{compilable, frame_ok, local_index_ok};
use crate::c_compiler::ast::{Expr, Function, Program, Stmt};
use crate::c_compiler::emit_wasm::{
    call_index, expr_type, field_index, field_offset, fits_indices, function_scope, function_slots,
    lemma_declared_slots_len, lemma_field_index, lemma_function_position, lemma_param_slots_len,
    lemma_slot_of, lemma_struct_fields, lower_expr, lower_exprs, lower_functions, lower_program, lower_stmt,
    lower_stmts, lowered_module, param_slots, slot_of, struct_fields, Scope,
};
use crate::wasm::types::{Instruction, WasmModule};

verus! {

/// The indices an instruction uses are in range: a local slot below
/// `locals`, a function index below `functions`.
pub open spec fn indices_within(instr: Instruction, locals: nat, functions: nat) -> bool {
    match instr {
        Instruction::LocalGet(i) => i < locals,
        Instruction::LocalSet(i) => i < locals,
        Instruction::Call(i) => i < functions,
        _ => true,
    }
}

/// Every instruction of `code` uses indices in range.
pub open spec fn code_within(code: Seq<Instruction>, locals: nat, functions: nat) -> bool {
    forall|k: int| 0 <= k < code.len() ==> indices_within(#[trigger] code[k], locals, functions)
}

proof fn lemma_code_within_concat(a: Seq<Instruction>, b: Seq<Instruction>, locals: nat, functions: nat)
    requires
        code_within(a, locals, functions),
        code_within(b, locals, functions),
    ensures
        code_within(a + b, locals, functions),
{
    assert forall|k: int| 0 <= k < (a + b).len() implies indices_within(#[trigger] (a + b)[k], locals, functions) by {
        if k < a.len() {
            assert((a + b)[k] == a[k]);
        } else {
            assert((a + b)[k] == b[k - a.len()]);
        }
    }
}

/// The scope's locals and function indices fit 32 bits.
pub open spec fn scope_fits(scope: Scope) -> bool {
    scope.locals.len() <= u32::MAX && scope.functions.len() + 2 <= u32::MAX
}

proof fn lemma_slot_index(scope: Scope, name: Seq<char>)
    requires
        scope_fits(scope),
        slot_of(scope.locals, name) is Some,
    ensures
        (slot_of(scope.locals, name)->0 as u32) as int == slot_of(scope.locals, name)->0,
        slot_of(scope.locals, name)->0 < scope.locals.len(),
{
    lemma_slot_of(scope.locals, name);
}

proof fn lemma_call_index(scope: Scope, name: Seq<char>)
    requires
        scope_fits(scope),
        call_index(scope.functions, name) is Some,
    ensures
        (call_index(scope.functions, name)->0 as u32) as int == call_index(scope.functions, name)->0,
        call_index(scope.functions, name)->0 < 2 + scope.functions.len(),
{
    lemma_function_position(scope.functions, name);
}

/// Names resolve to what they name. A variable is read from the first
/// local slot that bears its name. A call of `print_i32` targets function
/// 0 and one of `print_str` function 1; a call of any other name targets
/// 2 + the position of the last function defined under that name.
/// Assigning to a variable writes the first slot that bears its name.
pub proof fn law_names_resolve(scope: Scope, e: Expr, st: Stmt, off: int)
    requires
        scope_fits(scope),
    ensures
        e matches Expr::Var(x) ==> (lower_expr(scope, e, off) matches Ok(a) ==> exists|i: int|
            #![trigger scope.locals[i]]
            0 <= i < scope.locals.len() && a.0 == seq![Instruction::LocalGet(i as u32)] && scope.locals[i].0
                == x@ && forall|j: int| 0 <= j < i ==> (#[trigger] scope.locals[j]).0 != x@),
        e matches Expr::Call(f, args) ==> (lower_expr(scope, e, off) matches Ok(a) ==> {
            &&& a.0.len() > 0
            &&& a.0.last() is Call
            &&& {
                let k = a.0.last()->Call_0 as int;
                if f@ == seq!['p', 'r', 'i', 'n', 't', '_', 'i', '3', '2'] {
                    k == 0
                } else if f@ == seq!['p', 'r', 'i', 'n', 't', '_', 's', 't', 'r'] {
                    k == 1
                } else {
                    &&& 2 <= k < 2 + scope.functions.len()
                    &&& scope.functions[k - 2].name@ == f@
                    &&& forall|j: int| k - 2 < j < scope.functions.len() ==> (#[trigger] scope.functions[j]).name@ != f@
                }
            }
        }),
        st matches Stmt::Assign(x, v) ==> (lower_stmt(scope, st, off) matches Ok(a) ==> {
            &&& a.0.len() > 0
            &&& exists|i: int|
                #![trigger scope.locals[i]]
                0 <= i < scope.locals.len() && a.0.last() == Instruction::LocalSet(i as u32) && scope.locals[i].0
                    == x@ && forall|j: int| 0 <= j < i ==> (#[trigger] scope.locals[j]).0 != x@
        }),
{
    if let Expr::Var(x) = e {
        lemma_slot_of(scope.locals, x@);
        if let Some(i) = slot_of(scope.locals, x@) {
            assert(scope.locals[i].0 == x@);
        }
    }
    if let Expr::Call(f, args) = e {
        if let Ok(a) = lower_expr(scope, e, off) {
            lemma_call_index(scope, f@);
            lemma_function_position(scope.functions, f@);
            let x = lower_exprs(scope, args@, off)->Ok_0;
            let k = call_index(scope.functions, f@)->0;
            assert(a.0 == x.0 + seq![Instruction::Call(k as u32)]);
            assert(a.0.last() == Instruction::Call(k as u32));
        }
    }
    if let Stmt::Assign(x, v) = st {
        if let Ok(a) = lower_stmt(scope, st, off) {
            lemma_slot_of(scope.locals, x@);
            lemma_slot_index(scope, x@);
            let i = slot_of(scope.locals, x@)->0;
            let y = lower_expr(scope, v, off)->Ok_0;
            assert(a.0 == y.0 + seq![Instruction::LocalSet(i as u32)]);
            assert(a.0.last() == Instruction::LocalSet(i as u32));
            assert(scope.locals[i].0 == x@);
        }
    }
}

/// Struct fields are 4 bytes each, in declaration order: reading field
/// `f` of a value of struct type `n` loads at offset 4 × (position of the
/// first field named `f` in the last definition of `n`).
pub proof fn law_field_offsets(scope: Scope, obj: Expr, f: String, off: int)
    ensures
        lower_expr(scope, Expr::FieldAccess(Box::new(obj), f), off) matches Ok(a) ==> {
            &&& a.0.len() > 0
            &&& expr_type(scope, obj) is Struct
            &&& exists|s: int, j: int|
                #![trigger scope.structs[s].fields@[j]]
                {
                    let d = scope.structs[s];
                    &&& 0 <= s < scope.structs.len()
                    &&& d.name@ == expr_type(scope, obj)->Struct_0@
                    &&& forall|s2: int| s < s2 < scope.structs.len() ==> (#[trigger] scope.structs[s2]).name@ != d.name@
                    &&& 0 <= j < d.fields@.len()
                    &&& d.fields@[j].0@ == f@
                    &&& forall|j2: int| 0 <= j2 < j ==> (#[trigger] d.fields@[j2]).0@ != f@
                    &&& a.0.last() == Instruction::I32Load((4 * j) as u32)
                }
        },
{
    let e = Expr::FieldAccess(Box::new(obj), f);
    if let Ok(a) = lower_expr(scope, e, off) {
        let x = lower_expr(scope, obj, off)->Ok_0;
        let ty = expr_type(scope, obj);
        let k = field_offset(scope.structs, ty, f@)->0;
        assert(a.0 == x.0 + seq![Instruction::I32Load(k as u32)]);
        assert(a.0.last() == Instruction::I32Load(k as u32));
        let n = ty->Struct_0@;
        lemma_struct_fields(scope.structs, n);
        let s = choose|s: int|
            0 <= s < scope.structs.len() && scope.structs[s].name@ == n && struct_fields(scope.structs, n) == Some(
                scope.structs[s].fields@,
            ) && forall|s2: int| s < s2 < scope.structs.len() ==> (#[trigger] scope.structs[s2]).name@ != n;
        let fields = scope.structs[s].fields@;
        lemma_field_index(fields, f@);
        let j = field_index(fields, f@)->0;
        assert(k == 4 * j);
        assert(fields[j].0@ == f@);
    }
}

/// Lowered expressions use only the scope's local slots and functions.
proof fn lemma_expr_within(scope: Scope, e: Expr, off: int)
    requires
        scope_fits(scope),
    ensures
        lower_expr(scope, e, off) matches Ok(a) ==> code_within(a.0, scope.locals.len(), 2 + scope.functions.len()),
    decreases e,
{
    let nl = scope.locals.len();
    let nf: nat = 2 + scope.functions.len();
    if let Ok(a) = lower_expr(scope, e, off) {
        match e {
            Expr::Var(x) => {
                lemma_slot_index(scope, x@);
            },
            Expr::BinOp(l, op, r) => {
                let x = lower_expr(scope, *l, off)->Ok_0;
                lemma_expr_within(scope, *l, off);
                lemma_expr_within(scope, *r, x.2);
                let y = lower_expr(scope, *r, x.2)->Ok_0;
                lemma_code_within_concat(x.0, y.0, nl, nf);
                        assert(code_within(a.0.subrange((x.0.len() + y.0.len()) as int, a.0.len() as int), nl, nf));
                assert(a.0 =~= (x.0 + y.0) + a.0.subrange((x.0.len() + y.0.len()) as int, a.0.len() as int));
                lemma_code_within_concat(x.0 + y.0, a.0.subrange((x.0.len() + y.0.len()) as int, a.0.len() as int), nl, nf);
            },
            Expr::Call(name, args) => {
                lemma_exprs_within(scope, args@, off);
                let x = lower_exprs(scope, args@, off)->Ok_0;
                lemma_call_index(scope, name@);
                let tail = seq![Instruction::Call(call_index(scope.functions, name@)->0 as u32)];
                assert(code_within(tail, nl, nf));
                lemma_code_within_concat(x.0, tail, nl, nf);
            },
            Expr::FieldAccess(obj, f) => {
                lemma_expr_within(scope, *obj, off);
                let x = lower_expr(scope, *obj, off)->Ok_0;
                assert(a.0 =~= x.0 + a.0.subrange(x.0.len() as int, a.0.len() as int));
                assert(code_within(a.0.subrange(x.0.len() as int, a.0.len() as int), nl, nf));
                lemma_code_within_concat(x.0, a.0.subrange(x.0.len() as int, a.0.len() as int), nl, nf);
            },
            _ => {},
        }
    }
}

proof fn lemma_exprs_within(scope: Scope, es: Seq<Expr>, off: int)
    requires
        scope_fits(scope),
    ensures
        lower_exprs(scope, es, off) matches Ok(a) ==> code_within(a.0, scope.locals.len(), 2 + scope.functions.len()),
    decreases es,
{
    if es.len() > 0 {
        lemma_exprs_within(scope, es.drop_last(), off);
        if let Ok(x) = lower_exprs(scope, es.drop_last(), off) {
            lemma_expr_within(scope, es.last(), x.2);
            if let Ok(y) = lower_expr(scope, es.last(), x.2) {
                lemma_code_within_concat(x.0, y.0, scope.locals.len(), 2 + scope.functions.len());
            }
        }
    }
}

proof fn lemma_stmt_within(scope: Scope, st: Stmt, off: int)
    requires
        scope_fits(scope),
    ensures
        lower_stmt(scope, st, off) matches Ok(a) ==> code_within(a.0, scope.locals.len(), 2 + scope.functions.len()),
{
    let nl = scope.locals.len();
    let nf: nat = 2 + scope.functions.len();
    if let Ok(a) = lower_stmt(scope, st, off) {
        match st {
            Stmt::Return(e) => {
                lemma_expr_within(scope, e, off);
                let x = lower_expr(scope, e, off)->Ok_0;
                lemma_code_within_concat(x.0, seq![Instruction::Return], nl, nf);
            },
            Stmt::Let(name, _ty, init) => {
                if let Some(e) = init {
                    lemma_expr_within(scope, e, off);
                    let x = lower_expr(scope, e, off)->Ok_0;
                    lemma_slot_index(scope, name@);
                    let tail = seq![Instruction::LocalSet(slot_of(scope.locals, name@)->0 as u32)];
                    assert(code_within(tail, nl, nf));
                    lemma_code_within_concat(x.0, tail, nl, nf);
                }
            },
            Stmt::Assign(name, e) => {
                lemma_expr_within(scope, e, off);
                let x = lower_expr(scope, e, off)->Ok_0;
                lemma_slot_index(scope, name@);
                let tail = seq![Instruction::LocalSet(slot_of(scope.locals, name@)->0 as u32)];
                assert(code_within(tail, nl, nf));
                lemma_code_within_concat(x.0, tail, nl, nf);
            },
            Stmt::FieldAssign(var, field, e) => {
                lemma_slot_index(scope, var@);
                lemma_expr_within(scope, e, off);
                let x = lower_expr(scope, e, off)->Ok_0;
                let head = seq![Instruction::LocalGet(slot_of(scope.locals, var@)->0 as u32)];
                assert(code_within(head, nl, nf));
                lemma_code_within_concat(head, x.0, nl, nf);
                let tail = a.0.subrange((1 + x.0.len()) as int, a.0.len() as int);
                assert(a.0 =~= (head + x.0) + tail);
                assert(code_within(tail, nl, nf));
                lemma_code_within_concat(head + x.0, tail, nl, nf);
            },
            Stmt::Expr(e) => {
                lemma_expr_within(scope, e, off);
            },
        }
    }
}

proof fn lemma_stmts_within(scope: Scope, sts: Seq<Stmt>, off: int)
    requires
        scope_fits(scope),
    ensures
        lower_stmts(scope, sts, off) matches Ok(a) ==> code_within(a.0, scope.locals.len(), 2 + scope.functions.len()),
    decreases sts.len(),
{
    if sts.len() > 0 {
        lemma_stmts_within(scope, sts.drop_last(), off);
        if let Ok(x) = lower_stmts(scope, sts.drop_last(), off) {
            lemma_stmt_within(scope, sts.last(), x.2);
            if let Ok(y) = lower_stmt(scope, sts.last(), x.2) {
                lemma_code_within_concat(x.0, y.0, scope.locals.len(), 2 + scope.functions.len());
            }
        }
    }
}

proof fn lemma_function_slots_fit(f: Function)
    requires
        f.params@.len() + f.body@.len() <= u32::MAX,
    ensures
        function_slots(f).len() <= u32::MAX,
{
    lemma_param_slots_len(f.params@);
    lemma_declared_slots_len(param_slots(f.params@), f.body@);
}

proof fn lemma_functions_within(program: Program, fs: Seq<Function>, off: int)
    requires
        fits_indices(program),
        forall|i: int| 0 <= i < fs.len() ==> program.functions@.contains(#[trigger] fs[i]),
    ensures
        lower_functions(program.structs@, program.functions@, fs, off) matches Ok(a) ==> {
            &&& a.0.len() == fs.len()
            &&& forall|i: int|
                0 <= i < fs.len() ==> code_within(
                    #[trigger] a.0[i],
                    function_slots(fs[i]).len(),
                    2 + program.functions@.len(),
                )
        },
    decreases fs.len(),
{
    if fs.len() > 0 {
        let init = fs.drop_last();
        assert forall|i: int| 0 <= i < init.len() implies program.functions@.contains(#[trigger] init[i]) by {
            assert(init[i] == fs[i]);
        }
        lemma_functions_within(program, init, off);
        if let Ok(x) = lower_functions(program.structs@, program.functions@, init, off) {
            let f = fs.last();
            assert(program.functions@.contains(fs[fs.len() - 1]));
            let j = choose|j: int| 0 <= j < program.functions@.len() && program.functions@[j] == f;
            assert(program.functions@[j].params@.len() + program.functions@[j].body@.len() <= u32::MAX);
            lemma_function_slots_fit(f);
            let scope = function_scope(program.structs@, program.functions@, f);
            lemma_stmts_within(scope, f.body@, x.2);
            if let Ok(a) = lower_functions(program.structs@, program.functions@, fs, off) {
                let y = lower_stmts(scope, f.body@, x.2)->Ok_0;
                assert(a.0 == x.0.push(y.0));
                assert forall|i: int| 0 <= i < fs.len() implies code_within(
                    #[trigger] a.0[i],
                    function_slots(fs[i]).len(),
                    2 + program.functions@.len(),
                ) by {
                    if i < init.len() {
                        assert(a.0[i] == x.0[i]);
                        assert(fs[i] == init[i]);
                    }
                }
            }
        }
    }
}

/// The indices of a lowered module resolve: in the body of each function,
/// every local slot read or written is one of that function's locals, and
/// every call targets an imported or a defined function.
pub proof fn law_lowered_indices_resolve(program: Program, m: WasmModule)
    requires
        fits_indices(program),
        lower_program(program) is Ok,
        ({
            let a = lower_program(program)->Ok_0;
            lowered_module(program, a.0, a.1, a.2, m)
        }),
    ensures
        forall|i: int, k: int|
            0 <= i < m.functions@.len() && 0 <= k < m.functions@[i].body@.len() ==> indices_within(
                #[trigger] m.functions@[i].body@[k],
                m.functions@[i].locals@.len(),
                m.imports@.len() + m.functions@.len(),
            ),
{
    let fs = program.functions@;
    assert forall|i: int| 0 <= i < fs.len() implies fs.contains(#[trigger] fs[i]) by {}
    lemma_functions_within(program, fs, 0);
    let a = lower_program(program)->Ok_0;
    assert forall|i: int, k: int|
        0 <= i < m.functions@.len() && 0 <= k < m.functions@[i].body@.len() implies indices_within(
            #[trigger] m.functions@[i].body@[k],
            m.functions@[i].locals@.len(),
            m.imports@.len() + m.functions@.len(),
        ) by {
        assert(m.functions@[i].body@ == a.0[i]);
        assert(code_within(a.0[i], function_slots(fs[i]).len(), 2 + fs.len()));
        assert(indices_within(a.0[i][k], function_slots(fs[i]).len(), 2 + fs.len()));
    }
}

/// Lowered functions with at most 15 local slots can be compiled to
/// native code: their frame and every slot they touch fit the 8-bit
/// stack displacements.
pub proof fn law_small_functions_compile(program: Program, m: WasmModule, i: int)
    requires
        fits_indices(program),
        lower_program(program) is Ok,
        ({
            let a = lower_program(program)->Ok_0;
            lowered_module(program, a.0, a.1, a.2, m)
        }),
        0 <= i < m.functions@.len(),
        m.functions@[i].locals@.len() <= 15,
    ensures
        compilable(&m.functions@[i]),
{
    law_lowered_indices_resolve(program, m);
    let f = m.functions@[i];
    let n = f.locals@.len();
    assert((n as u8) as int == n);
    assert(frame_ok(n));
    assert forall|k: int| 0 <= k < f.body@.len() implies match #[trigger] f.body@[k] {
        Instruction::LocalGet(idx) => local_index_ok(idx),
        Instruction::LocalSet(idx) => local_index_ok(idx),
        _ => true,
    } by {
        assert(indices_within(m.functions@[i].body@[k], n, m.imports@.len() + m.functions@.len()));
        match f.body@[k] {
            Instruction::LocalGet(idx) => {
                assert((idx as i8) as int == idx);
            },
            Instruction::LocalSet(idx) => {
                assert((idx as i8) as int == idx);
            },
            _ => {},
        }
    }
}

} // verus!
