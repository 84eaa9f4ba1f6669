use vstd::prelude::*;

use crate::c_compiler::ast::{SpecExpr, SpecFunction, SpecProgram, SpecStmt, SpecStructDef, SpecType};
use crate::c_compiler::lexer::SpecToken;
use crate::c_compiler::parser::{
    advanced, assignment, ident_at, is_tok, p_block, p_expr, p_field_decls, p_function, p_items,
    p_params, p_params_rest, p_statement, p_struct_def, p_type, p_typed_name, spec_parse,
    struct_def_starts, tok, type_starts,
};
use crate::c_compiler::unparse::{
    at, lemma_at_first, lemma_at_split, lemma_parse_expr, lemma_print_expr_first, print_expr,
    print_mul, print_primary, stop_expr,
};

verus! {

// ── Printing statements, functions, struct definitions, programs ──

/// Tokens of a type.
pub open spec fn print_type(ty: SpecType) -> Seq<SpecToken> {
    match ty {
        SpecType::Int => seq![SpecToken::KwInt],
        SpecType::Float => seq![SpecToken::KwFloat],
        SpecType::Ptr => seq![SpecToken::KwChar],
        SpecType::Struct(n) => seq![SpecToken::KwStruct, SpecToken::Identifier(n)],
    }
}

/// Tokens of a statement.
pub open spec fn print_stmt(s: SpecStmt) -> Seq<SpecToken> {
    match s {
        SpecStmt::Let(name, ty, None) => print_type(ty) + seq![SpecToken::Identifier(name), SpecToken::Semicolon],
        SpecStmt::Let(name, ty, Some(e)) => print_type(ty) + seq![SpecToken::Identifier(name), SpecToken::Equal]
            + print_expr(e) + seq![SpecToken::Semicolon],
        SpecStmt::Assign(name, e) => seq![SpecToken::Identifier(name), SpecToken::Equal] + print_expr(e) + seq![
            SpecToken::Semicolon,
        ],
        SpecStmt::FieldAssign(var, field, e) => seq![
            SpecToken::Identifier(var),
            SpecToken::Dot,
            SpecToken::Identifier(field),
            SpecToken::Equal,
        ] + print_expr(e) + seq![SpecToken::Semicolon],
        SpecStmt::Return(e) => seq![SpecToken::KwReturn] + print_expr(e) + seq![SpecToken::Semicolon],
        SpecStmt::Expr(e) => print_expr(e) + seq![SpecToken::Semicolon],
    }
}

/// Tokens of a statement sequence.
pub open spec fn print_stmts(ss: Seq<SpecStmt>) -> Seq<SpecToken>
    decreases ss.len(),
{
    if ss.len() == 0 {
        Seq::empty()
    } else {
        print_stmt(ss[0]) + print_stmts(ss.drop_first())
    }
}

/// Tokens of a `type name` pair.
pub open spec fn print_typed_name(p: (Seq<char>, SpecType)) -> Seq<SpecToken> {
    print_type(p.1) + seq![SpecToken::Identifier(p.0)]
}

/// Tokens of the parameters after the first, each preceded by `,`.
pub open spec fn print_params_rest(ps: Seq<(Seq<char>, SpecType)>) -> Seq<SpecToken>
    decreases ps.len(),
{
    if ps.len() == 0 {
        Seq::empty()
    } else {
        seq![SpecToken::Comma] + print_typed_name(ps[0]) + print_params_rest(ps.drop_first())
    }
}

/// Tokens of a parameter list (without the parentheses).
pub open spec fn print_params(ps: Seq<(Seq<char>, SpecType)>) -> Seq<SpecToken> {
    if ps.len() == 0 {
        Seq::empty()
    } else {
        print_typed_name(ps[0]) + print_params_rest(ps.drop_first())
    }
}

/// Tokens of a function definition.
pub open spec fn print_function(f: SpecFunction) -> Seq<SpecToken> {
    print_type(f.return_type) + seq![SpecToken::Identifier(f.name), SpecToken::LParen] + print_params(f.params)
        + seq![SpecToken::RParen, SpecToken::LBrace] + print_stmts(f.body) + seq![SpecToken::RBrace]
}

/// Tokens of field declarations, each `type name ;`.
pub open spec fn print_field_decls(fs: Seq<(Seq<char>, SpecType)>) -> Seq<SpecToken>
    decreases fs.len(),
{
    if fs.len() == 0 {
        Seq::empty()
    } else {
        print_typed_name(fs[0]) + seq![SpecToken::Semicolon] + print_field_decls(fs.drop_first())
    }
}

/// Tokens of a struct definition.
pub open spec fn print_struct_def(d: SpecStructDef) -> Seq<SpecToken> {
    seq![SpecToken::KwStruct, SpecToken::Identifier(d.name), SpecToken::LBrace] + print_field_decls(d.fields)
        + seq![SpecToken::RBrace, SpecToken::Semicolon]
}

/// Tokens of struct definitions, one after another.
pub open spec fn print_struct_defs(ds: Seq<SpecStructDef>) -> Seq<SpecToken>
    decreases ds.len(),
{
    if ds.len() == 0 {
        Seq::empty()
    } else {
        print_struct_def(ds[0]) + print_struct_defs(ds.drop_first())
    }
}

/// Tokens of function definitions, one after another.
pub open spec fn print_functions(fs: Seq<SpecFunction>) -> Seq<SpecToken>
    decreases fs.len(),
{
    if fs.len() == 0 {
        Seq::empty()
    } else {
        print_function(fs[0]) + print_functions(fs.drop_first())
    }
}

/// Tokens of a program: its struct definitions, then its functions.
pub open spec fn print_program(p: SpecProgram) -> Seq<SpecToken> {
    print_struct_defs(p.structs) + print_functions(p.functions)
}

// ── Reading printed statements back ─────────────────────────────

/// Where `a + b + c` stands at `pos`, so do `a`, `b` and `c`, one after
/// another.
proof fn lemma_at_three(t: Seq<SpecToken>, pos: int, a: Seq<SpecToken>, b: Seq<SpecToken>, c: Seq<SpecToken>)
    requires
        at(t, pos, a + b + c),
    ensures
        at(t, pos, a),
        at(t, pos + a.len(), b),
        at(t, pos + a.len() + b.len(), c),
{
    lemma_at_split(t, pos, a + b, c);
    lemma_at_split(t, pos, a, b);
}

/// The token at `pos + k` of tokens that stand at `pos`.
proof fn lemma_at_index(t: Seq<SpecToken>, pos: int, a: Seq<SpecToken>, k: int)
    requires
        at(t, pos, a),
        0 <= k < a.len(),
    ensures
        tok(t, pos + k) == Some(a[k]),
{
    assert(t.subrange(pos, pos + a.len())[k] == t[pos + k]);
}

/// An expression printed at `pos`, followed by `next`, reads back.
proof fn lemma_expr_before(e: SpecExpr, t: Seq<SpecToken>, pos: int, next: SpecToken)
    requires
        at(t, pos, print_expr(e) + seq![next]),
        next == SpecToken::Semicolon || next == SpecToken::Equal,
    ensures
        p_expr(t, pos) == Some((e, pos + print_expr(e).len())),
        tok(t, pos + print_expr(e).len()) == Some(next),
{
    lemma_at_split(t, pos, print_expr(e), seq![next]);
    lemma_at_first(t, pos + print_expr(e).len(), seq![next]);
    assert(stop_expr(t, pos + print_expr(e).len()));
    lemma_parse_expr(e, t, pos);
}

/// A type printed at `pos` reads back.
proof fn lemma_parse_type(ty: SpecType, t: Seq<SpecToken>, pos: int)
    requires
        at(t, pos, print_type(ty)),
    ensures
        p_type(t, pos) == Some((ty, pos + print_type(ty).len())),
        type_starts(t, pos),
        !is_tok(t, pos, SpecToken::KwReturn),
{
    lemma_at_index(t, pos, print_type(ty), 0);
    if let SpecType::Struct(n) = ty {
        lemma_at_index(t, pos, print_type(ty), 1);
    }
}

/// Reading the tokens of a statement gives it back.
pub(crate) proof fn lemma_parse_stmt(s: SpecStmt, t: Seq<SpecToken>, pos: int)
    requires
        at(t, pos, print_stmt(s)),
    ensures
        p_statement(t, pos) == Some((s, pos + print_stmt(s).len())),
{
    let w = print_stmt(s);
    match s {
        SpecStmt::Let(name, ty, init) => {
            let pt = print_type(ty);
            match init {
                None => {
                    let tail = seq![SpecToken::Identifier(name), SpecToken::Semicolon];
                    lemma_at_split(t, pos, pt, tail);
                    lemma_parse_type(ty, t, pos);
                    lemma_at_index(t, pos + pt.len(), tail, 0);
                    lemma_at_index(t, pos + pt.len(), tail, 1);
                },
                Some(e) => {
                    let mid = seq![SpecToken::Identifier(name), SpecToken::Equal];
                    assert(w =~= pt + mid + (print_expr(e) + seq![SpecToken::Semicolon]));
                    lemma_at_three(t, pos, pt, mid, print_expr(e) + seq![SpecToken::Semicolon]);
                    lemma_parse_type(ty, t, pos);
                    lemma_at_index(t, pos + pt.len(), mid, 0);
                    lemma_at_index(t, pos + pt.len(), mid, 1);
                    lemma_expr_before(e, t, pos + pt.len() + 2, SpecToken::Semicolon);
                },
            }
        },
        SpecStmt::Assign(name, e) => {
            let target = SpecExpr::Var(name);
            assert(print_expr(target) == print_mul(target));
            assert(print_mul(target) == print_primary(target));
            assert(print_expr(target) =~= seq![SpecToken::Identifier(name)]);
            let rest = print_expr(e) + seq![SpecToken::Semicolon];
            assert(w =~= print_expr(target) + seq![SpecToken::Equal] + rest);
            lemma_at_three(t, pos, print_expr(target), seq![SpecToken::Equal], rest);
            lemma_at_first(t, pos, print_expr(target));
            assert(print_expr(target) + seq![SpecToken::Equal] + rest =~= (print_expr(target) + seq![
                SpecToken::Equal,
            ]) + rest);
            lemma_at_split(t, pos, print_expr(target) + seq![SpecToken::Equal], rest);
            lemma_expr_before(target, t, pos, SpecToken::Equal);
            lemma_expr_before(e, t, pos + 2, SpecToken::Semicolon);
            assert(assignment(target, e) == Some(s));
        },
        SpecStmt::FieldAssign(var, field, e) => {
            let target = SpecExpr::FieldAccess(Box::new(SpecExpr::Var(var)), field);
            assert(print_primary(SpecExpr::Var(var)) =~= seq![SpecToken::Identifier(var)]);
            assert(print_expr(target) == print_mul(target));
            assert(print_mul(target) == print_primary(target));
            assert(print_expr(target) =~= seq![
                SpecToken::Identifier(var),
                SpecToken::Dot,
                SpecToken::Identifier(field),
            ]);
            let rest = print_expr(e) + seq![SpecToken::Semicolon];
            assert(w =~= (print_expr(target) + seq![SpecToken::Equal]) + rest);
            lemma_at_split(t, pos, print_expr(target) + seq![SpecToken::Equal], rest);
            lemma_at_first(t, pos, print_expr(target) + seq![SpecToken::Equal]);
            lemma_expr_before(target, t, pos, SpecToken::Equal);
            lemma_expr_before(e, t, pos + 4, SpecToken::Semicolon);
            assert(assignment(target, e) == Some(s));
        },
        SpecStmt::Return(e) => {
            let rest = print_expr(e) + seq![SpecToken::Semicolon];
            assert(w =~= seq![SpecToken::KwReturn] + rest);
            lemma_at_split(t, pos, seq![SpecToken::KwReturn], rest);
            lemma_at_first(t, pos, seq![SpecToken::KwReturn]);
            lemma_expr_before(e, t, pos + 1, SpecToken::Semicolon);
        },
        SpecStmt::Expr(e) => {
            lemma_print_expr_first(e);
            lemma_at_split(t, pos, print_expr(e), seq![SpecToken::Semicolon]);
            lemma_at_first(t, pos, print_expr(e));
            lemma_expr_before(e, t, pos, SpecToken::Semicolon);
        },
    }
}

/// A statement's tokens are not empty and do not start with `}`.
proof fn lemma_print_stmt_first(s: SpecStmt)
    ensures
        print_stmt(s).len() > 0,
        print_stmt(s)[0] != SpecToken::RBrace,
{
    match s {
        SpecStmt::Let(name, ty, init) => {
            assert(print_stmt(s)[0] == print_type(ty)[0]);
        },
        SpecStmt::Expr(e) => {
            lemma_print_expr_first(e);
            assert(print_stmt(s)[0] == print_expr(e)[0]);
        },
        _ => {},
    }
}

/// Reading the tokens of statements, up to a `}`, gives them back.
proof fn lemma_parse_block(ss: Seq<SpecStmt>, t: Seq<SpecToken>, pos: int, acc: Seq<SpecStmt>)
    requires
        at(t, pos, print_stmts(ss)),
        is_tok(t, pos + print_stmts(ss).len(), SpecToken::RBrace),
    ensures
        p_block(t, acc, pos) == Some((acc + ss, pos + print_stmts(ss).len())),
    decreases ss.len(),
{
    if ss.len() == 0 {
        assert(acc + ss =~= acc);
    } else {
        let head = print_stmt(ss[0]);
        let rest = print_stmts(ss.drop_first());
        lemma_at_split(t, pos, head, rest);
        lemma_print_stmt_first(ss[0]);
        lemma_at_first(t, pos, head);
        lemma_parse_stmt(ss[0], t, pos);
        assert(advanced(t, pos, pos + head.len()));
        lemma_parse_block(ss.drop_first(), t, pos + head.len(), acc.push(ss[0]));
        assert(acc.push(ss[0]) + ss.drop_first() =~= acc + ss);
    }
}

/// Reading the tokens of a `type name` pair gives it back.
proof fn lemma_parse_typed_name(p: (Seq<char>, SpecType), t: Seq<SpecToken>, pos: int)
    requires
        at(t, pos, print_typed_name(p)),
    ensures
        p_typed_name(t, pos) == Some((p, pos + print_typed_name(p).len())),
        type_starts(t, pos),
{
    let pt = print_type(p.1);
    lemma_at_split(t, pos, pt, seq![SpecToken::Identifier(p.0)]);
    lemma_parse_type(p.1, t, pos);
    lemma_at_first(t, pos + pt.len(), seq![SpecToken::Identifier(p.0)]);
}

/// Reading `, type name` pairs gives them back after `acc`.
proof fn lemma_parse_params_rest(
    ps: Seq<(Seq<char>, SpecType)>,
    t: Seq<SpecToken>,
    pos: int,
    acc: Seq<(Seq<char>, SpecType)>,
)
    requires
        at(t, pos, print_params_rest(ps)),
        !is_tok(t, pos + print_params_rest(ps).len(), SpecToken::Comma),
    ensures
        p_params_rest(t, acc, pos) == Some((acc + ps, pos + print_params_rest(ps).len())),
    decreases ps.len(),
{
    if ps.len() == 0 {
        assert(acc + ps =~= acc);
    } else {
        let tn = print_typed_name(ps[0]);
        let rest = print_params_rest(ps.drop_first());
        assert(print_params_rest(ps) =~= seq![SpecToken::Comma] + (tn + rest));
        lemma_at_split(t, pos, seq![SpecToken::Comma], tn + rest);
        lemma_at_first(t, pos, seq![SpecToken::Comma]);
        lemma_at_split(t, pos + 1, tn, rest);
        lemma_parse_typed_name(ps[0], t, pos + 1);
        lemma_parse_params_rest(ps.drop_first(), t, pos + 1 + tn.len(), acc.push(ps[0]));
        assert(acc.push(ps[0]) + ps.drop_first() =~= acc + ps);
    }
}

/// Reading a parameter list, up to a `)`, gives it back.
proof fn lemma_parse_params(ps: Seq<(Seq<char>, SpecType)>, t: Seq<SpecToken>, pos: int)
    requires
        at(t, pos, print_params(ps)),
        is_tok(t, pos + print_params(ps).len(), SpecToken::RParen),
    ensures
        p_params(t, pos) == Some((ps, pos + print_params(ps).len())),
{
    if ps.len() > 0 {
        let tn = print_typed_name(ps[0]);
        let rest = print_params_rest(ps.drop_first());
        lemma_at_split(t, pos, tn, rest);
        lemma_parse_typed_name(ps[0], t, pos);
        lemma_parse_params_rest(ps.drop_first(), t, pos + tn.len(), seq![ps[0]]);
        assert(seq![ps[0]] + ps.drop_first() =~= ps);
    }
}

/// Reading field declarations, up to a `}`, gives them back after `acc`.
proof fn lemma_parse_field_decls(
    fs: Seq<(Seq<char>, SpecType)>,
    t: Seq<SpecToken>,
    pos: int,
    acc: Seq<(Seq<char>, SpecType)>,
)
    requires
        at(t, pos, print_field_decls(fs)),
        is_tok(t, pos + print_field_decls(fs).len(), SpecToken::RBrace),
    ensures
        p_field_decls(t, acc, pos) == Some((acc + fs, pos + print_field_decls(fs).len())),
    decreases fs.len(),
{
    if fs.len() == 0 {
        assert(acc + fs =~= acc);
    } else {
        let tn = print_typed_name(fs[0]);
        let rest = print_field_decls(fs.drop_first());
        assert(print_field_decls(fs) =~= tn + (seq![SpecToken::Semicolon] + rest));
        lemma_at_split(t, pos, tn, seq![SpecToken::Semicolon] + rest);
        lemma_at_split(t, pos + tn.len(), seq![SpecToken::Semicolon], rest);
        lemma_at_first(t, pos + tn.len(), seq![SpecToken::Semicolon]);
        lemma_parse_typed_name(fs[0], t, pos);
        lemma_at_first(t, pos, tn);
        assert(print_type(fs[0].1)[0] != SpecToken::RBrace);
        assert(tn[0] == print_type(fs[0].1)[0]);
        lemma_parse_field_decls(fs.drop_first(), t, pos + tn.len() + 1, acc.push(fs[0]));
        assert(acc.push(fs[0]) + fs.drop_first() =~= acc + fs);
    }
}

/// Reading the tokens of a function definition gives it back; they do
/// not look like the start of a struct definition.
proof fn lemma_parse_function(f: SpecFunction, t: Seq<SpecToken>, pos: int)
    requires
        at(t, pos, print_function(f)),
    ensures
        p_function(t, pos) == Some((f, pos + print_function(f).len())),
        !struct_def_starts(t, pos),
{
    let a = print_type(f.return_type);
    let b = seq![SpecToken::Identifier(f.name), SpecToken::LParen];
    let c = print_params(f.params);
    let d = seq![SpecToken::RParen, SpecToken::LBrace];
    let e = print_stmts(f.body);
    let g = seq![SpecToken::RBrace];
    assert(print_function(f) =~= a + (b + (c + (d + (e + g)))));
    lemma_at_split(t, pos, a, b + (c + (d + (e + g))));
    let p1 = pos + a.len();
    lemma_at_split(t, p1, b, c + (d + (e + g)));
    let p2 = p1 + 2;
    lemma_at_split(t, p2, c, d + (e + g));
    let p3 = p2 + c.len();
    lemma_at_split(t, p3, d, e + g);
    let p4 = p3 + 2;
    lemma_at_split(t, p4, e, g);
    let p5 = p4 + e.len();
    lemma_parse_type(f.return_type, t, pos);
    lemma_at_index(t, p1, b, 0);
    lemma_at_index(t, p1, b, 1);
    lemma_at_index(t, p3, d, 0);
    lemma_at_index(t, p3, d, 1);
    lemma_at_first(t, p5, g);
    lemma_parse_params(f.params, t, p2);
    lemma_parse_block(f.body, t, p4, Seq::empty());
    assert(Seq::<SpecStmt>::empty() + f.body =~= f.body);
    assert(!struct_def_starts(t, pos)) by {
        if let SpecType::Struct(n) = f.return_type {
            assert(a.len() == 2);
            assert(tok(t, pos + 2) == Some(SpecToken::Identifier(f.name)));
        } else {
            lemma_at_index(t, pos, a, 0);
        }
    }
}

/// Reading the tokens of a struct definition gives it back; they start
/// like one.
proof fn lemma_parse_struct_def(d: SpecStructDef, t: Seq<SpecToken>, pos: int)
    requires
        at(t, pos, print_struct_def(d)),
    ensures
        p_struct_def(t, pos) == Some((d, pos + print_struct_def(d).len())),
        struct_def_starts(t, pos),
{
    let a = seq![SpecToken::KwStruct, SpecToken::Identifier(d.name), SpecToken::LBrace];
    let b = print_field_decls(d.fields);
    let c = seq![SpecToken::RBrace, SpecToken::Semicolon];
    assert(print_struct_def(d) =~= a + (b + c));
    lemma_at_split(t, pos, a, b + c);
    lemma_at_split(t, pos + 3, b, c);
    lemma_at_index(t, pos, a, 0);
    lemma_at_index(t, pos, a, 1);
    lemma_at_index(t, pos, a, 2);
    lemma_at_index(t, pos + 3 + b.len(), c, 0);
    lemma_at_index(t, pos + 3 + b.len(), c, 1);
    lemma_parse_field_decls(d.fields, t, pos + 3, Seq::empty());
    assert(Seq::<(Seq<char>, SpecType)>::empty() + d.fields =~= d.fields);
}

/// Reading function definitions up to the end gives them back after
/// `acc`.
proof fn lemma_parse_functions(
    fs: Seq<SpecFunction>,
    t: Seq<SpecToken>,
    pos: int,
    structs: Seq<SpecStructDef>,
    acc: Seq<SpecFunction>,
)
    requires
        at(t, pos, print_functions(fs)),
        pos + print_functions(fs).len() == t.len(),
    ensures
        p_items(t, structs, acc, pos) == Some(SpecProgram { structs, functions: acc + fs }),
    decreases fs.len(),
{
    if fs.len() == 0 {
        assert(acc + fs =~= acc);
    } else {
        let head = print_function(fs[0]);
        lemma_at_split(t, pos, head, print_functions(fs.drop_first()));
        lemma_parse_function(fs[0], t, pos);
        assert(head.len() >= 5);
        lemma_parse_functions(fs.drop_first(), t, pos + head.len(), structs, acc.push(fs[0]));
        assert(acc.push(fs[0]) + fs.drop_first() =~= acc + fs);
    }
}

/// Reading struct definitions, then function definitions up to the end,
/// gives them back.
proof fn lemma_parse_struct_defs(
    ds: Seq<SpecStructDef>,
    fs: Seq<SpecFunction>,
    t: Seq<SpecToken>,
    pos: int,
    acc: Seq<SpecStructDef>,
)
    requires
        at(t, pos, print_struct_defs(ds) + print_functions(fs)),
        pos + print_struct_defs(ds).len() + print_functions(fs).len() == t.len(),
    ensures
        p_items(t, acc, Seq::empty(), pos) == Some(SpecProgram { structs: acc + ds, functions: fs }),
    decreases ds.len(),
{
    lemma_at_split(t, pos, print_struct_defs(ds), print_functions(fs));
    if ds.len() == 0 {
        assert(acc + ds =~= acc);
        lemma_parse_functions(fs, t, pos, acc, Seq::empty());
        assert(Seq::<SpecFunction>::empty() + fs =~= fs);
    } else {
        let head = print_struct_def(ds[0]);
        let rest = print_struct_defs(ds.drop_first()) + print_functions(fs);
        assert(print_struct_defs(ds) + print_functions(fs) =~= head + rest);
        lemma_at_split(t, pos, head, rest);
        lemma_parse_struct_def(ds[0], t, pos);
        lemma_parse_struct_defs(ds.drop_first(), fs, t, pos + head.len(), acc.push(ds[0]));
        assert(acc.push(ds[0]) + ds.drop_first() =~= acc + ds);
    }
}

/// Parsing reads back what printing wrote: the tokens of any program,
/// its struct definitions first and then its functions, parse to that
/// same program.
pub proof fn law_parse_inverts_print_program(p: SpecProgram)
    ensures
        spec_parse(print_program(p)) == Some(p),
{
    let t = print_program(p);
    assert(t.subrange(0, t.len() as int) =~= t);
    lemma_parse_struct_defs(p.structs, p.functions, t, 0, Seq::empty());
    assert(Seq::<SpecStructDef>::empty() + p.structs =~= p.structs);
}


/// A top-level item of a program: a struct definition or a function.
pub ghost enum SpecItem {
    StructDef(SpecStructDef),
    Function(SpecFunction),
}

/// Tokens of a top-level item.
pub open spec fn print_item(item: SpecItem) -> Seq<SpecToken> {
    match item {
        SpecItem::StructDef(d) => print_struct_def(d),
        SpecItem::Function(f) => print_function(f),
    }
}

/// Tokens of top-level items, one after another, in the given order.
pub open spec fn print_items(items: Seq<SpecItem>) -> Seq<SpecToken>
    decreases items.len(),
{
    if items.len() == 0 {
        Seq::empty()
    } else {
        print_item(items[0]) + print_items(items.drop_first())
    }
}

/// The struct definitions among `items`, in order.
pub open spec fn item_structs(items: Seq<SpecItem>) -> Seq<SpecStructDef>
    decreases items.len(),
{
    if items.len() == 0 {
        Seq::empty()
    } else {
        match items[0] {
            SpecItem::StructDef(d) => seq![d] + item_structs(items.drop_first()),
            SpecItem::Function(_) => item_structs(items.drop_first()),
        }
    }
}

/// The functions among `items`, in order.
pub open spec fn item_functions(items: Seq<SpecItem>) -> Seq<SpecFunction>
    decreases items.len(),
{
    if items.len() == 0 {
        Seq::empty()
    } else {
        match items[0] {
            SpecItem::StructDef(_) => item_functions(items.drop_first()),
            SpecItem::Function(f) => seq![f] + item_functions(items.drop_first()),
        }
    }
}

/// Reading top-level items up to the end, in any order, gives back their
/// struct definitions and their functions, each in order, after those
/// already read.
proof fn lemma_parse_items(
    items: Seq<SpecItem>,
    t: Seq<SpecToken>,
    pos: int,
    structs: Seq<SpecStructDef>,
    functions: Seq<SpecFunction>,
)
    requires
        at(t, pos, print_items(items)),
        pos + print_items(items).len() == t.len(),
    ensures
        p_items(t, structs, functions, pos) == Some(
            SpecProgram {
                structs: structs + item_structs(items),
                functions: functions + item_functions(items),
            },
        ),
    decreases items.len(),
{
    if items.len() == 0 {
        assert(structs + item_structs(items) =~= structs);
        assert(functions + item_functions(items) =~= functions);
    } else {
        let head = print_item(items[0]);
        let rest = items.drop_first();
        lemma_at_split(t, pos, head, print_items(rest));
        match items[0] {
            SpecItem::StructDef(d) => {
                lemma_parse_struct_def(d, t, pos);
                assert(head.len() >= 5);
                lemma_parse_items(rest, t, pos + head.len(), structs.push(d), functions);
                assert(structs.push(d) + item_structs(rest) =~= structs + item_structs(items));
                assert(item_functions(items) == item_functions(rest));
            },
            SpecItem::Function(f) => {
                lemma_parse_function(f, t, pos);
                assert(head.len() >= 5);
                lemma_parse_items(rest, t, pos + head.len(), structs, functions.push(f));
                assert(functions.push(f) + item_functions(rest) =~= functions + item_functions(items));
                assert(item_structs(items) == item_structs(rest));
            },
        }
    }
}

/// Top-level items may come in any order: the tokens of struct
/// definitions and functions, interleaved in any way, parse to a program
/// with those struct definitions and those functions, each in the order
/// they were written.
pub proof fn law_parse_items_in_any_order(items: Seq<SpecItem>)
    ensures
        spec_parse(print_items(items)) == Some(
            SpecProgram { structs: item_structs(items), functions: item_functions(items) },
        ),
{
    let t = print_items(items);
    assert(t.subrange(0, t.len() as int) =~= t);
    lemma_parse_items(items, t, 0, Seq::empty(), Seq::empty());
    assert(Seq::<SpecStructDef>::empty() + item_structs(items) =~= item_structs(items));
    assert(Seq::<SpecFunction>::empty() + item_functions(items) =~= item_functions(items));
}

} // verus!
