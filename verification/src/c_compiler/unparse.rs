use vstd::prelude::*;

use crate::c_compiler::ast::{Op, SpecExpr};
use crate::c_compiler::lexer::SpecToken;
use crate::c_compiler::parser::{
    additive_op, is_tok, multiplicative_op, p_additive, p_additive_rest, p_args, p_args_rest, p_expr,
    p_field_chain, p_multiplicative, p_multiplicative_rest, p_primary, tok,
};

verus! {

// ── Printing expressions as tokens, with as few parentheses as the
//    grammar needs ─────────────────────────────────────────────────

/// The token of an arithmetic operator.
pub open spec fn op_token(op: Op) -> SpecToken {
    match op {
        Op::Add => SpecToken::Plus,
        Op::Sub => SpecToken::Minus,
        Op::Mul => SpecToken::Star,
        Op::Div => SpecToken::Slash,
    }
}

/// An operation of the additive level (`+`, `-`).
pub open spec fn is_additive(e: SpecExpr) -> bool {
    e matches SpecExpr::BinOp(_, op, _) && (op == Op::Add || op == Op::Sub)
}

/// An operation of the multiplicative level (`*`, `/`).
pub open spec fn is_multiplicative(e: SpecExpr) -> bool {
    e matches SpecExpr::BinOp(_, op, _) && (op == Op::Mul || op == Op::Div)
}

/// Tokens of `e` where an expression is expected.
pub open spec fn print_expr(e: SpecExpr) -> Seq<SpecToken>
    decreases e, (if is_additive(e) { 0int } else { 3int }),
{
    if is_additive(e) {
        match e {
            SpecExpr::BinOp(l, op, r) => print_expr(*l) + seq![op_token(op)] + print_mul(*r),
            _ => Seq::empty(),
        }
    } else {
        print_mul(e)
    }
}

/// Tokens of `e` where an operand of `*` or `/` (or a left operand of them)
/// is expected: additive operations are parenthesized.
pub open spec fn print_mul(e: SpecExpr) -> Seq<SpecToken>
    decreases e, (if is_multiplicative(e) { 0int } else { 2int }),
{
    if is_multiplicative(e) {
        match e {
            SpecExpr::BinOp(l, op, r) => print_mul(*l) + seq![op_token(op)] + print_primary(*r),
            _ => Seq::empty(),
        }
    } else {
        print_primary(e)
    }
}

/// Tokens of `e` as a primary expression: operations are parenthesized.
pub open spec fn print_primary(e: SpecExpr) -> Seq<SpecToken>
    decreases e, 1int,
{
    match e {
        SpecExpr::IntLit(n) => seq![SpecToken::Int(n)],
        SpecExpr::FloatLit(f) => seq![SpecToken::Float(f)],
        SpecExpr::StringLit(s) => seq![SpecToken::Str(s)],
        SpecExpr::Var(x) => seq![SpecToken::Identifier(x)],
        SpecExpr::Call(f, args) => seq![SpecToken::Identifier(f), SpecToken::LParen] + print_args(args) + seq![
            SpecToken::RParen,
        ],
        SpecExpr::FieldAccess(obj, f) => print_primary(*obj) + seq![SpecToken::Dot, SpecToken::Identifier(f)],
        SpecExpr::BinOp(_, _, _) => seq![SpecToken::LParen] + (if is_additive(e) {
            print_expr(e)
        } else {
            print_mul(e)
        }) + seq![SpecToken::RParen],
    }
}

/// Tokens of call arguments, separated by commas.
pub open spec fn print_args(args: Seq<SpecExpr>) -> Seq<SpecToken>
    decreases args, 0int,
{
    if args.len() == 0 {
        Seq::empty()
    } else if args.len() == 1 {
        print_expr(args[0])
    } else {
        print_args(args.drop_last()) + seq![SpecToken::Comma] + print_expr(args.last())
    }
}

// ── Chains: left-associative operator chains and field chains ────────

/// Size of an expression (number of nodes).
pub open spec fn esize(e: SpecExpr) -> nat
    decreases e,
{
    match e {
        SpecExpr::BinOp(l, _, r) => 1 + esize(*l) + esize(*r),
        SpecExpr::Call(_, args) => 1 + esizes(args),
        SpecExpr::FieldAccess(obj, _) => 1 + esize(*obj),
        _ => 1,
    }
}

/// Total size of a list of expressions.
pub open spec fn esizes(s: Seq<SpecExpr>) -> nat
    decreases s,
{
    if s.len() == 0 {
        0
    } else {
        esizes(s.drop_last()) + esize(s.last())
    }
}

proof fn lemma_esizes_bound(s: Seq<SpecExpr>, i: int)
    requires
        0 <= i < s.len(),
    ensures
        esize(s[i]) <= esizes(s),
    decreases s.len(),
{
    if i < s.len() - 1 {
        lemma_esizes_bound(s.drop_last(), i);
    }
}

/// `acc` followed by the operations `ops` (operator and right operand),
/// applied from left to right.
pub open spec fn fold_ops(acc: SpecExpr, ops: Seq<(Op, SpecExpr)>) -> SpecExpr
    decreases ops.len(),
{
    if ops.len() == 0 {
        acc
    } else {
        fold_ops(SpecExpr::BinOp(Box::new(acc), ops[0].0, Box::new(ops[0].1)), ops.drop_first())
    }
}

proof fn lemma_fold_ops_push(acc: SpecExpr, ops: Seq<(Op, SpecExpr)>, x: (Op, SpecExpr))
    ensures
        fold_ops(acc, ops.push(x)) == SpecExpr::BinOp(Box::new(fold_ops(acc, ops)), x.0, Box::new(x.1)),
    decreases ops.len(),
{
    if ops.len() > 0 {
        assert(ops.push(x).drop_first() =~= ops.drop_first().push(x));
        lemma_fold_ops_push(SpecExpr::BinOp(Box::new(acc), ops[0].0, Box::new(ops[0].1)), ops.drop_first(), x);
    } else {
        assert(ops.push(x).drop_first() =~= Seq::<(Op, SpecExpr)>::empty());
        assert(ops.push(x)[0] == x);
        let b = SpecExpr::BinOp(Box::new(acc), x.0, Box::new(x.1));
        assert(fold_ops(b, Seq::<(Op, SpecExpr)>::empty()) == b);
    }
}

/// The leftmost operand of a chain of multiplicative operations.
pub open spec fn mul_head(e: SpecExpr) -> SpecExpr
    decreases e,
{
    if is_multiplicative(e) {
        match e {
            SpecExpr::BinOp(l, _, _) => mul_head(*l),
            _ => e,
        }
    } else {
        e
    }
}

/// The operations of a chain of multiplicative operations, left to right.
pub open spec fn mul_ops(e: SpecExpr) -> Seq<(Op, SpecExpr)>
    decreases e,
{
    if is_multiplicative(e) {
        match e {
            SpecExpr::BinOp(l, op, r) => mul_ops(*l).push((op, *r)),
            _ => Seq::empty(),
        }
    } else {
        Seq::empty()
    }
}

/// The leftmost operand of a chain of additive operations.
pub open spec fn add_head(e: SpecExpr) -> SpecExpr
    decreases e,
{
    if is_additive(e) {
        match e {
            SpecExpr::BinOp(l, _, _) => add_head(*l),
            _ => e,
        }
    } else {
        e
    }
}

/// The operations of a chain of additive operations, left to right.
pub open spec fn add_ops(e: SpecExpr) -> Seq<(Op, SpecExpr)>
    decreases e,
{
    if is_additive(e) {
        match e {
            SpecExpr::BinOp(l, op, r) => add_ops(*l).push((op, *r)),
            _ => Seq::empty(),
        }
    } else {
        Seq::empty()
    }
}

/// Tokens of the operations of a multiplicative chain.
pub open spec fn mul_ops_tokens(ops: Seq<(Op, SpecExpr)>) -> Seq<SpecToken>
    decreases ops.len(),
{
    if ops.len() == 0 {
        Seq::empty()
    } else {
        seq![op_token(ops[0].0)] + print_primary(ops[0].1) + mul_ops_tokens(ops.drop_first())
    }
}

/// Tokens of the operations of an additive chain.
pub open spec fn add_ops_tokens(ops: Seq<(Op, SpecExpr)>) -> Seq<SpecToken>
    decreases ops.len(),
{
    if ops.len() == 0 {
        Seq::empty()
    } else {
        seq![op_token(ops[0].0)] + print_mul(ops[0].1) + add_ops_tokens(ops.drop_first())
    }
}

proof fn lemma_mul_ops_tokens_push(ops: Seq<(Op, SpecExpr)>, x: (Op, SpecExpr))
    ensures
        mul_ops_tokens(ops.push(x)) == mul_ops_tokens(ops) + seq![op_token(x.0)] + print_primary(x.1),
    decreases ops.len(),
{
    if ops.len() > 0 {
        assert(ops.push(x).drop_first() =~= ops.drop_first().push(x));
        lemma_mul_ops_tokens_push(ops.drop_first(), x);
        assert(mul_ops_tokens(ops.push(x)) =~= mul_ops_tokens(ops) + seq![op_token(x.0)] + print_primary(x.1));
    } else {
        assert(ops.push(x).drop_first() =~= Seq::<(Op, SpecExpr)>::empty());
        assert(ops.push(x)[0] == x);
        assert(mul_ops_tokens(Seq::<(Op, SpecExpr)>::empty()) == Seq::<SpecToken>::empty());
        assert(mul_ops_tokens(ops.push(x)) =~= mul_ops_tokens(ops) + seq![op_token(x.0)] + print_primary(x.1));
    }
}

proof fn lemma_add_ops_tokens_push(ops: Seq<(Op, SpecExpr)>, x: (Op, SpecExpr))
    ensures
        add_ops_tokens(ops.push(x)) == add_ops_tokens(ops) + seq![op_token(x.0)] + print_mul(x.1),
    decreases ops.len(),
{
    if ops.len() > 0 {
        assert(ops.push(x).drop_first() =~= ops.drop_first().push(x));
        lemma_add_ops_tokens_push(ops.drop_first(), x);
        assert(add_ops_tokens(ops.push(x)) =~= add_ops_tokens(ops) + seq![op_token(x.0)] + print_mul(x.1));
    } else {
        assert(ops.push(x).drop_first() =~= Seq::<(Op, SpecExpr)>::empty());
        assert(ops.push(x)[0] == x);
        assert(add_ops_tokens(Seq::<(Op, SpecExpr)>::empty()) == Seq::<SpecToken>::empty());
        assert(add_ops_tokens(ops.push(x)) =~= add_ops_tokens(ops) + seq![op_token(x.0)] + print_mul(x.1));
    }
}

/// A multiplicative chain is its head followed by its operations, in
/// structure and in tokens; the head is not multiplicative, every
/// operator is `*` or `/`, and every part is smaller than the chain
/// (unless the chain is its head).
proof fn lemma_mul_chain(e: SpecExpr)
    ensures
        fold_ops(mul_head(e), mul_ops(e)) == e,
        print_mul(e) == print_primary(mul_head(e)) + mul_ops_tokens(mul_ops(e)),
        !is_multiplicative(mul_head(e)),
        is_multiplicative(e) ==> esize(mul_head(e)) < esize(e),
        !is_multiplicative(e) ==> mul_head(e) == e && mul_ops(e).len() == 0,
        forall|k: int|
            0 <= k < mul_ops(e).len() ==> esize((#[trigger] mul_ops(e)[k]).1) < esize(e) && (mul_ops(e)[k].0
                == Op::Mul || mul_ops(e)[k].0 == Op::Div),
    decreases e,
{
    if is_multiplicative(e) {
        match e {
            SpecExpr::BinOp(l, op, r) => {
                lemma_mul_chain(*l);
                lemma_fold_ops_push(mul_head(*l), mul_ops(*l), (op, *r));
                lemma_mul_ops_tokens_push(mul_ops(*l), (op, *r));
                assert(print_primary(mul_head(*l)) + mul_ops_tokens(mul_ops(*l)) + seq![op_token(op)] + print_primary(*r)
                    =~= print_primary(mul_head(*l)) + (mul_ops_tokens(mul_ops(*l)) + seq![op_token(op)] + print_primary(*r)));
                assert forall|k: int| 0 <= k < mul_ops(e).len() implies esize((#[trigger] mul_ops(e)[k]).1) < esize(e)
                    && (mul_ops(e)[k].0 == Op::Mul || mul_ops(e)[k].0 == Op::Div) by {
                    if k < mul_ops(*l).len() {
                        assert(mul_ops(e)[k] == mul_ops(*l)[k]);
                    }
                }
            },
            _ => {},
        }
    } else {
        assert(print_primary(e) + Seq::<SpecToken>::empty() =~= print_primary(e));
    }
}

/// An additive chain is its head followed by its operations (see
/// `lemma_mul_chain`).
proof fn lemma_add_chain(e: SpecExpr)
    ensures
        fold_ops(add_head(e), add_ops(e)) == e,
        print_expr(e) == print_mul(add_head(e)) + add_ops_tokens(add_ops(e)),
        !is_additive(add_head(e)),
        is_additive(e) ==> esize(add_head(e)) < esize(e),
        !is_additive(e) ==> add_head(e) == e && add_ops(e).len() == 0,
        forall|k: int|
            0 <= k < add_ops(e).len() ==> esize((#[trigger] add_ops(e)[k]).1) < esize(e) && (add_ops(e)[k].0
                == Op::Add || add_ops(e)[k].0 == Op::Sub),
    decreases e,
{
    if is_additive(e) {
        match e {
            SpecExpr::BinOp(l, op, r) => {
                lemma_add_chain(*l);
                lemma_fold_ops_push(add_head(*l), add_ops(*l), (op, *r));
                lemma_add_ops_tokens_push(add_ops(*l), (op, *r));
                assert(print_mul(add_head(*l)) + add_ops_tokens(add_ops(*l)) + seq![op_token(op)] + print_mul(*r)
                    =~= print_mul(add_head(*l)) + (add_ops_tokens(add_ops(*l)) + seq![op_token(op)] + print_mul(*r)));
                assert forall|k: int| 0 <= k < add_ops(e).len() implies esize((#[trigger] add_ops(e)[k]).1) < esize(e)
                    && (add_ops(e)[k].0 == Op::Add || add_ops(e)[k].0 == Op::Sub) by {
                    if k < add_ops(*l).len() {
                        assert(add_ops(e)[k] == add_ops(*l)[k]);
                    }
                }
            },
            _ => {},
        }
    } else {
        assert(print_mul(e) + Seq::<SpecToken>::empty() =~= print_mul(e));
    }
}

/// The object under a chain of field accesses.
pub open spec fn field_base(e: SpecExpr) -> SpecExpr
    decreases e,
{
    match e {
        SpecExpr::FieldAccess(obj, _) => field_base(*obj),
        _ => e,
    }
}

/// The fields accessed by a chain of field accesses, innermost first.
pub open spec fn field_names(e: SpecExpr) -> Seq<Seq<char>>
    decreases e,
{
    match e {
        SpecExpr::FieldAccess(obj, f) => field_names(*obj).push(f),
        _ => Seq::empty(),
    }
}

/// `base` with the fields `fs` accessed in turn.
pub open spec fn apply_fields(base: SpecExpr, fs: Seq<Seq<char>>) -> SpecExpr
    decreases fs.len(),
{
    if fs.len() == 0 {
        base
    } else {
        apply_fields(SpecExpr::FieldAccess(Box::new(base), fs[0]), fs.drop_first())
    }
}

/// Tokens of field accesses `.f`.
pub open spec fn field_tokens(fs: Seq<Seq<char>>) -> Seq<SpecToken>
    decreases fs.len(),
{
    if fs.len() == 0 {
        Seq::empty()
    } else {
        seq![SpecToken::Dot, SpecToken::Identifier(fs[0])] + field_tokens(fs.drop_first())
    }
}

proof fn lemma_apply_fields_push(base: SpecExpr, fs: Seq<Seq<char>>, f: Seq<char>)
    ensures
        apply_fields(base, fs.push(f)) == SpecExpr::FieldAccess(Box::new(apply_fields(base, fs)), f),
        field_tokens(fs.push(f)) == field_tokens(fs) + seq![SpecToken::Dot, SpecToken::Identifier(f)],
    decreases fs.len(),
{
    if fs.len() > 0 {
        assert(fs.push(f).drop_first() =~= fs.drop_first().push(f));
        lemma_apply_fields_push(SpecExpr::FieldAccess(Box::new(base), fs[0]), fs.drop_first(), f);
        assert(field_tokens(fs.push(f)) =~= field_tokens(fs) + seq![SpecToken::Dot, SpecToken::Identifier(f)]);
    } else {
        assert(fs.push(f).drop_first() =~= Seq::<Seq<char>>::empty());
        assert(fs.push(f)[0] == f);
        let b = SpecExpr::FieldAccess(Box::new(base), f);
        assert(apply_fields(b, Seq::<Seq<char>>::empty()) == b);
        assert(field_tokens(Seq::<Seq<char>>::empty()) == Seq::<SpecToken>::empty());
        assert(field_tokens(fs.push(f)) =~= field_tokens(fs) + seq![SpecToken::Dot, SpecToken::Identifier(f)]);
    }
}

/// A field chain is its object followed by its fields.
proof fn lemma_field_chain(e: SpecExpr)
    ensures
        apply_fields(field_base(e), field_names(e)) == e,
        print_primary(e) == print_primary(field_base(e)) + field_tokens(field_names(e)),
        !(field_base(e) is FieldAccess),
        esize(field_base(e)) <= esize(e),
        field_names(e).len() == 0 ==> field_base(e) == e,
    decreases e,
{
    match e {
        SpecExpr::FieldAccess(obj, f) => {
            lemma_field_chain(*obj);
            lemma_apply_fields_push(field_base(*obj), field_names(*obj), f);
            assert(print_primary(field_base(*obj)) + field_tokens(field_names(*obj)) + seq![
                SpecToken::Dot,
                SpecToken::Identifier(f),
            ] =~= print_primary(field_base(*obj)) + (field_tokens(field_names(*obj)) + seq![
                SpecToken::Dot,
                SpecToken::Identifier(f),
            ]));
        },
        _ => {
            assert(print_primary(e) + Seq::<SpecToken>::empty() =~= print_primary(e));
        },
    }
}

/// Arguments are the first, then `,` and the rest.
proof fn lemma_args_front(args: Seq<SpecExpr>)
    requires
        args.len() >= 2,
    ensures
        print_args(args) == print_expr(args[0]) + seq![SpecToken::Comma] + print_args(args.drop_first()),
    decreases args.len(),
{
    if args.len() == 2 {
        assert(args.drop_last() =~= seq![args[0]]);
        assert(args.drop_first() =~= seq![args[1]]);
        assert(print_args(args.drop_last()) == print_expr(args[0]));
        assert(print_args(args.drop_first()) == print_expr(args[1]));
    } else {
        let d = args.drop_last();
        lemma_args_front(d);
        assert(d[0] == args[0]);
        assert(d.drop_first() =~= args.drop_first().drop_last());
        assert(args.drop_first().last() == args.last());
        assert(print_args(args.drop_first()) == print_args(args.drop_first().drop_last()) + seq![SpecToken::Comma]
            + print_expr(args.drop_first().last()));
        assert(print_args(args) =~= print_expr(args[0]) + seq![SpecToken::Comma] + print_args(args.drop_first()));
    }
}

// ── Reading tokens back ─────────────────────────────────────────────

/// The tokens `toks` stand in `t` from position `pos`.
pub open spec fn at(t: Seq<SpecToken>, pos: int, toks: Seq<SpecToken>) -> bool {
    &&& 0 <= pos
    &&& pos + toks.len() <= t.len()
    &&& t.subrange(pos, pos + toks.len()) == toks
}

pub(crate) proof fn lemma_at_split(t: Seq<SpecToken>, pos: int, a: Seq<SpecToken>, b: Seq<SpecToken>)
    requires
        at(t, pos, a + b),
    ensures
        at(t, pos, a),
        at(t, pos + a.len(), b),
{
    let whole = t.subrange(pos, pos + (a + b).len());
    assert(whole == a + b);
    assert forall|i: int| 0 <= i < a.len() implies t.subrange(pos, pos + a.len())[i] == a[i] by {
        assert(whole[i] == t[pos + i]);
        assert((a + b)[i] == a[i]);
    }
    assert(t.subrange(pos, pos + a.len()) =~= a);
    assert forall|i: int| 0 <= i < b.len() implies t.subrange(pos + a.len(), pos + a.len() + b.len())[i] == b[i] by {
        assert(whole[a.len() + i] == t[pos + a.len() + i]);
        assert((a + b)[a.len() + i] == b[i]);
    }
    assert(t.subrange(pos + a.len(), pos + a.len() + b.len()) =~= b);
}

pub(crate) proof fn lemma_at_first(t: Seq<SpecToken>, pos: int, a: Seq<SpecToken>)
    requires
        at(t, pos, a),
        a.len() > 0,
    ensures
        tok(t, pos) == Some(a[0]),
{
    assert(t.subrange(pos, pos + a.len())[0] == t[pos]);
}

/// No field access follows at `p`.
pub open spec fn stop_fields(t: Seq<SpecToken>, p: int) -> bool {
    !is_tok(t, p, SpecToken::Dot) && !is_tok(t, p, SpecToken::Arrow)
}

/// Nothing that would extend a primary expression follows at `p`.
pub open spec fn stop_primary(t: Seq<SpecToken>, p: int) -> bool {
    stop_fields(t, p) && !is_tok(t, p, SpecToken::LParen)
}

/// Nothing that would extend a multiplicative expression follows at `p`.
pub open spec fn stop_mul(t: Seq<SpecToken>, p: int) -> bool {
    stop_primary(t, p) && multiplicative_op(t, p) is None
}

/// Nothing that would extend an expression follows at `p`.
pub open spec fn stop_expr(t: Seq<SpecToken>, p: int) -> bool {
    stop_mul(t, p) && additive_op(t, p) is None
}

proof fn lemma_field_tokens_parse(t: Seq<SpecToken>, base: SpecExpr, fs: Seq<Seq<char>>, pos: int)
    requires
        at(t, pos, field_tokens(fs)),
        stop_fields(t, pos + field_tokens(fs).len()),
    ensures
        p_field_chain(t, base, pos) == Some((apply_fields(base, fs), pos + field_tokens(fs).len())),
    decreases fs.len(),
{
    if fs.len() == 0 {
    } else {
        let head = seq![SpecToken::Dot, SpecToken::Identifier(fs[0])];
        lemma_at_split(t, pos, head, field_tokens(fs.drop_first()));
        lemma_at_first(t, pos, head);
        assert(seq![SpecToken::Dot] + seq![SpecToken::Identifier(fs[0])] =~= head);
        lemma_at_split(t, pos, seq![SpecToken::Dot], seq![SpecToken::Identifier(fs[0])]);
        lemma_at_first(t, pos + 1, seq![SpecToken::Identifier(fs[0])]);
        lemma_field_tokens_parse(t, SpecExpr::FieldAccess(Box::new(base), fs[0]), fs.drop_first(), pos + 2);
    }
}

proof fn lemma_print_primary_nonempty(e: SpecExpr)
    ensures
        print_primary(e).len() >= 1,
        print_primary(e)[0] is Int || print_primary(e)[0] is Float || print_primary(e)[0] is Str
            || print_primary(e)[0] is Identifier || print_primary(e)[0] is LParen,
    decreases e,
{
    if let SpecExpr::FieldAccess(obj, _) = e {
        lemma_print_primary_nonempty(*obj);
    }
}

pub(crate) proof fn lemma_print_expr_first(e: SpecExpr)
    ensures
        print_expr(e).len() >= 1,
        print_mul(e).len() >= 1,
        print_expr(e)[0] is Int || print_expr(e)[0] is Float || print_expr(e)[0] is Str
            || print_expr(e)[0] is Identifier || print_expr(e)[0] is LParen,
{
    lemma_add_chain(e);
    let h = add_head(e);
    lemma_mul_chain(h);
    lemma_mul_chain(e);
    lemma_print_primary_nonempty(mul_head(h));
    lemma_print_primary_nonempty(mul_head(e));
    assert(print_expr(e)[0] == print_mul(h)[0]);
    assert(print_mul(h)[0] == print_primary(mul_head(h))[0]);
}

/// Tokens of the arguments after the first `k`, each preceded by `,`.
pub open spec fn args_rest_tokens(rem: Seq<SpecExpr>) -> Seq<SpecToken> {
    if rem.len() == 0 {
        Seq::empty()
    } else {
        seq![SpecToken::Comma] + print_args(rem)
    }
}

proof fn lemma_args_rest_tokens_front(rem: Seq<SpecExpr>)
    requires
        rem.len() >= 1,
    ensures
        args_rest_tokens(rem) == seq![SpecToken::Comma] + print_expr(rem[0]) + args_rest_tokens(rem.drop_first()),
{
    if rem.len() >= 2 {
        lemma_args_front(rem);
        assert(args_rest_tokens(rem) =~= seq![SpecToken::Comma] + print_expr(rem[0]) + args_rest_tokens(rem.drop_first()));
    } else {
        assert(rem.drop_first().len() == 0);
        assert(args_rest_tokens(rem) =~= seq![SpecToken::Comma] + print_expr(rem[0]) + args_rest_tokens(rem.drop_first()));
    }
}

/// Reading the tokens of a primary expression gives it back.
proof fn lemma_parse_primary(e: SpecExpr, t: Seq<SpecToken>, pos: int)
    requires
        at(t, pos, print_primary(e)),
        stop_primary(t, pos + print_primary(e).len()),
    ensures
        p_primary(t, pos) == Some((e, pos + print_primary(e).len())),
    decreases esize(e), 2int, 0int,
{
    lemma_field_chain(e);
    let b = field_base(e);
    let fs = field_names(e);
    let pb = print_primary(b);
    let q = pos + pb.len();
    lemma_at_split(t, pos, pb, field_tokens(fs));
    lemma_print_primary_nonempty(b);
    lemma_at_first(t, pos, pb);
    assert(!is_tok(t, q, SpecToken::LParen)) by {
        if fs.len() > 0 {
            lemma_at_first(t, q, field_tokens(fs));
        }
    }
    assert(stop_fields(t, q + field_tokens(fs).len()));
    match b {
        SpecExpr::Call(f, args) => {
            let pa = print_args(args);
            let open = seq![SpecToken::Identifier(f), SpecToken::LParen];
            assert(pb == open + pa + seq![SpecToken::RParen]);
            lemma_at_split(t, pos, open + pa, seq![SpecToken::RParen]);
            lemma_at_split(t, pos, open, pa);
            assert(seq![SpecToken::Identifier(f)] + seq![SpecToken::LParen] =~= open);
            lemma_at_split(t, pos, seq![SpecToken::Identifier(f)], seq![SpecToken::LParen]);
            lemma_at_first(t, pos + 1, seq![SpecToken::LParen]);
            lemma_at_first(t, pos + 2 + pa.len(), seq![SpecToken::RParen]);
            assert(esizes(args) < esize(b));
            lemma_parse_args(args, t, pos + 2);
        },
        SpecExpr::BinOp(_, _, _) => {
            let inner = if is_additive(b) {
                print_expr(b)
            } else {
                print_mul(b)
            };
            assert(pb == seq![SpecToken::LParen] + inner + seq![SpecToken::RParen]);
            lemma_at_split(t, pos, seq![SpecToken::LParen] + inner, seq![SpecToken::RParen]);
            lemma_at_split(t, pos, seq![SpecToken::LParen], inner);
            lemma_at_first(t, pos + 1 + inner.len(), seq![SpecToken::RParen]);
            lemma_print_expr_first(b);
            if is_additive(b) {
                lemma_parse_expr(b, t, pos + 1);
            } else {
                lemma_parse_mul(b, t, pos + 1);
            }
        },
        _ => {},
    }
    lemma_field_tokens_parse(t, b, fs, q);
}

/// Reading the tokens of call arguments, up to the closing `)`, gives them back.
proof fn lemma_parse_args(args: Seq<SpecExpr>, t: Seq<SpecToken>, pos: int)
    requires
        at(t, pos, print_args(args)),
        is_tok(t, pos + print_args(args).len(), SpecToken::RParen),
    ensures
        p_args(t, pos) == Some((args, pos + print_args(args).len())),
    decreases esizes(args), 6int, 0int,
{
    if args.len() == 0 {
        assert(args =~= Seq::<SpecExpr>::empty());
    } else {
        let pe = print_expr(args[0]);
        let rest = args_rest_tokens(args.drop_first());
        assert(print_args(args) == pe + rest) by {
            if args.len() >= 2 {
                lemma_args_front(args);
            } else {
                assert(args.drop_first().len() == 0);
                assert(pe + rest =~= pe);
            }
        }
        lemma_at_split(t, pos, pe, rest);
        lemma_print_expr_first(args[0]);
        lemma_at_first(t, pos, pe);
        lemma_esizes_bound(args, 0);
        assert(stop_expr(t, pos + pe.len())) by {
            if rest.len() > 0 {
                lemma_at_first(t, pos + pe.len(), rest);
            }
        }
        lemma_parse_expr(args[0], t, pos);
        assert(seq![args[0]] =~= args.subrange(0, 1));
        lemma_parse_args_rest(args, 1, t, pos + pe.len());
    }
}

/// Reading `, argument` pairs after the first `k` arguments gives the rest back.
proof fn lemma_parse_args_rest(args: Seq<SpecExpr>, k: int, t: Seq<SpecToken>, pos: int)
    requires
        1 <= k <= args.len(),
        at(t, pos, args_rest_tokens(args.subrange(k, args.len() as int))),
        is_tok(t, pos + args_rest_tokens(args.subrange(k, args.len() as int)).len(), SpecToken::RParen),
    ensures
        p_args_rest(t, args.subrange(0, k), pos) == Some(
            (args, pos + args_rest_tokens(args.subrange(k, args.len() as int)).len()),
        ),
    decreases esizes(args), 5int, args.len() - k,
{
    let rem = args.subrange(k, args.len() as int);
    if k == args.len() {
        assert(args.subrange(0, k) =~= args);
    } else {
        lemma_args_rest_tokens_front(rem);
        assert(rem[0] == args[k]);
        assert(rem.drop_first() =~= args.subrange(k + 1, args.len() as int));
        let pe = print_expr(args[k]);
        let next = args_rest_tokens(args.subrange(k + 1, args.len() as int));
        lemma_at_split(t, pos, seq![SpecToken::Comma] + pe, next);
        lemma_at_split(t, pos, seq![SpecToken::Comma], pe);
        lemma_at_first(t, pos, seq![SpecToken::Comma]);
        lemma_esizes_bound(args, k);
        assert(stop_expr(t, pos + 1 + pe.len())) by {
            if next.len() > 0 {
                lemma_at_first(t, pos + 1 + pe.len(), next);
            }
        }
        lemma_print_expr_first(args[k]);
        lemma_parse_expr(args[k], t, pos + 1);
        assert(args.subrange(0, k).push(args[k]) =~= args.subrange(0, k + 1));
        lemma_parse_args_rest(args, k + 1, t, pos + 1 + pe.len());
    }
}

/// Reading the tokens of `e` where a multiplicative expression is expected
/// gives `e` back.
proof fn lemma_parse_mul(e: SpecExpr, t: Seq<SpecToken>, pos: int)
    requires
        at(t, pos, print_mul(e)),
        stop_mul(t, pos + print_mul(e).len()),
    ensures
        p_multiplicative(t, pos) == Some((e, pos + print_mul(e).len())),
    decreases esize(e), (if is_multiplicative(e) { 1int } else { 3int }), 0int,
{
    lemma_mul_chain(e);
    let h = mul_head(e);
    let ops = mul_ops(e);
    let ph = print_primary(h);
    lemma_at_split(t, pos, ph, mul_ops_tokens(ops));
    lemma_print_primary_nonempty(h);
    assert(stop_primary(t, pos + ph.len())) by {
        if ops.len() > 0 {
            lemma_at_first(t, pos + ph.len(), mul_ops_tokens(ops));
        }
    }
    lemma_parse_primary(h, t, pos);
    assert(ops.subrange(0, ops.len() as int) =~= ops);
    lemma_parse_mul_chain(e, 0, h, t, pos + ph.len());
}

/// Reading the operations of a multiplicative chain from the `k`-th on,
/// after `acc`, applies them to `acc`.
proof fn lemma_parse_mul_chain(e: SpecExpr, k: int, acc: SpecExpr, t: Seq<SpecToken>, pos: int)
    requires
        0 <= k <= mul_ops(e).len(),
        forall|j: int|
            0 <= j < mul_ops(e).len() ==> esize((#[trigger] mul_ops(e)[j]).1) < esize(e) && (mul_ops(e)[j].0
                == Op::Mul || mul_ops(e)[j].0 == Op::Div),
        at(t, pos, mul_ops_tokens(mul_ops(e).subrange(k, mul_ops(e).len() as int))),
        stop_mul(t, pos + mul_ops_tokens(mul_ops(e).subrange(k, mul_ops(e).len() as int)).len()),
    ensures
        p_multiplicative_rest(t, acc, pos) == Some(
            (
                fold_ops(acc, mul_ops(e).subrange(k, mul_ops(e).len() as int)),
                pos + mul_ops_tokens(mul_ops(e).subrange(k, mul_ops(e).len() as int)).len(),
            ),
        ),
    decreases esize(e), 0int, mul_ops(e).len() - k,
{
    let ops = mul_ops(e);
    let rem = ops.subrange(k, ops.len() as int);
    if k < ops.len() {
        let x = ops[k];
        assert(rem[0] == x);
        assert(rem.drop_first() =~= ops.subrange(k + 1, ops.len() as int));
        let pr = print_primary(x.1);
        let next = mul_ops_tokens(ops.subrange(k + 1, ops.len() as int));
        assert(mul_ops_tokens(rem) == seq![op_token(x.0)] + pr + next);
        lemma_at_split(t, pos, seq![op_token(x.0)] + pr, next);
        lemma_at_split(t, pos, seq![op_token(x.0)], pr);
        lemma_at_first(t, pos, seq![op_token(x.0)]);
        lemma_print_primary_nonempty(x.1);
        assert(stop_primary(t, pos + 1 + pr.len())) by {
            if next.len() > 0 {
                lemma_at_first(t, pos + 1 + pr.len(), next);
                assert(ops[k + 1].0 == Op::Mul || ops[k + 1].0 == Op::Div);
                assert(next[0] == op_token(ops.subrange(k + 1, ops.len() as int)[0].0));
            }
        }
        lemma_parse_primary(x.1, t, pos + 1);
        lemma_parse_mul_chain(e, k + 1, SpecExpr::BinOp(Box::new(acc), x.0, Box::new(x.1)), t, pos + 1 + pr.len());
    }
}

/// Reading the tokens of an expression gives it back.
pub(crate) proof fn lemma_parse_expr(e: SpecExpr, t: Seq<SpecToken>, pos: int)
    requires
        at(t, pos, print_expr(e)),
        stop_expr(t, pos + print_expr(e).len()),
    ensures
        p_expr(t, pos) == Some((e, pos + print_expr(e).len())),
    decreases esize(e), (if is_additive(e) { 1int } else { 4int }), 0int,
{
    lemma_add_chain(e);
    let h = add_head(e);
    let ops = add_ops(e);
    let ph = print_mul(h);
    lemma_at_split(t, pos, ph, add_ops_tokens(ops));
    lemma_print_expr_first(h);
    assert(stop_mul(t, pos + ph.len())) by {
        if ops.len() > 0 {
            lemma_at_first(t, pos + ph.len(), add_ops_tokens(ops));
        }
    }
    lemma_parse_mul(h, t, pos);
    assert(ops.subrange(0, ops.len() as int) =~= ops);
    lemma_parse_add_chain(e, 0, h, t, pos + ph.len());
}

/// Reading the operations of an additive chain from the `k`-th on, after
/// `acc`, applies them to `acc`.
proof fn lemma_parse_add_chain(e: SpecExpr, k: int, acc: SpecExpr, t: Seq<SpecToken>, pos: int)
    requires
        0 <= k <= add_ops(e).len(),
        forall|j: int|
            0 <= j < add_ops(e).len() ==> esize((#[trigger] add_ops(e)[j]).1) < esize(e) && (add_ops(e)[j].0
                == Op::Add || add_ops(e)[j].0 == Op::Sub),
        at(t, pos, add_ops_tokens(add_ops(e).subrange(k, add_ops(e).len() as int))),
        stop_expr(t, pos + add_ops_tokens(add_ops(e).subrange(k, add_ops(e).len() as int)).len()),
    ensures
        p_additive_rest(t, acc, pos) == Some(
            (
                fold_ops(acc, add_ops(e).subrange(k, add_ops(e).len() as int)),
                pos + add_ops_tokens(add_ops(e).subrange(k, add_ops(e).len() as int)).len(),
            ),
        ),
    decreases esize(e), 0int, add_ops(e).len() - k,
{
    let ops = add_ops(e);
    let rem = ops.subrange(k, ops.len() as int);
    if k < ops.len() {
        let x = ops[k];
        assert(rem[0] == x);
        assert(rem.drop_first() =~= ops.subrange(k + 1, ops.len() as int));
        let pm = print_mul(x.1);
        let next = add_ops_tokens(ops.subrange(k + 1, ops.len() as int));
        assert(add_ops_tokens(rem) == seq![op_token(x.0)] + pm + next);
        lemma_at_split(t, pos, seq![op_token(x.0)] + pm, next);
        lemma_at_split(t, pos, seq![op_token(x.0)], pm);
        lemma_at_first(t, pos, seq![op_token(x.0)]);
        lemma_print_expr_first(x.1);
        assert(stop_mul(t, pos + 1 + pm.len())) by {
            if next.len() > 0 {
                lemma_at_first(t, pos + 1 + pm.len(), next);
                assert(ops[k + 1].0 == Op::Add || ops[k + 1].0 == Op::Sub);
                assert(next[0] == op_token(ops.subrange(k + 1, ops.len() as int)[0].0));
            }
        }
        lemma_parse_mul(x.1, t, pos + 1);
        lemma_parse_add_chain(e, k + 1, SpecExpr::BinOp(Box::new(acc), x.0, Box::new(x.1)), t, pos + 1 + pm.len());
    }
}

/// Parsing reads back what printing wrote: the tokens of any expression,
/// printed with only the parentheses that precedence and left
/// associativity require, parse to that same expression, whatever follows
/// them (so long as it does not continue the expression: no operator,
/// field access or `(`).
pub proof fn law_parse_inverts_print(e: SpecExpr, rest: Seq<SpecToken>)
    requires
        stop_expr(print_expr(e) + rest, print_expr(e).len() as int),
    ensures
        p_expr(print_expr(e) + rest, 0) == Some((e, print_expr(e).len() as int)),
{
    let t = print_expr(e) + rest;
    assert(t.subrange(0, print_expr(e).len() as int) =~= print_expr(e));
    lemma_parse_expr(e, t, 0);
}

} // verus!
