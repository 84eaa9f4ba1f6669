use wasm_jit::c_compiler::ast::{Expr, Op, Program, Stmt, StructDef, Type};
use wasm_jit::c_compiler::lexer::tokenize;
use wasm_jit::c_compiler::parser::parse;

// ── Helper ──────────────────────────────────────────────────

fn parse_src(src: &str) -> Program {
    parse(tokenize(src))
}

// ── Example programs ────────────────────────────────────────

#[test]
fn parser_test_hello() {
    let prog = parse_src("int main() { print_i32(42); return 0; }");
    assert_eq!(prog.functions.len(), 1);
    let f = &prog.functions[0];
    assert_eq!(f.name, "main");
    assert_eq!(f.return_type, Type::Int);
    assert!(f.params.is_empty());
    assert_eq!(
        f.body,
        vec![
            Stmt::Expr(Expr::Call("print_i32".into(), vec![Expr::IntLit(42)])),
            Stmt::Return(Expr::IntLit(0)),
        ]
    );
}

#[test]
fn parser_test_arithmetic() {
    let src = r#"
        int add(int a, int b) { return a + b; }
        int main() {
            int x = add(10, 20);
            print_i32(x);
            return 0;
        }
    "#;
    let prog = parse_src(src);
    assert_eq!(prog.functions.len(), 2);

    let add = &prog.functions[0];
    assert_eq!(add.name, "add");
    assert_eq!(
        add.params,
        vec![("a".into(), Type::Int), ("b".into(), Type::Int)]
    );
    assert_eq!(
        add.body,
        vec![Stmt::Return(Expr::BinOp(
            Box::new(Expr::Var("a".into())),
            Op::Add,
            Box::new(Expr::Var("b".into())),
        ))]
    );

    let main = &prog.functions[1];
    assert_eq!(main.name, "main");
    assert_eq!(
        main.body[0],
        Stmt::Let(
            "x".into(),
            Type::Int,
            Some(Expr::Call(
                "add".into(),
                vec![Expr::IntLit(10), Expr::IntLit(20)]
            ))
        )
    );
}

#[test]
fn test_strings() {
    let src = r#"
        int main() {
            print_str("hello world");
            print_i32(123);
            return 0;
        }
    "#;
    let prog = parse_src(src);
    let main = &prog.functions[0];
    assert_eq!(
        main.body[0],
        Stmt::Expr(Expr::Call(
            "print_str".into(),
            vec![Expr::StringLit("hello world".into())]
        ))
    );
}

#[test]
fn test_structs() {
    let src = r#"
        struct Point { int x; int y; };
        int main() {
            struct Point p;
            p.x = 10;
            p.y = 20;
            print_i32(p.x);
            print_i32(p.y);
            return 0;
        }
    "#;
    let prog = parse_src(src);

    assert_eq!(prog.structs.len(), 1);
    assert_eq!(
        prog.structs[0],
        StructDef {
            name: "Point".into(),
            fields: vec![("x".into(), Type::Int), ("y".into(), Type::Int)],
        }
    );

    let main = &prog.functions[0];
    assert_eq!(main.body[0], Stmt::Let("p".into(), Type::Struct("Point".into()), None));
    assert_eq!(main.body[1], Stmt::FieldAssign("p".into(), "x".into(), Expr::IntLit(10)));
    assert_eq!(main.body[2], Stmt::FieldAssign("p".into(), "y".into(), Expr::IntLit(20)));
    assert_eq!(
        main.body[3],
        Stmt::Expr(Expr::Call(
            "print_i32".into(),
            vec![Expr::FieldAccess(Box::new(Expr::Var("p".into())), "x".into())]
        ))
    );
}

// ── Expression precedence ───────────────────────────────────

#[test]
fn test_precedence() {
    // a + b * c  →  Add(a, Mul(b, c))
    let prog = parse_src("int f() { return a + b * c; }");
    assert_eq!(
        prog.functions[0].body[0],
        Stmt::Return(Expr::BinOp(
            Box::new(Expr::Var("a".into())),
            Op::Add,
            Box::new(Expr::BinOp(
                Box::new(Expr::Var("b".into())),
                Op::Mul,
                Box::new(Expr::Var("c".into())),
            )),
        ))
    );
}

#[test]
fn test_left_associativity() {
    // a - b - c  →  Sub(Sub(a, b), c)
    let prog = parse_src("int f() { return a - b - c; }");
    assert_eq!(
        prog.functions[0].body[0],
        Stmt::Return(Expr::BinOp(
            Box::new(Expr::BinOp(
                Box::new(Expr::Var("a".into())),
                Op::Sub,
                Box::new(Expr::Var("b".into())),
            )),
            Op::Sub,
            Box::new(Expr::Var("c".into())),
        ))
    );
}

#[test]
fn test_parenthesized_expr() {
    // (a + b) * c  →  Mul(Add(a, b), c)
    let prog = parse_src("int f() { return (a + b) * c; }");
    assert_eq!(
        prog.functions[0].body[0],
        Stmt::Return(Expr::BinOp(
            Box::new(Expr::BinOp(
                Box::new(Expr::Var("a".into())),
                Op::Add,
                Box::new(Expr::Var("b".into())),
            )),
            Op::Mul,
            Box::new(Expr::Var("c".into())),
        ))
    );
}

// ── Edge cases ──────────────────────────────────────────────

#[test]
fn test_empty_function() {
    let prog = parse_src("int noop() { }");
    assert_eq!(prog.functions[0].body.len(), 0);
}

#[test]
fn test_variable_assign() {
    let prog = parse_src("int f() { int x = 1; x = 2; return x; }");
    assert_eq!(prog.functions[0].body[0], Stmt::Let("x".into(), Type::Int, Some(Expr::IntLit(1))));
    assert_eq!(prog.functions[0].body[1], Stmt::Assign("x".into(), Expr::IntLit(2)));
    assert_eq!(prog.functions[0].body[2], Stmt::Return(Expr::Var("x".into())));
}

#[test]
fn test_nested_calls() {
    let prog = parse_src("int f() { return add(mul(2, 3), 4); }");
    assert_eq!(
        prog.functions[0].body[0],
        Stmt::Return(Expr::Call(
            "add".into(),
            vec![
                Expr::Call("mul".into(), vec![Expr::IntLit(2), Expr::IntLit(3)]),
                Expr::IntLit(4),
            ]
        ))
    );
}

#[test]
fn test_arrow_access() {
    let prog = parse_src("int f() { return p->x; }");
    assert_eq!(
        prog.functions[0].body[0],
        Stmt::Return(Expr::FieldAccess(
            Box::new(Expr::Var("p".into())),
            "x".into(),
        ))
    );
}

#[test]
fn test_multiple_structs_and_functions() {
    let src = r#"
        struct A { int val; };
        struct B { float f; };
        int foo() { return 1; }
        int bar() { return 2; }
    "#;
    let prog = parse_src(src);
    assert_eq!(prog.structs.len(), 2);
    assert_eq!(prog.functions.len(), 2);
    assert_eq!(prog.structs[0].name, "A");
    assert_eq!(prog.structs[1].name, "B");
    assert_eq!(prog.functions[0].name, "foo");
    assert_eq!(prog.functions[1].name, "bar");
}
