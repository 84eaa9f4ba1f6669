use vstd::prelude::*;

verus! {

/// A C type.
#[derive(Debug, Clone, PartialEq)]
pub enum Type {
    Int,
    Float,
    Ptr,
    Struct(String),
}

/// A binary arithmetic operator.
#[derive(Debug, Clone, Copy, PartialEq, Eq, Structural)]
pub enum Op {
    Add,
    Sub,
    Mul,
    Div,
}

/// Quotient of `a` by `b` as C's `/` gives it on integers: rounded toward
/// zero.
pub open spec fn c_quotient(a: int, b: int) -> int {
    let q = if a >= 0 { a } else { -a } / if b >= 0 { b } else { -b };
    if (a >= 0) == (b >= 0) { q } else { -q }
}

/// What a C arithmetic operator computes on integers `a` and `b`.
pub open spec fn op_apply(op: Op, a: int, b: int) -> int {
    match op {
        Op::Add => a + b,
        Op::Sub => a - b,
        Op::Mul => a * b,
        Op::Div => c_quotient(a, b),
    }
}

/// An expression. A float literal is kept as its source text.
#[derive(Debug, PartialEq)]
pub enum Expr {
    IntLit(i32),
    FloatLit(String),
    StringLit(String),
    Var(String),
    BinOp(Box<Expr>, Op, Box<Expr>),
    Call(String, Vec<Expr>),
    FieldAccess(Box<Expr>, String),
}

pub ghost enum SpecType {
    Int,
    Float,
    Ptr,
    Struct(Seq<char>),
}

pub ghost enum SpecExpr {
    IntLit(i32),
    FloatLit(Seq<char>),
    StringLit(Seq<char>),
    Var(Seq<char>),
    BinOp(Box<SpecExpr>, Op, Box<SpecExpr>),
    Call(Seq<char>, Seq<SpecExpr>),
    FieldAccess(Box<SpecExpr>, Seq<char>),
}

impl View for Type {
    type V = SpecType;

    open spec fn view(&self) -> SpecType {
        match self {
            Type::Int => SpecType::Int,
            Type::Float => SpecType::Float,
            Type::Ptr => SpecType::Ptr,
            Type::Struct(n) => SpecType::Struct(n@),
        }
    }
}

pub open spec fn expr_view(e: Expr) -> SpecExpr
    decreases e,
{
    match e {
        Expr::IntLit(n) => SpecExpr::IntLit(n),
        Expr::FloatLit(s) => SpecExpr::FloatLit(s@),
        Expr::StringLit(s) => SpecExpr::StringLit(s@),
        Expr::Var(s) => SpecExpr::Var(s@),
        Expr::BinOp(l, op, r) => SpecExpr::BinOp(Box::new(expr_view(*l)), op, Box::new(expr_view(*r))),
        Expr::Call(name, args) => SpecExpr::Call(name@, exprs_view(args@)),
        Expr::FieldAccess(obj, f) => SpecExpr::FieldAccess(Box::new(expr_view(*obj)), f@),
    }
}

pub open spec fn exprs_view(s: Seq<Expr>) -> Seq<SpecExpr>
    decreases s,
{
    if s.len() == 0 {
        Seq::empty()
    } else {
        exprs_view(s.drop_last()).push(expr_view(s.last()))
    }
}

/// A statement.
#[derive(Debug, PartialEq)]
pub enum Stmt {
    Let(String, Type, Option<Expr>),
    Assign(String, Expr),
    FieldAssign(String, String, Expr),
    Return(Expr),
    Expr(Expr),
}

/// A function definition.
#[derive(Debug, PartialEq)]
pub struct Function {
    pub name: String,
    pub params: Vec<(String, Type)>,
    pub return_type: Type,
    pub body: Vec<Stmt>,
}

/// A struct definition.
#[derive(Debug, Clone, PartialEq)]
pub struct StructDef {
    pub name: String,
    pub fields: Vec<(String, Type)>,
}

/// A whole translation unit.
#[derive(Debug, PartialEq)]
pub struct Program {
    pub structs: Vec<StructDef>,
    pub functions: Vec<Function>,
}

pub ghost enum SpecStmt {
    Let(Seq<char>, SpecType, Option<SpecExpr>),
    Assign(Seq<char>, SpecExpr),
    FieldAssign(Seq<char>, Seq<char>, SpecExpr),
    Return(SpecExpr),
    Expr(SpecExpr),
}

pub ghost struct SpecFunction {
    pub name: Seq<char>,
    pub params: Seq<(Seq<char>, SpecType)>,
    pub return_type: SpecType,
    pub body: Seq<SpecStmt>,
}

pub ghost struct SpecStructDef {
    pub name: Seq<char>,
    pub fields: Seq<(Seq<char>, SpecType)>,
}

pub ghost struct SpecProgram {
    pub structs: Seq<SpecStructDef>,
    pub functions: Seq<SpecFunction>,
}

impl View for Expr {
    type V = SpecExpr;

    open spec fn view(&self) -> SpecExpr {
        expr_view(*self)
    }
}

/// The view of a list of named, typed slots (parameters or fields).
pub open spec fn typed_names_view(v: Seq<(String, Type)>) -> Seq<(Seq<char>, SpecType)> {
    v.map_values(|p: (String, Type)| (p.0@, p.1@))
}

pub open spec fn stmts_view(v: Seq<Stmt>) -> Seq<SpecStmt> {
    v.map_values(|s: Stmt| s@)
}

pub open spec fn struct_defs_view(v: Seq<StructDef>) -> Seq<SpecStructDef> {
    v.map_values(|s: StructDef| s@)
}

pub open spec fn functions_view(v: Seq<Function>) -> Seq<SpecFunction> {
    v.map_values(|f: Function| f@)
}

impl View for Stmt {
    type V = SpecStmt;

    open spec fn view(&self) -> SpecStmt {
        match self {
            Stmt::Let(n, t, init) => SpecStmt::Let(
                n@,
                t@,
                match init {
                    Some(e) => Some(e@),
                    None => None,
                },
            ),
            Stmt::Assign(n, e) => SpecStmt::Assign(n@, e@),
            Stmt::FieldAssign(v, f, e) => SpecStmt::FieldAssign(v@, f@, e@),
            Stmt::Return(e) => SpecStmt::Return(e@),
            Stmt::Expr(e) => SpecStmt::Expr(e@),
        }
    }
}

impl View for Function {
    type V = SpecFunction;

    open spec fn view(&self) -> SpecFunction {
        SpecFunction {
            name: self.name@,
            params: typed_names_view(self.params@),
            return_type: self.return_type@,
            body: stmts_view(self.body@),
        }
    }
}

impl View for StructDef {
    type V = SpecStructDef;

    open spec fn view(&self) -> SpecStructDef {
        SpecStructDef { name: self.name@, fields: typed_names_view(self.fields@) }
    }
}

impl View for Program {
    type V = SpecProgram;

    open spec fn view(&self) -> SpecProgram {
        SpecProgram {
            structs: struct_defs_view(self.structs@),
            functions: functions_view(self.functions@),
        }
    }
}

} // verus!
