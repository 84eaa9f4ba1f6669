use vstd::prelude::*;

use crate::c_compiler::ast::{
    exprs_view, functions_view, stmts_view, struct_defs_view, typed_names_view, Expr, Function, Op,
    Program, SpecExpr, SpecFunction, SpecProgram, SpecStmt, SpecStructDef, SpecType, Stmt, StructDef,
    Type,
};
use crate::c_compiler::lexer::{tokens_view, SpecToken, Token};

verus! {

// ── The grammar, as partial functions on token positions ────────────
//
// Each function reads the tokens `t` from position `pos` and gives the
// value read and the position after it, or `None` where the input does
// not follow the grammar.

/// The token at `pos`, if any.
pub open spec fn tok(t: Seq<SpecToken>, pos: int) -> Option<SpecToken> {
    if 0 <= pos < t.len() {
        Some(t[pos])
    } else {
        None
    }
}

/// `expected` stands at `pos`.
pub open spec fn is_tok(t: Seq<SpecToken>, pos: int, expected: SpecToken) -> bool {
    tok(t, pos) == Some(expected)
}

/// The identifier at `pos`, if one stands there.
pub open spec fn ident_at(t: Seq<SpecToken>, pos: int) -> Option<Seq<char>> {
    match tok(t, pos) {
        Some(SpecToken::Identifier(n)) => Some(n),
        _ => None,
    }
}

/// type := `int` | `float` | `char` | `struct` ident
pub open spec fn p_type(t: Seq<SpecToken>, pos: int) -> Option<(SpecType, int)> {
    match tok(t, pos) {
        Some(SpecToken::KwInt) => Some((SpecType::Int, pos + 1)),
        Some(SpecToken::KwFloat) => Some((SpecType::Float, pos + 1)),
        Some(SpecToken::KwChar) => Some((SpecType::Ptr, pos + 1)),
        Some(SpecToken::KwStruct) => match ident_at(t, pos + 1) {
            Some(n) => Some((SpecType::Struct(n), pos + 2)),
            None => None,
        },
        _ => None,
    }
}

/// A type starts at `pos`.
pub open spec fn type_starts(t: Seq<SpecToken>, pos: int) -> bool {
    match tok(t, pos) {
        Some(SpecToken::KwInt) | Some(SpecToken::KwFloat) | Some(SpecToken::KwChar) | Some(
            SpecToken::KwStruct,
        ) => true,
        _ => false,
    }
}

/// `pos < p <= t.len()`: a sub-parse that stopped at `p` made progress.
pub open spec fn advanced(t: Seq<SpecToken>, pos: int, p: int) -> bool {
    pos < p <= t.len()
}

/// expression := additive
pub open spec fn p_expr(t: Seq<SpecToken>, pos: int) -> Option<(SpecExpr, int)>
    decreases t.len() - pos, 6int,
{
    if pos < 0 || pos > t.len() {
        None
    } else {
        p_additive(t, pos)
    }
}

/// additive := multiplicative ((`+` | `-`) multiplicative)*, left-associative
pub open spec fn p_additive(t: Seq<SpecToken>, pos: int) -> Option<(SpecExpr, int)>
    decreases t.len() - pos, 5int,
{
    if pos < 0 || pos > t.len() {
        None
    } else {
        match p_multiplicative(t, pos) {
            Some((left, p)) => if advanced(t, pos, p) {
                p_additive_rest(t, left, p)
            } else {
                None
            },
            None => None,
        }
    }
}

/// The additive operator at `pos`, if any.
pub open spec fn additive_op(t: Seq<SpecToken>, pos: int) -> Option<Op> {
    match tok(t, pos) {
        Some(SpecToken::Plus) => Some(Op::Add),
        Some(SpecToken::Minus) => Some(Op::Sub),
        _ => None,
    }
}

/// The multiplicative operator at `pos`, if any.
pub open spec fn multiplicative_op(t: Seq<SpecToken>, pos: int) -> Option<Op> {
    match tok(t, pos) {
        Some(SpecToken::Star) => Some(Op::Mul),
        Some(SpecToken::Slash) => Some(Op::Div),
        _ => None,
    }
}

/// The operator-operand pairs that follow `left` in an additive chain.
pub open spec fn p_additive_rest(t: Seq<SpecToken>, left: SpecExpr, pos: int) -> Option<(SpecExpr, int)>
    decreases t.len() - pos, 4int,
{
    if pos < 0 || pos > t.len() {
        None
    } else {
        match additive_op(t, pos) {
            Some(op) => match p_multiplicative(t, pos + 1) {
                Some((right, p)) => if advanced(t, pos + 1, p) {
                    p_additive_rest(t, SpecExpr::BinOp(Box::new(left), op, Box::new(right)), p)
                } else {
                    None
                },
                None => None,
            },
            None => Some((left, pos)),
        }
    }
}

/// multiplicative := primary ((`*` | `/`) primary)*, left-associative
pub open spec fn p_multiplicative(t: Seq<SpecToken>, pos: int) -> Option<(SpecExpr, int)>
    decreases t.len() - pos, 3int,
{
    if pos < 0 || pos > t.len() {
        None
    } else {
        match p_primary(t, pos) {
            Some((left, p)) => if advanced(t, pos, p) {
                p_multiplicative_rest(t, left, p)
            } else {
                None
            },
            None => None,
        }
    }
}

/// The operator-operand pairs that follow `left` in a multiplicative chain.
pub open spec fn p_multiplicative_rest(t: Seq<SpecToken>, left: SpecExpr, pos: int) -> Option<(SpecExpr, int)>
    decreases t.len() - pos, 1int,
{
    if pos < 0 || pos > t.len() {
        None
    } else {
        match multiplicative_op(t, pos) {
            Some(op) => match p_primary(t, pos + 1) {
                Some((right, p)) => if advanced(t, pos + 1, p) {
                    p_multiplicative_rest(t, SpecExpr::BinOp(Box::new(left), op, Box::new(right)), p)
                } else {
                    None
                },
                None => None,
            },
            None => Some((left, pos)),
        }
    }
}

/// primary := int | float | string | ident | ident `(` args `)` | `(` expression `)`,
/// followed by any number of `.field` / `->field`
pub open spec fn p_primary(t: Seq<SpecToken>, pos: int) -> Option<(SpecExpr, int)>
    decreases t.len() - pos, 2int,
{
    if pos < 0 || pos > t.len() {
        None
    } else {
        let base: Option<(SpecExpr, int)> = match tok(t, pos) {
            Some(SpecToken::Int(n)) => Some((SpecExpr::IntLit(n), pos + 1)),
            Some(SpecToken::Float(f)) => Some((SpecExpr::FloatLit(f), pos + 1)),
            Some(SpecToken::Str(s)) => Some((SpecExpr::StringLit(s), pos + 1)),
            Some(SpecToken::Identifier(name)) => if is_tok(t, pos + 1, SpecToken::LParen) {
                match p_args(t, pos + 2) {
                    Some((args, p)) => if advanced(t, pos + 1, p) && is_tok(t, p, SpecToken::RParen) {
                        Some((SpecExpr::Call(name, args), p + 1))
                    } else {
                        None
                    },
                    None => None,
                }
            } else {
                Some((SpecExpr::Var(name), pos + 1))
            },
            Some(SpecToken::LParen) => match p_expr(t, pos + 1) {
                Some((inner, p)) => if advanced(t, pos + 1, p) && is_tok(t, p, SpecToken::RParen) {
                    Some((inner, p + 1))
                } else {
                    None
                },
                None => None,
            },
            _ => None,
        };
        match base {
            Some((e, p)) => p_field_chain(t, e, p),
            None => None,
        }
    }
}

/// Call arguments from `pos`: nothing before `)`, else a comma-separated
/// list of expressions.
pub open spec fn p_args(t: Seq<SpecToken>, pos: int) -> Option<(Seq<SpecExpr>, int)>
    decreases t.len() - pos, 7int,
{
    if pos < 0 || pos > t.len() {
        None
    } else if is_tok(t, pos, SpecToken::RParen) {
        Some((Seq::empty(), pos))
    } else {
        match p_expr(t, pos) {
            Some((e, p)) => if advanced(t, pos, p) {
                p_args_rest(t, seq![e], p)
            } else {
                None
            },
            None => None,
        }
    }
}

/// The `, expression` pairs that follow the arguments `acc`.
pub open spec fn p_args_rest(t: Seq<SpecToken>, acc: Seq<SpecExpr>, pos: int) -> Option<(Seq<SpecExpr>, int)>
    decreases t.len() - pos, 0int,
{
    if pos < 0 || pos > t.len() {
        None
    } else if is_tok(t, pos, SpecToken::Comma) {
        match p_expr(t, pos + 1) {
            Some((e, p)) => if advanced(t, pos + 1, p) {
                p_args_rest(t, acc.push(e), p)
            } else {
                None
            },
            None => None,
        }
    } else {
        Some((acc, pos))
    }
}

/// A field access token (`.` or `->`) stands at `pos`.
pub open spec fn is_field_access(t: Seq<SpecToken>, pos: int) -> bool {
    is_tok(t, pos, SpecToken::Dot) || is_tok(t, pos, SpecToken::Arrow)
}

/// The `.field` / `->field` accesses applied to `base` from `pos`.
pub open spec fn p_field_chain(t: Seq<SpecToken>, base: SpecExpr, pos: int) -> Option<(SpecExpr, int)>
    decreases t.len() - pos,
{
    if pos < 0 || pos > t.len() {
        None
    } else if is_field_access(t, pos) {
        match ident_at(t, pos + 1) {
            Some(f) => p_field_chain(t, SpecExpr::FieldAccess(Box::new(base), f), pos + 2),
            None => None,
        }
    } else {
        Some((base, pos))
    }
}

/// statement :=
///     `return` expression `;`
///   | type ident (`=` expression)? `;`
///   | expression `=` expression `;`   (target a variable or `var.field`)
///   | expression `;`
pub open spec fn p_statement(t: Seq<SpecToken>, pos: int) -> Option<(SpecStmt, int)> {
    if is_tok(t, pos, SpecToken::KwReturn) {
        match p_expr(t, pos + 1) {
            Some((e, p)) => if is_tok(t, p, SpecToken::Semicolon) {
                Some((SpecStmt::Return(e), p + 1))
            } else {
                None
            },
            None => None,
        }
    } else if type_starts(t, pos) {
        match p_type(t, pos) {
            Some((ty, p)) => match ident_at(t, p) {
                Some(name) => if is_tok(t, p + 1, SpecToken::Equal) {
                    match p_expr(t, p + 2) {
                        Some((e, p2)) => if is_tok(t, p2, SpecToken::Semicolon) {
                            Some((SpecStmt::Let(name, ty, Some(e)), p2 + 1))
                        } else {
                            None
                        },
                        None => None,
                    }
                } else if is_tok(t, p + 1, SpecToken::Semicolon) {
                    Some((SpecStmt::Let(name, ty, None), p + 2))
                } else {
                    None
                },
                None => None,
            },
            None => None,
        }
    } else {
        match p_expr(t, pos) {
            Some((e, p)) => if is_tok(t, p, SpecToken::Equal) {
                match p_expr(t, p + 1) {
                    Some((value, p2)) => if is_tok(t, p2, SpecToken::Semicolon) {
                        match assignment(e, value) {
                            Some(s) => Some((s, p2 + 1)),
                            None => None,
                        }
                    } else {
                        None
                    },
                    None => None,
                }
            } else if is_tok(t, p, SpecToken::Semicolon) {
                Some((SpecStmt::Expr(e), p + 1))
            } else {
                None
            },
            None => None,
        }
    }
}

/// The statement `target = value`, for the targets that can be assigned.
pub open spec fn assignment(target: SpecExpr, value: SpecExpr) -> Option<SpecStmt> {
    match target {
        SpecExpr::Var(name) => Some(SpecStmt::Assign(name, value)),
        SpecExpr::FieldAccess(obj, field) => match *obj {
            SpecExpr::Var(var) => Some(SpecStmt::FieldAssign(var, field, value)),
            _ => None,
        },
        _ => None,
    }
}

/// Statements from `pos` up to (not including) the closing `}`.
pub open spec fn p_block(t: Seq<SpecToken>, acc: Seq<SpecStmt>, pos: int) -> Option<(Seq<SpecStmt>, int)>
    decreases t.len() - pos,
{
    if pos < 0 || pos > t.len() {
        None
    } else if is_tok(t, pos, SpecToken::RBrace) {
        Some((acc, pos))
    } else {
        match p_statement(t, pos) {
            Some((s, p)) => if advanced(t, pos, p) {
                p_block(t, acc.push(s), p)
            } else {
                None
            },
            None => None,
        }
    }
}

/// One `type name` pair.
pub open spec fn p_typed_name(t: Seq<SpecToken>, pos: int) -> Option<((Seq<char>, SpecType), int)> {
    match p_type(t, pos) {
        Some((ty, p)) => match ident_at(t, p) {
            Some(n) => Some(((n, ty), p + 1)),
            None => None,
        },
        None => None,
    }
}

/// The `, type name` pairs that follow the parameters `acc`.
pub open spec fn p_params_rest(t: Seq<SpecToken>, acc: Seq<(Seq<char>, SpecType)>, pos: int) -> Option<(Seq<(Seq<char>, SpecType)>, int)>
    decreases t.len() - pos,
{
    if pos < 0 || pos > t.len() {
        None
    } else if is_tok(t, pos, SpecToken::Comma) {
        match p_typed_name(t, pos + 1) {
            Some((param, p)) => if advanced(t, pos, p) {
                p_params_rest(t, acc.push(param), p)
            } else {
                None
            },
            None => None,
        }
    } else {
        Some((acc, pos))
    }
}

/// Parameters from `pos`: nothing before `)`, else a comma-separated list.
pub open spec fn p_params(t: Seq<SpecToken>, pos: int) -> Option<(Seq<(Seq<char>, SpecType)>, int)> {
    if is_tok(t, pos, SpecToken::RParen) {
        Some((Seq::empty(), pos))
    } else {
        match p_typed_name(t, pos) {
            Some((param, p)) => p_params_rest(t, seq![param], p),
            None => None,
        }
    }
}

/// function := type ident `(` params `)` `{` statement* `}`
pub open spec fn p_function(t: Seq<SpecToken>, pos: int) -> Option<(SpecFunction, int)> {
    match p_type(t, pos) {
        Some((return_type, p1)) => match ident_at(t, p1) {
            Some(name) => if is_tok(t, p1 + 1, SpecToken::LParen) {
                match p_params(t, p1 + 2) {
                    Some((params, p2)) => if is_tok(t, p2, SpecToken::RParen) && is_tok(t, p2 + 1, SpecToken::LBrace) {
                        match p_block(t, Seq::empty(), p2 + 2) {
                            Some((body, p3)) => if is_tok(t, p3, SpecToken::RBrace) {
                                Some((SpecFunction { name, params, return_type, body }, p3 + 1))
                            } else {
                                None
                            },
                            None => None,
                        }
                    } else {
                        None
                    },
                    None => None,
                }
            } else {
                None
            },
            None => None,
        },
        None => None,
    }
}

/// Field declarations `type name ;` from `pos` up to the closing `}`.
pub open spec fn p_field_decls(t: Seq<SpecToken>, acc: Seq<(Seq<char>, SpecType)>, pos: int) -> Option<(Seq<(Seq<char>, SpecType)>, int)>
    decreases t.len() - pos,
{
    if pos < 0 || pos > t.len() {
        None
    } else if is_tok(t, pos, SpecToken::RBrace) {
        Some((acc, pos))
    } else {
        match p_typed_name(t, pos) {
            Some((field, p)) => if is_tok(t, p, SpecToken::Semicolon) && advanced(t, pos, p + 1) {
                p_field_decls(t, acc.push(field), p + 1)
            } else {
                None
            },
            None => None,
        }
    }
}

/// struct definition := `struct` ident `{` (type ident `;`)* `}` `;`
pub open spec fn p_struct_def(t: Seq<SpecToken>, pos: int) -> Option<(SpecStructDef, int)> {
    if is_tok(t, pos, SpecToken::KwStruct) {
        match ident_at(t, pos + 1) {
            Some(name) => if is_tok(t, pos + 2, SpecToken::LBrace) {
                match p_field_decls(t, Seq::empty(), pos + 3) {
                    Some((fields, p)) => if is_tok(t, p, SpecToken::RBrace) && is_tok(t, p + 1, SpecToken::Semicolon) {
                        Some((SpecStructDef { name, fields }, p + 2))
                    } else {
                        None
                    },
                    None => None,
                }
            } else {
                None
            },
            None => None,
        }
    } else {
        None
    }
}

/// A struct definition (rather than a function returning a struct)
/// starts at `pos`: `struct Name {`.
pub open spec fn struct_def_starts(t: Seq<SpecToken>, pos: int) -> bool {
    is_tok(t, pos, SpecToken::KwStruct) && is_tok(t, pos + 2, SpecToken::LBrace)
}

/// Top-level items from `pos` to the end, after the items `structs` and
/// `functions` already read.
pub open spec fn p_items(
    t: Seq<SpecToken>,
    structs: Seq<SpecStructDef>,
    functions: Seq<SpecFunction>,
    pos: int,
) -> Option<SpecProgram>
    decreases t.len() - pos,
{
    if pos < 0 || pos >= t.len() {
        Some(SpecProgram { structs, functions })
    } else if struct_def_starts(t, pos) {
        match p_struct_def(t, pos) {
            Some((s, p)) => if advanced(t, pos, p) {
                p_items(t, structs.push(s), functions, p)
            } else {
                None
            },
            None => None,
        }
    } else {
        match p_function(t, pos) {
            Some((f, p)) => if advanced(t, pos, p) {
                p_items(t, structs, functions.push(f), p)
            } else {
                None
            },
            None => None,
        }
    }
}

/// The program that a token sequence spells, or `None` where it does not
/// follow the grammar.
pub open spec fn spec_parse(t: Seq<SpecToken>) -> Option<SpecProgram> {
    p_items(t, Seq::empty(), Seq::empty(), 0)
}

// ── Token helpers ────────────────────────────────────────────────

/// A copy of a token.
fn copy_token(t: &Token) -> (r: Token)
    ensures
        r@ == t@,
{
    match t {
        Token::Int(n) => Token::Int(*n),
        Token::Float(s) => Token::Float(s.clone()),
        Token::String(s) => Token::String(s.clone()),
        Token::Identifier(s) => Token::Identifier(s.clone()),
        Token::Plus => Token::Plus,
        Token::Minus => Token::Minus,
        Token::Star => Token::Star,
        Token::Slash => Token::Slash,
        Token::LParen => Token::LParen,
        Token::RParen => Token::RParen,
        Token::LBrace => Token::LBrace,
        Token::RBrace => Token::RBrace,
        Token::Semicolon => Token::Semicolon,
        Token::Comma => Token::Comma,
        Token::Dot => Token::Dot,
        Token::Equal => Token::Equal,
        Token::Arrow => Token::Arrow,
        Token::KwInt => Token::KwInt,
        Token::KwFloat => Token::KwFloat,
        Token::KwReturn => Token::KwReturn,
        Token::KwStruct => Token::KwStruct,
        Token::KwConst => Token::KwConst,
        Token::KwChar => Token::KwChar,
    }
}

/// Whether two tokens are the same token.
fn same_token(a: &Token, b: &Token) -> (r: bool)
    ensures
        r == (a@ == b@),
{
    match a {
        Token::Int(x) => match b {
            Token::Int(y) => *x == *y,
            _ => false,
        },
        Token::Float(x) => match b {
            Token::Float(y) => *x == *y,
            _ => false,
        },
        Token::String(x) => match b {
            Token::String(y) => *x == *y,
            _ => false,
        },
        Token::Identifier(x) => match b {
            Token::Identifier(y) => *x == *y,
            _ => false,
        },
        Token::Plus => matches!(b, Token::Plus),
        Token::Minus => matches!(b, Token::Minus),
        Token::Star => matches!(b, Token::Star),
        Token::Slash => matches!(b, Token::Slash),
        Token::LParen => matches!(b, Token::LParen),
        Token::RParen => matches!(b, Token::RParen),
        Token::LBrace => matches!(b, Token::LBrace),
        Token::RBrace => matches!(b, Token::RBrace),
        Token::Semicolon => matches!(b, Token::Semicolon),
        Token::Comma => matches!(b, Token::Comma),
        Token::Dot => matches!(b, Token::Dot),
        Token::Equal => matches!(b, Token::Equal),
        Token::Arrow => matches!(b, Token::Arrow),
        Token::KwInt => matches!(b, Token::KwInt),
        Token::KwFloat => matches!(b, Token::KwFloat),
        Token::KwReturn => matches!(b, Token::KwReturn),
        Token::KwStruct => matches!(b, Token::KwStruct),
        Token::KwConst => matches!(b, Token::KwConst),
        Token::KwChar => matches!(b, Token::KwChar),
    }
}

// ── The parser ───────────────────────────────────────────────────
//
// The `try_` methods read from the current position and answer `None`
// exactly where the grammar functions above answer `None`; `try_parse`
// uses them. The methods without the prefix, further below, read input
// that follows the grammar; `parse` uses them.

struct Parser {
    tokens: Vec<Token>,
    pos: usize,
}

impl Parser {
    /// The tokens being read, as values.
    spec fn t(&self) -> Seq<SpecToken> {
        tokens_view(self.tokens@)
    }

    /// The position lies within (or just after) the tokens.
    spec fn inv(&self) -> bool {
        self.pos <= self.tokens@.len()
    }

    fn new(tokens: Vec<Token>) -> (p: Self)
        ensures
            p.tokens@ == tokens@,
            p.pos == 0,
    {
        Parser { tokens, pos: 0 }
    }

    fn peek(&self) -> (r: Option<&Token>)
        ensures
            r matches Some(x) ==> tok(self.t(), self.pos as int) == Some(x@),
            r is None ==> tok(self.t(), self.pos as int) is None,
    {
        if self.pos < self.tokens.len() {
            Some(&self.tokens[self.pos])
        } else {
            None
        }
    }

    fn peek_at(&self, offset: usize) -> (r: Option<&Token>)
        ensures
            r matches Some(x) ==> tok(self.t(), self.pos + offset) == Some(x@),
            r is None ==> tok(self.t(), self.pos + offset) is None,
    {
        if self.pos < self.tokens.len() && offset < self.tokens.len() - self.pos {
            Some(&self.tokens[self.pos + offset])
        } else {
            None
        }
    }

    /// Whether the token at the current position is `expected`.
    fn peek_is(&self, expected: &Token) -> (b: bool)
        ensures
            b == is_tok(self.t(), self.pos as int, expected@),
    {
        match self.peek() {
            Some(t) => same_token(t, expected),
            None => false,
        }
    }

    /// Whether the token `offset` places ahead is `expected`.
    fn peek_at_is(&self, offset: usize, expected: &Token) -> (b: bool)
        ensures
            b == is_tok(self.t(), self.pos + offset, expected@),
    {
        match self.peek_at(offset) {
            Some(t) => same_token(t, expected),
            None => false,
        }
    }

    /// Takes the current token, or `None` at the end of input.
    fn try_advance(&mut self) -> (r: Option<Token>)
        requires
            old(self).inv(),
        ensures
            final(self).tokens == old(self).tokens,
            final(self).inv(),
            match tok(old(self).t(), old(self).pos as int) {
                Some(x) => r matches Some(y) && y@ == x && final(self).pos == old(self).pos + 1,
                None => r is None && final(self).pos == old(self).pos,
            },
    {
        if self.pos < self.tokens.len() {
            let tok = copy_token(&self.tokens[self.pos]);
            self.pos = self.pos + 1;
            Some(tok)
        } else {
            None
        }
    }

    /// Takes the current token if it is `expected`.
    fn try_expect(&mut self, expected: Token) -> (ok: bool)
        requires
            old(self).inv(),
        ensures
            final(self).tokens == old(self).tokens,
            final(self).inv(),
            ok == is_tok(old(self).t(), old(self).pos as int, expected@),
            ok ==> final(self).pos == old(self).pos + 1,
    {
        match self.try_advance() {
            Some(tok) => same_token(&tok, &expected),
            None => false,
        }
    }

    /// Takes the current token if it is an identifier, and gives its name.
    fn try_expect_ident(&mut self) -> (r: Option<String>)
        requires
            old(self).inv(),
        ensures
            final(self).tokens == old(self).tokens,
            final(self).inv(),
            match ident_at(old(self).t(), old(self).pos as int) {
                Some(n) => r matches Some(name) && name@ == n && final(self).pos == old(self).pos + 1,
                None => r is None,
            },
    {
        match self.try_advance() {
            Some(Token::Identifier(name)) => Some(name),
            _ => None,
        }
    }

    fn is_type_start(&self) -> (b: bool)
        ensures
            b == type_starts(self.t(), self.pos as int),
    {
        match self.peek() {
            Some(Token::KwInt) | Some(Token::KwFloat) | Some(Token::KwChar) | Some(Token::KwStruct) => true,
            _ => false,
        }
    }

    fn try_parse_type(&mut self) -> (r: Option<Type>)
        requires
            old(self).inv(),
        ensures
            final(self).tokens == old(self).tokens,
            final(self).inv(),
            match p_type(old(self).t(), old(self).pos as int) {
                Some((ty, p)) => r matches Some(x) && x@ == ty && final(self).pos == p,
                None => r is None,
            },
    {
        match self.try_advance() {
            Some(Token::KwInt) => Some(Type::Int),
            Some(Token::KwFloat) => Some(Type::Float),
            Some(Token::KwChar) => Some(Type::Ptr),
            Some(Token::KwStruct) => match self.try_expect_ident() {
                Some(name) => Some(Type::Struct(name)),
                None => None,
            },
            _ => None,
        }
    }

    // ── Expressions (precedence climbing) ──────────────────────

    fn try_parse_expression(&mut self) -> (r: Option<Expr>)
        requires
            old(self).inv(),
        ensures
            final(self).tokens == old(self).tokens,
            final(self).inv(),
            match p_expr(old(self).t(), old(self).pos as int) {
                Some((e, p)) => r matches Some(x) && x@ == e && final(self).pos == p,
                None => r is None,
            },
            r is Some ==> old(self).pos < final(self).pos,
        decreases old(self).tokens@.len() - old(self).pos, 6int,
    {
        self.try_parse_additive()
    }

    fn try_parse_additive(&mut self) -> (r: Option<Expr>)
        requires
            old(self).inv(),
        ensures
            final(self).tokens == old(self).tokens,
            final(self).inv(),
            match p_additive(old(self).t(), old(self).pos as int) {
                Some((e, p)) => r matches Some(x) && x@ == e && final(self).pos == p,
                None => r is None,
            },
            r is Some ==> old(self).pos < final(self).pos,
        decreases old(self).tokens@.len() - old(self).pos, 5int,
    {
        let ghost t = self.t();
        let ghost pos0 = self.pos as int;
        let mut left = match self.try_parse_multiplicative() {
            Some(e) => e,
            None => {
                return None;
            },
        };
        while self.peek_is(&Token::Plus) || self.peek_is(&Token::Minus)
            invariant
                self.tokens == old(self).tokens,
                t == self.t(),
                self.inv(),
                pos0 == old(self).pos,
                pos0 < self.pos,
                p_additive(t, pos0) == p_additive_rest(t, left@, self.pos as int),
            decreases self.tokens@.len() - self.pos,
        {
            let op = if self.peek_is(&Token::Plus) {
                Op::Add
            } else {
                Op::Sub
            };
            let ghost at = self.pos as int;
            self.try_advance();
            let right = match self.try_parse_multiplicative() {
                Some(e) => e,
                None => {
                    return None;
                },
            };
            left = Expr::BinOp(Box::new(left), op, Box::new(right));
        }
        Some(left)
    }

    fn try_parse_multiplicative(&mut self) -> (r: Option<Expr>)
        requires
            old(self).inv(),
        ensures
            final(self).tokens == old(self).tokens,
            final(self).inv(),
            match p_multiplicative(old(self).t(), old(self).pos as int) {
                Some((e, p)) => r matches Some(x) && x@ == e && final(self).pos == p,
                None => r is None,
            },
            r is Some ==> old(self).pos < final(self).pos,
        decreases old(self).tokens@.len() - old(self).pos, 3int,
    {
        let ghost t = self.t();
        let ghost pos0 = self.pos as int;
        let mut left = match self.try_parse_primary() {
            Some(e) => e,
            None => {
                return None;
            },
        };
        while self.peek_is(&Token::Star) || self.peek_is(&Token::Slash)
            invariant
                self.tokens == old(self).tokens,
                t == self.t(),
                self.inv(),
                pos0 == old(self).pos,
                pos0 < self.pos,
                p_multiplicative(t, pos0) == p_multiplicative_rest(t, left@, self.pos as int),
            decreases self.tokens@.len() - self.pos,
        {
            let op = if self.peek_is(&Token::Star) {
                Op::Mul
            } else {
                Op::Div
            };
            self.try_advance();
            let right = match self.try_parse_primary() {
                Some(e) => e,
                None => {
                    return None;
                },
            };
            left = Expr::BinOp(Box::new(left), op, Box::new(right));
        }
        Some(left)
    }

    fn try_parse_primary(&mut self) -> (r: Option<Expr>)
        requires
            old(self).inv(),
        ensures
            final(self).tokens == old(self).tokens,
            final(self).inv(),
            match p_primary(old(self).t(), old(self).pos as int) {
                Some((e, p)) => r matches Some(x) && x@ == e && final(self).pos == p,
                None => r is None,
            },
            r is Some ==> old(self).pos < final(self).pos,
        decreases old(self).tokens@.len() - old(self).pos, 2int,
    {
        let ghost t = self.t();
        let ghost pos0 = self.pos as int;
        let first = match self.try_advance() {
            Some(first) => first,
            None => {
                return None;
            },
        };
        let mut expr = match first {
            Token::Int(n) => Expr::IntLit(n),
            Token::Float(f) => Expr::FloatLit(f),
            Token::String(s) => Expr::StringLit(s),
            Token::Identifier(name) => {
                if self.peek_is(&Token::LParen) {
                    self.try_advance();
                    let mut args: Vec<Expr> = Vec::new();
                    if !self.peek_is(&Token::RParen) {
                        let arg = match self.try_parse_expression() {
                            Some(e) => e,
                            None => {
                                return None;
                            },
                        };
                        args.push(arg);
                        proof {
                            assert(args@.drop_last() =~= Seq::<Expr>::empty());
                            assert(exprs_view(Seq::<Expr>::empty()) == Seq::<SpecExpr>::empty());
                            assert(exprs_view(args@) =~= seq![args@[0]@]);
                        }
                        while self.peek_is(&Token::Comma)
                            invariant
                                self.tokens == old(self).tokens,
                                t == self.t(),
                                self.inv(),
                                pos0 == old(self).pos,
                                pos0 + 2 < self.pos,
                                tok(t, pos0) == Some(SpecToken::Identifier(name@)),
                                is_tok(t, pos0 + 1, SpecToken::LParen),
                                p_args(t, pos0 + 2) == p_args_rest(t, exprs_view(args@), self.pos as int),
                            decreases self.tokens@.len() - self.pos,
                        {
                            self.try_advance();
                            let e = match self.try_parse_expression() {
                                Some(e) => e,
                                None => {
                                    return None;
                                },
                            };
                            let ghost before = args@;
                            args.push(e);
                            assert(args@.drop_last() =~= before);
                        }
                    }
                    if !self.try_expect(Token::RParen) {
                        return None;
                    }
                    Expr::Call(name, args)
                } else {
                    Expr::Var(name)
                }
            },
            Token::LParen => {
                let inner = match self.try_parse_expression() {
                    Some(e) => e,
                    None => {
                        return None;
                    },
                };
                if !self.try_expect(Token::RParen) {
                    return None;
                }
                inner
            },
            _ => {
                return None;
            },
        };
        // field access chains: .field or ->field
        while self.peek_is(&Token::Dot) || self.peek_is(&Token::Arrow)
            invariant
                self.tokens == old(self).tokens,
                t == self.t(),
                self.inv(),
                pos0 == old(self).pos,
                pos0 < self.pos,
                p_primary(t, pos0) == p_field_chain(t, expr@, self.pos as int),
            decreases self.tokens@.len() - self.pos,
        {
            self.try_advance();
            let field = match self.try_expect_ident() {
                Some(f) => f,
                None => {
                    return None;
                },
            };
            expr = Expr::FieldAccess(Box::new(expr), field);
        }
        Some(expr)
    }

    // ── Statements ─────────────────────────────────────────────

    fn try_parse_statement(&mut self) -> (r: Option<Stmt>)
        requires
            old(self).inv(),
        ensures
            final(self).tokens == old(self).tokens,
            final(self).inv(),
            match p_statement(old(self).t(), old(self).pos as int) {
                Some((s, p)) => r matches Some(x) && x@ == s && final(self).pos == p,
                None => r is None,
            },
            r is Some ==> old(self).pos < final(self).pos,
    {
        // return expr ;
        if self.peek_is(&Token::KwReturn) {
            self.try_advance();
            let expr = match self.try_parse_expression() {
                Some(e) => e,
                None => {
                    return None;
                },
            };
            if !self.try_expect(Token::Semicolon) {
                return None;
            }
            return Some(Stmt::Return(expr));
        }
        // type name (= expr)? ;
        if self.is_type_start() {
            let ty = match self.try_parse_type() {
                Some(ty) => ty,
                None => {
                    return None;
                },
            };
            let name = match self.try_expect_ident() {
                Some(n) => n,
                None => {
                    return None;
                },
            };
            if self.peek_is(&Token::Equal) {
                self.try_advance();
                let expr = match self.try_parse_expression() {
                    Some(e) => e,
                    None => {
                        return None;
                    },
                };
                if !self.try_expect(Token::Semicolon) {
                    return None;
                }
                return Some(Stmt::Let(name, ty, Some(expr)));
            } else {
                if !self.try_expect(Token::Semicolon) {
                    return None;
                }
                return Some(Stmt::Let(name, ty, None));
            }
        }
        // expression, then `=` (assignment) or `;` (expression statement)
        let expr = match self.try_parse_expression() {
            Some(e) => e,
            None => {
                return None;
            },
        };
        if self.peek_is(&Token::Equal) {
            self.try_advance();
            let value = match self.try_parse_expression() {
                Some(e) => e,
                None => {
                    return None;
                },
            };
            if !self.try_expect(Token::Semicolon) {
                return None;
            }
            let ghost target = expr@;
            match expr {
                Expr::Var(name) => Some(Stmt::Assign(name, value)),
                Expr::FieldAccess(obj, field) => {
                    let ghost inner = (*obj)@;
                    assert(target == SpecExpr::FieldAccess(Box::new(inner), field@));
                    match *obj {
                        Expr::Var(var) => Some(Stmt::FieldAssign(var, field, value)),
                        _ => {
                            assert(!(inner is Var));
                            None
                        },
                    }
                },
                _ => None,
            }
        } else {
            if !self.try_expect(Token::Semicolon) {
                return None;
            }
            Some(Stmt::Expr(expr))
        }
    }

    // ── Top-level ──────────────────────────────────────────────

    /// `type name`
    fn try_parse_typed_name(&mut self) -> (r: Option<(String, Type)>)
        requires
            old(self).inv(),
        ensures
            final(self).tokens == old(self).tokens,
            final(self).inv(),
            match p_typed_name(old(self).t(), old(self).pos as int) {
                Some((x, p)) => r matches Some(y) && (y.0@, y.1@) == x && final(self).pos == p,
                None => r is None,
            },
            r is Some ==> old(self).pos < final(self).pos,
    {
        let ty = match self.try_parse_type() {
            Some(ty) => ty,
            None => {
                return None;
            },
        };
        let name = match self.try_expect_ident() {
            Some(n) => n,
            None => {
                return None;
            },
        };
        Some((name, ty))
    }

    fn try_parse_struct_def(&mut self) -> (r: Option<StructDef>)
        requires
            old(self).inv(),
        ensures
            final(self).tokens == old(self).tokens,
            final(self).inv(),
            match p_struct_def(old(self).t(), old(self).pos as int) {
                Some((d, p)) => r matches Some(x) && x@ == d && final(self).pos == p,
                None => r is None,
            },
            r is Some ==> old(self).pos < final(self).pos,
    {
        let ghost t = self.t();
        let ghost pos0 = self.pos as int;
        if !self.try_expect(Token::KwStruct) {
            return None;
        }
        let name = match self.try_expect_ident() {
            Some(n) => n,
            None => {
                return None;
            },
        };
        if !self.try_expect(Token::LBrace) {
            return None;
        }
        let mut fields: Vec<(String, Type)> = Vec::new();
        assert(typed_names_view(fields@) =~= Seq::<(Seq<char>, SpecType)>::empty());
        while !self.peek_is(&Token::RBrace)
            invariant
                self.tokens == old(self).tokens,
                t == self.t(),
                self.inv(),
                pos0 == old(self).pos,
                pos0 + 3 <= self.pos,
                is_tok(t, pos0, SpecToken::KwStruct),
                ident_at(t, pos0 + 1) == Some(name@),
                is_tok(t, pos0 + 2, SpecToken::LBrace),
                p_field_decls(t, Seq::empty(), pos0 + 3) == p_field_decls(t, typed_names_view(fields@), self.pos as int),
            decreases self.tokens@.len() - self.pos,
        {
            let field = match self.try_parse_typed_name() {
                Some(f) => f,
                None => {
                    return None;
                },
            };
            if !self.try_expect(Token::Semicolon) {
                return None;
            }
            let ghost before = fields@;
            fields.push(field);
            assert(typed_names_view(fields@) =~= typed_names_view(before).push((field.0@, field.1@)));
        }
        if !self.try_expect(Token::RBrace) {
            return None;
        }
        if !self.try_expect(Token::Semicolon) {
            return None;
        }
        Some(StructDef { name, fields })
    }

    fn try_parse_function(&mut self) -> (r: Option<Function>)
        requires
            old(self).inv(),
        ensures
            final(self).tokens == old(self).tokens,
            final(self).inv(),
            match p_function(old(self).t(), old(self).pos as int) {
                Some((f, p)) => r matches Some(x) && x@ == f && final(self).pos == p,
                None => r is None,
            },
            r is Some ==> old(self).pos < final(self).pos,
    {
        let ghost t = self.t();
        let ghost pos0 = self.pos as int;
        let return_type = match self.try_parse_type() {
            Some(ty) => ty,
            None => {
                return None;
            },
        };
        let ghost p1 = self.pos as int;
        let name = match self.try_expect_ident() {
            Some(n) => n,
            None => {
                return None;
            },
        };
        if !self.try_expect(Token::LParen) {
            return None;
        }
        let mut params: Vec<(String, Type)> = Vec::new();
        if !self.peek_is(&Token::RParen) {
            let param = match self.try_parse_typed_name() {
                Some(x) => x,
                None => {
                    return None;
                },
            };
            params.push(param);
            assert(typed_names_view(params@) =~= seq![(param.0@, param.1@)]);
            while self.peek_is(&Token::Comma)
                invariant
                    self.tokens == old(self).tokens,
                    t == self.t(),
                    self.inv(),
                    pos0 == old(self).pos,
                    p_type(t, pos0) == Some((return_type@, p1)),
                    ident_at(t, p1) == Some(name@),
                    is_tok(t, p1 + 1, SpecToken::LParen),
                    p1 + 2 < self.pos,
                    !is_tok(t, p1 + 2, SpecToken::RParen),
                    p_typed_name(t, p1 + 2) is Some,
                    p_params(t, p1 + 2) == p_params_rest(t, typed_names_view(params@), self.pos as int),
                decreases self.tokens@.len() - self.pos,
            {
                self.try_advance();
                let param = match self.try_parse_typed_name() {
                    Some(x) => x,
                    None => {
                        return None;
                    },
                };
                let ghost before = params@;
                params.push(param);
                assert(typed_names_view(params@) =~= typed_names_view(before).push((param.0@, param.1@)));
            }
        } else {
            assert(typed_names_view(params@) =~= Seq::<(Seq<char>, SpecType)>::empty());
        }
        if !self.try_expect(Token::RParen) {
            return None;
        }
        if !self.try_expect(Token::LBrace) {
            return None;
        }
        let ghost p2 = self.pos as int;
        let mut body: Vec<Stmt> = Vec::new();
        assert(stmts_view(body@) =~= Seq::<SpecStmt>::empty());
        while !self.peek_is(&Token::RBrace)
            invariant
                self.tokens == old(self).tokens,
                t == self.t(),
                self.inv(),
                p2 <= self.pos,
                pos0 == old(self).pos,
                p_type(t, pos0) == Some((return_type@, p1)),
                ident_at(t, p1) == Some(name@),
                is_tok(t, p1 + 1, SpecToken::LParen),
                p_params(t, p1 + 2) == Some((typed_names_view(params@), p2 - 2)),
                is_tok(t, p2 - 2, SpecToken::RParen),
                is_tok(t, p2 - 1, SpecToken::LBrace),
                p_block(t, Seq::empty(), p2) == p_block(t, stmts_view(body@), self.pos as int),
            decreases self.tokens@.len() - self.pos,
        {
            let stmt = match self.try_parse_statement() {
                Some(s) => s,
                None => {
                    return None;
                },
            };
            let ghost before = body@;
            body.push(stmt);
            assert(stmts_view(body@) =~= stmts_view(before).push(stmt@));
        }
        if !self.try_expect(Token::RBrace) {
            return None;
        }
        Some(Function { name, params, return_type, body })
    }

    fn try_parse_program(&mut self) -> (r: Option<Program>)
        requires
            old(self).inv(),
        ensures
            match p_items(old(self).t(), Seq::empty(), Seq::empty(), old(self).pos as int) {
                Some(prog) => r matches Some(x) && x@ == prog,
                None => r is None,
            },
    {
        let ghost t = self.t();
        let ghost pos0 = self.pos as int;
        let mut structs: Vec<StructDef> = Vec::new();
        let mut functions: Vec<Function> = Vec::new();
        assert(struct_defs_view(structs@) =~= Seq::<SpecStructDef>::empty());
        assert(functions_view(functions@) =~= Seq::<SpecFunction>::empty());
        while self.pos < self.tokens.len()
            invariant
                self.tokens == old(self).tokens,
                t == self.t(),
                self.inv(),
                pos0 == old(self).pos,
                p_items(t, Seq::empty(), Seq::empty(), pos0) == p_items(
                    t,
                    struct_defs_view(structs@),
                    functions_view(functions@),
                    self.pos as int,
                ),
            decreases self.tokens@.len() - self.pos,
        {
            // struct Name { ... }; is a struct definition;
            // struct Name ident( is a function returning a struct
            let ghost at = self.pos as int;
            let ghost sv = struct_defs_view(structs@);
            let ghost fv = functions_view(functions@);
            if self.peek_is(&Token::KwStruct) && self.peek_at_is(2, &Token::LBrace) {
                assert(struct_def_starts(t, at));
                let d = match self.try_parse_struct_def() {
                    Some(d) => d,
                    None => {
                        assert(p_struct_def(t, at) is None);
                        assert(p_items(t, sv, fv, at) is None);
                        return None;
                    },
                };
                let ghost before = structs@;
                structs.push(d);
                assert(struct_defs_view(structs@) =~= struct_defs_view(before).push(d@));
            } else {
                let f = match self.try_parse_function() {
                    Some(f) => f,
                    None => {
                        return None;
                    },
                };
                let ghost before = functions@;
                functions.push(f);
                assert(functions_view(functions@) =~= functions_view(before).push(f@));
            }
        }
        Some(Program { structs, functions })
    }
}

// ── The parser on input that follows the grammar ─────────────────
//
// These methods read input known to follow the grammar (their `requires`
// leave out every input on which reading would fail) and give exactly
// what the grammar functions give.

impl Parser {
    /// Takes the current token; there must be one.
    fn advance(&mut self) -> (r: Token)
        requires
            old(self).inv(),
            old(self).pos < old(self).tokens@.len(),
        ensures
            final(self).tokens == old(self).tokens,
            final(self).inv(),
            tok(old(self).t(), old(self).pos as int) == Some(r@),
            final(self).pos == old(self).pos + 1,
    {
        let _len = self.tokens.len();
        let tok = copy_token(&self.tokens[self.pos]);
        self.pos = self.pos + 1;
        tok
    }

    /// Takes the current token, which is `expected`.
    fn expect(&mut self, expected: Token)
        requires
            old(self).inv(),
            is_tok(old(self).t(), old(self).pos as int, expected@),
        ensures
            final(self).tokens == old(self).tokens,
            final(self).inv(),
            final(self).pos == old(self).pos + 1,
    {
        self.advance();
    }

    /// Takes the current token, an identifier, and gives its name.
    fn expect_ident(&mut self) -> (r: String)
        requires
            old(self).inv(),
            ident_at(old(self).t(), old(self).pos as int) is Some,
        ensures
            final(self).tokens == old(self).tokens,
            final(self).inv(),
            r@ == ident_at(old(self).t(), old(self).pos as int)->0,
            final(self).pos == old(self).pos + 1,
    {
        match self.advance() {
            Token::Identifier(name) => name,
            _ => {
                proof { assert(false); }
                String::new()
            },
        }
    }

    fn parse_type(&mut self) -> (r: Type)
        requires
            old(self).inv(),
            p_type(old(self).t(), old(self).pos as int) is Some,
        ensures
            final(self).tokens == old(self).tokens,
            final(self).inv(),
            (r@, final(self).pos as int) == p_type(old(self).t(), old(self).pos as int)->0,
    {
        match self.advance() {
            Token::KwInt => Type::Int,
            Token::KwFloat => Type::Float,
            Token::KwChar => Type::Ptr,
            Token::KwStruct => {
                let name = self.expect_ident();
                Type::Struct(name)
            },
            _ => {
                proof { assert(false); }
                Type::Int
            },
        }
    }

    // ── Top-level ──────────────────────────────────────────────

    fn parse_program(&mut self) -> (r: Program)
        requires
            old(self).inv(),
            p_items(old(self).t(), Seq::empty(), Seq::empty(), old(self).pos as int) is Some,
        ensures
            r@ == p_items(old(self).t(), Seq::empty(), Seq::empty(), old(self).pos as int)->0,
    {
        let ghost t = self.t();
        let ghost pos0 = self.pos as int;
        let mut structs: Vec<StructDef> = Vec::new();
        let mut functions: Vec<Function> = Vec::new();
        assert(struct_defs_view(structs@) =~= Seq::<SpecStructDef>::empty());
        assert(functions_view(functions@) =~= Seq::<SpecFunction>::empty());
        while self.pos < self.tokens.len()
            invariant
                self.tokens == old(self).tokens,
                t == self.t(),
                self.inv(),
                pos0 == old(self).pos,
                p_items(t, Seq::empty(), Seq::empty(), pos0) is Some,
                p_items(t, Seq::empty(), Seq::empty(), pos0) == p_items(
                    t,
                    struct_defs_view(structs@),
                    functions_view(functions@),
                    self.pos as int,
                ),
            decreases self.tokens@.len() - self.pos,
        {
            // struct Name { ... }; is a struct definition;
            // struct Name ident( is a function returning a struct
            let ghost at = self.pos as int;
            if self.peek_is(&Token::KwStruct) && self.peek_at_is(2, &Token::LBrace) {
                assert(struct_def_starts(t, at));
                let d = self.parse_struct_def();
                let ghost before = structs@;
                structs.push(d);
                assert(struct_defs_view(structs@) =~= struct_defs_view(before).push(d@));
            } else {
                let f = self.parse_function();
                let ghost before = functions@;
                functions.push(f);
                assert(functions_view(functions@) =~= functions_view(before).push(f@));
            }
        }
        Program { structs, functions }
    }

    fn parse_struct_def(&mut self) -> (r: StructDef)
        requires
            old(self).inv(),
            p_struct_def(old(self).t(), old(self).pos as int) is Some,
        ensures
            final(self).tokens == old(self).tokens,
            final(self).inv(),
            (r@, final(self).pos as int) == p_struct_def(old(self).t(), old(self).pos as int)->0,
            old(self).pos < final(self).pos,
    {
        let ghost t = self.t();
        let ghost pos0 = self.pos as int;
        self.expect(Token::KwStruct);
        let name = self.expect_ident();
        self.expect(Token::LBrace);
        let mut fields: Vec<(String, Type)> = Vec::new();
        assert(typed_names_view(fields@) =~= Seq::<(Seq<char>, SpecType)>::empty());
        while !self.peek_is(&Token::RBrace)
            invariant
                self.tokens == old(self).tokens,
                t == self.t(),
                self.inv(),
                pos0 == old(self).pos,
                pos0 + 3 <= self.pos,
                is_tok(t, pos0, SpecToken::KwStruct),
                ident_at(t, pos0 + 1) == Some(name@),
                is_tok(t, pos0 + 2, SpecToken::LBrace),
                p_struct_def(t, pos0) is Some,
                p_field_decls(t, Seq::empty(), pos0 + 3) == p_field_decls(t, typed_names_view(fields@), self.pos as int),
            decreases self.tokens@.len() - self.pos,
        {
            let ty = self.parse_type();
            let field_name = self.expect_ident();
            self.expect(Token::Semicolon);
            let ghost before = fields@;
            fields.push((field_name, ty));
            assert(typed_names_view(fields@) =~= typed_names_view(before).push((field_name@, ty@)));
        }
        self.expect(Token::RBrace);
        self.expect(Token::Semicolon);
        StructDef { name, fields }
    }

    fn parse_function(&mut self) -> (r: Function)
        requires
            old(self).inv(),
            p_function(old(self).t(), old(self).pos as int) is Some,
        ensures
            final(self).tokens == old(self).tokens,
            final(self).inv(),
            (r@, final(self).pos as int) == p_function(old(self).t(), old(self).pos as int)->0,
            old(self).pos < final(self).pos,
    {
        let ghost t = self.t();
        let ghost pos0 = self.pos as int;
        let return_type = self.parse_type();
        let ghost p1 = self.pos as int;
        let name = self.expect_ident();
        self.expect(Token::LParen);
        let mut params: Vec<(String, Type)> = Vec::new();
        if !self.peek_is(&Token::RParen) {
            let ty = self.parse_type();
            let pname = self.expect_ident();
            params.push((pname, ty));
            assert(typed_names_view(params@) =~= seq![(pname@, ty@)]);
            while self.peek_is(&Token::Comma)
                invariant
                    self.tokens == old(self).tokens,
                    t == self.t(),
                    self.inv(),
                    pos0 == old(self).pos,
                    p_function(t, pos0) is Some,
                    p_type(t, pos0) == Some((return_type@, p1)),
                    ident_at(t, p1) == Some(name@),
                    is_tok(t, p1 + 1, SpecToken::LParen),
                    p1 + 2 < self.pos,
                    !is_tok(t, p1 + 2, SpecToken::RParen),
                    p_typed_name(t, p1 + 2) is Some,
                    p_params(t, p1 + 2) == p_params_rest(t, typed_names_view(params@), self.pos as int),
                decreases self.tokens@.len() - self.pos,
            {
                self.advance();
                let ty = self.parse_type();
                let pname = self.expect_ident();
                let ghost before = params@;
                params.push((pname, ty));
                assert(typed_names_view(params@) =~= typed_names_view(before).push((pname@, ty@)));
            }
        } else {
            assert(typed_names_view(params@) =~= Seq::<(Seq<char>, SpecType)>::empty());
        }
        self.expect(Token::RParen);
        self.expect(Token::LBrace);
        let ghost p2 = self.pos as int;
        let mut body: Vec<Stmt> = Vec::new();
        assert(stmts_view(body@) =~= Seq::<SpecStmt>::empty());
        while !self.peek_is(&Token::RBrace)
            invariant
                self.tokens == old(self).tokens,
                t == self.t(),
                self.inv(),
                p2 <= self.pos,
                pos0 == old(self).pos,
                p_function(t, pos0) is Some,
                p_type(t, pos0) == Some((return_type@, p1)),
                ident_at(t, p1) == Some(name@),
                is_tok(t, p1 + 1, SpecToken::LParen),
                p_params(t, p1 + 2) == Some((typed_names_view(params@), p2 - 2)),
                is_tok(t, p2 - 2, SpecToken::RParen),
                is_tok(t, p2 - 1, SpecToken::LBrace),
                p_block(t, Seq::empty(), p2) == p_block(t, stmts_view(body@), self.pos as int),
            decreases self.tokens@.len() - self.pos,
        {
            let stmt = self.parse_statement();
            let ghost before = body@;
            body.push(stmt);
            assert(stmts_view(body@) =~= stmts_view(before).push(stmt@));
        }
        self.expect(Token::RBrace);
        Function { name, params, return_type, body }
    }

    // ── Statements ─────────────────────────────────────────────

    fn parse_statement(&mut self) -> (r: Stmt)
        requires
            old(self).inv(),
            p_statement(old(self).t(), old(self).pos as int) is Some,
        ensures
            final(self).tokens == old(self).tokens,
            final(self).inv(),
            (r@, final(self).pos as int) == p_statement(old(self).t(), old(self).pos as int)->0,
            old(self).pos < final(self).pos,
    {
        // return expr ;
        if self.peek_is(&Token::KwReturn) {
            self.advance();
            let expr = self.parse_expression();
            self.expect(Token::Semicolon);
            return Stmt::Return(expr);
        }
        // type name (= expr)? ;
        if self.is_type_start() {
            let ty = self.parse_type();
            let name = self.expect_ident();
            if self.peek_is(&Token::Equal) {
                self.advance();
                let expr = self.parse_expression();
                self.expect(Token::Semicolon);
                return Stmt::Let(name, ty, Some(expr));
            } else {
                self.expect(Token::Semicolon);
                return Stmt::Let(name, ty, None);
            }
        }
        // expression, then `=` (assignment) or `;` (expression statement)
        let expr = self.parse_expression();
        if self.peek_is(&Token::Equal) {
            self.advance();
            let value = self.parse_expression();
            self.expect(Token::Semicolon);
            let ghost target = expr@;
            match expr {
                Expr::Var(name) => Stmt::Assign(name, value),
                Expr::FieldAccess(obj, field) => {
                    let ghost inner = (*obj)@;
                    assert(target == SpecExpr::FieldAccess(Box::new(inner), field@));
                    match *obj {
                        Expr::Var(var) => Stmt::FieldAssign(var, field, value),
                        _ => {
                            proof { assert(false); }
                            Stmt::Expr(value)
                        },
                    }
                },
                _ => {
                    proof { assert(false); }
                    Stmt::Expr(value)
                },
            }
        } else {
            self.expect(Token::Semicolon);
            Stmt::Expr(expr)
        }
    }

    // ── Expressions (precedence climbing) ──────────────────────

    fn parse_expression(&mut self) -> (r: Expr)
        requires
            old(self).inv(),
            p_expr(old(self).t(), old(self).pos as int) is Some,
        ensures
            final(self).tokens == old(self).tokens,
            final(self).inv(),
            (r@, final(self).pos as int) == p_expr(old(self).t(), old(self).pos as int)->0,
            old(self).pos < final(self).pos,
        decreases old(self).tokens@.len() - old(self).pos, 6int,
    {
        self.parse_additive()
    }

    fn parse_additive(&mut self) -> (r: Expr)
        requires
            old(self).inv(),
            p_additive(old(self).t(), old(self).pos as int) is Some,
        ensures
            final(self).tokens == old(self).tokens,
            final(self).inv(),
            (r@, final(self).pos as int) == p_additive(old(self).t(), old(self).pos as int)->0,
            old(self).pos < final(self).pos,
        decreases old(self).tokens@.len() - old(self).pos, 5int,
    {
        let ghost t = self.t();
        let ghost pos0 = self.pos as int;
        let mut left = self.parse_multiplicative();
        while self.peek_is(&Token::Plus) || self.peek_is(&Token::Minus)
            invariant
                self.tokens == old(self).tokens,
                t == self.t(),
                self.inv(),
                pos0 == old(self).pos,
                pos0 < self.pos,
                p_additive(t, pos0) is Some,
                p_additive(t, pos0) == p_additive_rest(t, left@, self.pos as int),
            decreases self.tokens@.len() - self.pos,
        {
            let op = if self.peek_is(&Token::Plus) {
                Op::Add
            } else {
                Op::Sub
            };
            self.advance();
            let right = self.parse_multiplicative();
            left = Expr::BinOp(Box::new(left), op, Box::new(right));
        }
        left
    }

    fn parse_multiplicative(&mut self) -> (r: Expr)
        requires
            old(self).inv(),
            p_multiplicative(old(self).t(), old(self).pos as int) is Some,
        ensures
            final(self).tokens == old(self).tokens,
            final(self).inv(),
            (r@, final(self).pos as int) == p_multiplicative(old(self).t(), old(self).pos as int)->0,
            old(self).pos < final(self).pos,
        decreases old(self).tokens@.len() - old(self).pos, 3int,
    {
        let ghost t = self.t();
        let ghost pos0 = self.pos as int;
        let mut left = self.parse_primary();
        while self.peek_is(&Token::Star) || self.peek_is(&Token::Slash)
            invariant
                self.tokens == old(self).tokens,
                t == self.t(),
                self.inv(),
                pos0 == old(self).pos,
                pos0 < self.pos,
                p_multiplicative(t, pos0) is Some,
                p_multiplicative(t, pos0) == p_multiplicative_rest(t, left@, self.pos as int),
            decreases self.tokens@.len() - self.pos,
        {
            let op = if self.peek_is(&Token::Star) {
                Op::Mul
            } else {
                Op::Div
            };
            self.advance();
            let right = self.parse_primary();
            left = Expr::BinOp(Box::new(left), op, Box::new(right));
        }
        left
    }

    fn parse_primary(&mut self) -> (r: Expr)
        requires
            old(self).inv(),
            p_primary(old(self).t(), old(self).pos as int) is Some,
        ensures
            final(self).tokens == old(self).tokens,
            final(self).inv(),
            (r@, final(self).pos as int) == p_primary(old(self).t(), old(self).pos as int)->0,
            old(self).pos < final(self).pos,
        decreases old(self).tokens@.len() - old(self).pos, 2int,
    {
        let ghost t = self.t();
        let ghost pos0 = self.pos as int;
        let first = self.advance();
        let mut expr = match first {
            Token::Int(n) => Expr::IntLit(n),
            Token::Float(f) => Expr::FloatLit(f),
            Token::String(s) => Expr::StringLit(s),
            Token::Identifier(name) => {
                if self.peek_is(&Token::LParen) {
                    self.advance();
                    let mut args: Vec<Expr> = Vec::new();
                    if !self.peek_is(&Token::RParen) {
                        let arg = self.parse_expression();
                        args.push(arg);
                        proof {
                            assert(args@.drop_last() =~= Seq::<Expr>::empty());
                            assert(exprs_view(Seq::<Expr>::empty()) == Seq::<SpecExpr>::empty());
                            assert(exprs_view(args@) =~= seq![args@[0]@]);
                        }
                        while self.peek_is(&Token::Comma)
                            invariant
                                self.tokens == old(self).tokens,
                                t == self.t(),
                                self.inv(),
                                pos0 == old(self).pos,
                                pos0 + 2 < self.pos,
                                tok(t, pos0) == Some(SpecToken::Identifier(name@)),
                                is_tok(t, pos0 + 1, SpecToken::LParen),
                                p_primary(t, pos0) is Some,
                                p_args(t, pos0 + 2) == p_args_rest(t, exprs_view(args@), self.pos as int),
                            decreases self.tokens@.len() - self.pos,
                        {
                            self.advance();
                            let e = self.parse_expression();
                            let ghost before = args@;
                            args.push(e);
                            assert(args@.drop_last() =~= before);
                        }
                    } else {
                        assert(exprs_view(args@) =~= Seq::<SpecExpr>::empty());
                    }
                    self.expect(Token::RParen);
                    Expr::Call(name, args)
                } else {
                    Expr::Var(name)
                }
            },
            Token::LParen => {
                let inner = self.parse_expression();
                self.expect(Token::RParen);
                inner
            },
            _ => {
                proof { assert(false); }
                Expr::IntLit(0)
            },
        };
        // field access chains: .field or ->field
        while self.peek_is(&Token::Dot) || self.peek_is(&Token::Arrow)
            invariant
                self.tokens == old(self).tokens,
                t == self.t(),
                self.inv(),
                pos0 == old(self).pos,
                pos0 < self.pos,
                p_primary(t, pos0) is Some,
                p_primary(t, pos0) == p_field_chain(t, expr@, self.pos as int),
            decreases self.tokens@.len() - self.pos,
        {
            self.advance();
            let field = self.expect_ident();
            expr = Expr::FieldAccess(Box::new(expr), field);
        }
        expr
    }
}

/// Parses a token sequence, or answers `None` where it does not follow the
/// grammar.
pub fn try_parse(tokens: Vec<Token>) -> (r: Option<Program>)
    ensures
        match spec_parse(tokens_view(tokens@)) {
            Some(prog) => r matches Some(x) && x@ == prog,
            None => r is None,
        },
{
    let mut parser = Parser::new(tokens);
    parser.try_parse_program()
}

/// Parses a token sequence that follows the grammar.
pub fn parse(tokens: Vec<Token>) -> (prog: Program)
    requires
        spec_parse(tokens_view(tokens@)) is Some,
    ensures
        prog@ == spec_parse(tokens_view(tokens@))->0,
{
    let mut parser = Parser::new(tokens);
    parser.parse_program()
}

} // verus!
