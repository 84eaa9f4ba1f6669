use wasm_jit::backend::compiler::{is_compilable, X86_64Compiler};
use wasm_jit::c_compiler::ast::{Expr, Function, Op, Program, Stmt, StructDef, Type};
use wasm_jit::c_compiler::emit_wasm::{emit, try_emit, EmitError};
use wasm_jit::c_compiler::lexer::{tokenize, try_tokenize, LexError, Token};
use wasm_jit::c_compiler::parser::{parse, try_parse};
use wasm_jit::runtime::instance::find_export;
use wasm_jit::wasm::types::{Instruction, ValType, WasmModule};

fn compile(src: &str) -> WasmModule {
    emit(parse(tokenize(src)))
}

#[test]
fn lex_unexpected_character() {
    assert_eq!(try_tokenize("int x = 1 # 2;"), Err(LexError::UnexpectedCharacter('#')));
}

#[test]
fn lex_integer_overflow() {
    assert_eq!(try_tokenize("2147483648"), Err(LexError::IntegerOverflow));
    assert_eq!(try_tokenize("2147483647"), Ok(vec![Token::Int(2147483647)]));
    assert_eq!(try_tokenize("007"), Ok(vec![Token::Int(7)]));
}

#[test]
fn lex_number_with_two_dots() {
    let tokens = try_tokenize("1.2.3").unwrap();
    assert_eq!(tokens, vec![Token::Float("1.2".to_string()), Token::Dot, Token::Int(3)]);
}

#[test]
fn lex_trailing_dot_is_float() {
    assert_eq!(try_tokenize("3.x").unwrap(), vec![Token::Float("3.".to_string()), Token::Identifier("x".to_string())]);
}

#[test]
fn lex_unknown_escape_kept() {
    assert_eq!(try_tokenize(r#""a\qb\0""#).unwrap(), vec![Token::String("a\\qb\0".to_string())]);
}

#[test]
fn lex_unterminated_string_and_comment() {
    assert_eq!(try_tokenize("\"abc").unwrap(), vec![Token::String("abc".to_string())]);
    assert_eq!(try_tokenize("x /* never closed").unwrap(), vec![Token::Identifier("x".to_string())]);
    assert_eq!(try_tokenize("a /**/ b").unwrap().len(), 2);
}

#[test]
fn lex_keyword_prefix_is_identifier() {
    assert_eq!(
        try_tokenize("integer _int char1").unwrap(),
        vec![
            Token::Identifier("integer".to_string()),
            Token::Identifier("_int".to_string()),
            Token::Identifier("char1".to_string()),
        ]
    );
}

#[test]
fn lex_minus_and_arrow() {
    assert_eq!(try_tokenize("a-b->c").unwrap(), vec![
        Token::Identifier("a".to_string()),
        Token::Minus,
        Token::Identifier("b".to_string()),
        Token::Arrow,
        Token::Identifier("c".to_string()),
    ]);
}

#[test]
fn parse_rejects_malformed_input() {
    assert!(try_parse(tokenize("int f() { return 1 }")).is_none());
    assert!(try_parse(tokenize("int f( { }")).is_none());
    assert!(try_parse(tokenize("int f() { 1 = 2; }")).is_none());
    assert!(try_parse(tokenize("int f() { (a).b.c = 2; }")).is_none());
    assert!(try_parse(tokenize("int")).is_none());
    assert!(try_parse(vec![]).is_some());
}

#[test]
fn parse_struct_returning_function() {
    let prog = try_parse(tokenize("struct P make() { return 0; }")).unwrap();
    assert_eq!(prog.structs.len(), 0);
    assert_eq!(prog.functions.len(), 1);
}

#[test]
fn emit_hello() {
    let m = compile("int main() { print_i32(42); return 0; }");
    assert_eq!(m.imports.len(), 2);
    assert_eq!(m.imports[0].module, "env");
    assert_eq!(m.imports[0].name, "print_i32");
    assert_eq!(m.imports[1].name, "print_str");
    assert_eq!(m.imports[1].func_type.params, vec![ValType::I32, ValType::I32]);
    assert_eq!(m.functions.len(), 1);
    assert_eq!(
        m.functions[0].body,
        vec![Instruction::I32Const(42), Instruction::Call(0), Instruction::I32Const(0), Instruction::Return]
    );
    assert_eq!(m.exports[0].name, "main");
    assert_eq!(m.exports[0].func_index, 2);
    assert_eq!(m.memory_pages, 1);
    assert_eq!(find_export(&m, "main"), Some(0));
}

#[test]
fn emit_locals_and_calls() {
    let m = compile("int add(int a, int b) { return a + b; } int main() { int x = add(10, 20); x = x * 2; return x; }");
    assert_eq!(m.functions[0].func_type.params, vec![ValType::I32, ValType::I32]);
    assert_eq!(m.functions[0].body, vec![
        Instruction::LocalGet(0),
        Instruction::LocalGet(1),
        Instruction::I32Add,
        Instruction::Return,
    ]);
    assert_eq!(m.functions[1].locals, vec![ValType::I32]);
    assert_eq!(m.functions[1].body, vec![
        Instruction::I32Const(10),
        Instruction::I32Const(20),
        Instruction::Call(2),
        Instruction::LocalSet(0),
        Instruction::LocalGet(0),
        Instruction::I32Const(2),
        Instruction::I32Mul,
        Instruction::LocalSet(0),
        Instruction::LocalGet(0),
        Instruction::Return,
    ]);
    assert_eq!(find_export(&m, "add"), Some(0));
    assert_eq!(find_export(&m, "main"), Some(1));
}

#[test]
fn emit_string_literals_as_data() {
    let m = compile(r#"int main() { print_str("hi"); print_str("héllo"); return 0; }"#);
    assert_eq!(m.data_sections.len(), 2);
    assert_eq!(m.data_sections[0].offset, 0);
    assert_eq!(m.data_sections[0].data, b"hi".to_vec());
    assert_eq!(m.data_sections[1].offset, 2);
    assert_eq!(m.data_sections[1].data, "héllo".as_bytes().to_vec());
    assert_eq!(m.functions[0].body[0..3], [Instruction::I32Const(0), Instruction::I32Const(2), Instruction::Call(1)]);
    assert_eq!(m.functions[0].body[3..5], [Instruction::I32Const(2), Instruction::I32Const(6)]);
    assert_eq!(m.memory_pages, 1);
}

#[test]
fn emit_struct_fields() {
    let m = compile("struct Point { int x; int y; }; int main() { struct Point p; p.y = 20; return p.y; }");
    assert_eq!(m.functions[0].locals, vec![ValType::I32]);
    assert_eq!(m.functions[0].body, vec![
        Instruction::LocalGet(0),
        Instruction::I32Const(20),
        Instruction::I32Store(4),
        Instruction::LocalGet(0),
        Instruction::I32Load(4),
        Instruction::Return,
    ]);
}

#[test]
fn emit_float_arithmetic() {
    let m = compile("float f(float a) { return a + 1.5; }");
    assert_eq!(m.functions[0].func_type.results, vec![ValType::F64]);
    assert_eq!(m.functions[0].body, vec![
        Instruction::LocalGet(0),
        Instruction::F64Const("1.5".to_string()),
        Instruction::F64Add,
        Instruction::Return,
    ]);
}

#[test]
fn emit_errors() {
    match try_emit(parse(tokenize("int main() { return y; }"))) {
        Err(EmitError::UnknownVariable(n)) => assert_eq!(n, "y"),
        other => panic!("unexpected {:?}", other.is_ok()),
    }
    match try_emit(parse(tokenize("int main() { return g(); }"))) {
        Err(EmitError::UnknownFunction(n)) => assert_eq!(n, "g"),
        other => panic!("unexpected {:?}", other.is_ok()),
    }
    match try_emit(parse(tokenize("struct P { int x; }; int main() { struct P p; return p.z; }"))) {
        Err(EmitError::UnknownField(n)) => assert_eq!(n, "z"),
        other => panic!("unexpected {:?}", other.is_ok()),
    }
}

#[test]
fn compile_pipeline_produces_native_code() {
    let m = compile("int main() { int x = 1; return x + 2; }");
    let fs = X86_64Compiler.compile_module(&m);
    assert_eq!(fs.len(), 1);
    // prologue with one local: sub rsp, 24
    assert_eq!(fs[0].code[..8], [0x55, 0x48, 0x89, 0xE5, 0x48, 0x83, 0xEC, 0x18]);
    assert_eq!(fs[0].code[fs[0].code.len() - 1], 0xC3);
}

#[test]
fn lex_spelled_tokens_read_back() {
    let tokens = vec![
        Token::KwStruct,
        Token::Identifier("p_1".to_string()),
        Token::Int(0),
        Token::Int(2147483647),
        Token::Float("12.50".to_string()),
        Token::Float("7.".to_string()),
        Token::String("say \"hi\" \\ bye\n".to_string()),
        Token::Arrow,
        Token::Minus,
        Token::Slash,
        Token::Dot,
        Token::Equal,
        Token::KwChar,
    ];
    let text = r#"struct p_1 0 2147483647 12.50 7. "say \"hi\" \\ bye
" -> - / . = char "#;
    assert_eq!(try_tokenize(text), Ok(tokens));
}

#[test]
fn parse_printed_program_reads_back() {
    let text = "struct P { int x ; char s ; } ; struct P make ( int a , struct P q ) { int y = ( a - 1 ) * 2 ; \
                float z ; q . x = y / a ; y = f ( ) + g ( y , 3.5 ) ; return q ; } ";
    let x = |n: &str| Expr::Var(n.to_string());
    let bin = |l: Expr, op: Op, r: Expr| Expr::BinOp(Box::new(l), op, Box::new(r));
    let expected = Program {
        structs: vec![StructDef {
            name: "P".to_string(),
            fields: vec![("x".to_string(), Type::Int), ("s".to_string(), Type::Ptr)],
        }],
        functions: vec![Function {
            name: "make".to_string(),
            params: vec![("a".to_string(), Type::Int), ("q".to_string(), Type::Struct("P".to_string()))],
            return_type: Type::Struct("P".to_string()),
            body: vec![
                Stmt::Let("y".to_string(), Type::Int, Some(bin(bin(x("a"), Op::Sub, Expr::IntLit(1)), Op::Mul, Expr::IntLit(2)))),
                Stmt::Let("z".to_string(), Type::Float, None),
                Stmt::FieldAssign("q".to_string(), "x".to_string(), bin(x("y"), Op::Div, x("a"))),
                Stmt::Assign(
                    "y".to_string(),
                    bin(
                        Expr::Call("f".to_string(), vec![]),
                        Op::Add,
                        Expr::Call("g".to_string(), vec![x("y"), Expr::FloatLit("3.5".to_string())]),
                    ),
                ),
                Stmt::Return(x("q")),
            ],
        }],
    };
    assert_eq!(try_parse(try_tokenize(text).unwrap()), Some(expected));
}

#[test]
fn emit_indices_resolve() {
    let m = compile(
        "struct P { int x; int y; }; int g(int a) { return a * 2; } \
         int main() { struct P p; int v = g(3); p.y = v; print_i32(p.y + v); print_str(\"ok\"); return v; }",
    );
    let n_functions = (m.imports.len() + m.functions.len()) as u32;
    for f in &m.functions {
        let n_locals = f.locals.len() as u32;
        for instr in &f.body {
            match instr {
                Instruction::LocalGet(i) | Instruction::LocalSet(i) => assert!(*i < n_locals),
                Instruction::Call(i) => assert!(*i < n_functions),
                _ => {},
            }
        }
    }
    let main = &m.functions[1];
    assert!(main.body.contains(&Instruction::Call(2)));
    assert!(main.body.contains(&Instruction::Call(0)));
    assert!(main.body.contains(&Instruction::Call(1)));
}

#[test]
fn small_lowered_functions_compile() {
    let m = compile(
        "int f(int a, int b, int c, int d, int e) { int g = a; int h = b; int i = c; int j = d; int k = e; \
         int l = 1; int m = 2; int n = 3; int o = 4; int p = 5; return p; } int main() { return f(1, 2, 3, 4, 5); }",
    );
    assert_eq!(m.functions[0].locals.len(), 15);
    for f in &m.functions {
        assert!(is_compilable(f));
    }
    assert_eq!(X86_64Compiler.compile_module(&m).len(), 2);
}

#[test]
fn emitted_module_layout() {
    let m = compile("int f() { print_str(\"abc\"); return 1; } int main() { print_str(\"hello\"); return f(); }");
    assert_eq!(m.functions.len(), 2);
    assert_eq!(m.exports.len(), 2);
    for (i, e) in m.exports.iter().enumerate() {
        assert_eq!(e.name, m.functions[i].name);
        assert_eq!(e.func_index as usize, m.imports.len() + i);
    }
    assert!(m.memory_pages >= 1);
    for d in &m.data_sections {
        assert!(d.offset as u64 + d.data.len() as u64 <= m.memory_pages as u64 * 65536);
    }
    assert_eq!(m.data_sections[1].offset, 3);
}
