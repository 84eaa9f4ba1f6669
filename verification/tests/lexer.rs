use wasm_jit::c_compiler::lexer::{tokenize, Token};

#[test]
fn lexer_test_hello() {
    let tokens = tokenize("int main() { print_i32(42); return 0; }");
    assert_eq!(tokens, vec![
        Token::KwInt,
        Token::Identifier("main".into()),
        Token::LParen,
        Token::RParen,
        Token::LBrace,
        Token::Identifier("print_i32".into()),
        Token::LParen,
        Token::Int(42),
        Token::RParen,
        Token::Semicolon,
        Token::KwReturn,
        Token::Int(0),
        Token::Semicolon,
        Token::RBrace,
    ]);
}

#[test]
fn lexer_test_arithmetic() {
    let tokens = tokenize("int add(int a, int b) { return a + b; }");
    assert_eq!(tokens, vec![
        Token::KwInt,
        Token::Identifier("add".into()),
        Token::LParen,
        Token::KwInt,
        Token::Identifier("a".into()),
        Token::Comma,
        Token::KwInt,
        Token::Identifier("b".into()),
        Token::RParen,
        Token::LBrace,
        Token::KwReturn,
        Token::Identifier("a".into()),
        Token::Plus,
        Token::Identifier("b".into()),
        Token::Semicolon,
        Token::RBrace,
    ]);
}

#[test]
fn test_string_literal() {
    let tokens = tokenize(r#"print_str("hello world");"#);
    assert_eq!(tokens, vec![
        Token::Identifier("print_str".into()),
        Token::LParen,
        Token::String("hello world".into()),
        Token::RParen,
        Token::Semicolon,
    ]);
}

#[test]
fn test_string_escape_sequences() {
    let tokens = tokenize(r#""hello\nworld\t!""#);
    assert_eq!(tokens, vec![
        Token::String("hello\nworld\t!".into()),
    ]);
}

#[test]
fn test_struct_def() {
    let tokens = tokenize("struct Point { int x; int y; };");
    assert_eq!(tokens, vec![
        Token::KwStruct,
        Token::Identifier("Point".into()),
        Token::LBrace,
        Token::KwInt,
        Token::Identifier("x".into()),
        Token::Semicolon,
        Token::KwInt,
        Token::Identifier("y".into()),
        Token::Semicolon,
        Token::RBrace,
        Token::Semicolon,
    ]);
}

#[test]
fn test_dot_access() {
    let tokens = tokenize("p.x = 10;");
    assert_eq!(tokens, vec![
        Token::Identifier("p".into()),
        Token::Dot,
        Token::Identifier("x".into()),
        Token::Equal,
        Token::Int(10),
        Token::Semicolon,
    ]);
}

#[test]
fn test_arrow() {
    let tokens = tokenize("p->x");
    assert_eq!(tokens, vec![
        Token::Identifier("p".into()),
        Token::Arrow,
        Token::Identifier("x".into()),
    ]);
}

#[test]
fn test_float_literal() {
    let tokens = tokenize("3.14");
    assert_eq!(tokens.len(), 1);
    match &tokens[0] {
        Token::Float(text) => assert_eq!(text.parse::<f64>().unwrap(), 3.14),
        other => panic!("expected a float literal, got {:?}", other),
    }
}

#[test]
fn test_line_comment() {
    let tokens = tokenize("int x; // this is a comment\nint y;");
    assert_eq!(tokens, vec![
        Token::KwInt,
        Token::Identifier("x".into()),
        Token::Semicolon,
        Token::KwInt,
        Token::Identifier("y".into()),
        Token::Semicolon,
    ]);
}

#[test]
fn test_block_comment() {
    let tokens = tokenize("int /* skip this */ x;");
    assert_eq!(tokens, vec![
        Token::KwInt,
        Token::Identifier("x".into()),
        Token::Semicolon,
    ]);
}

#[test]
fn test_division() {
    let tokens = tokenize("10 / 2");
    assert_eq!(tokens, vec![
        Token::Int(10),
        Token::Slash,
        Token::Int(2),
    ]);
}

#[test]
fn test_empty_input() {
    assert_eq!(tokenize(""), vec![]);
}

#[test]
fn test_all_keywords() {
    let tokens = tokenize("int float return struct const char");
    assert_eq!(tokens, vec![
        Token::KwInt,
        Token::KwFloat,
        Token::KwReturn,
        Token::KwStruct,
        Token::KwConst,
        Token::KwChar,
    ]);
}

#[test]
fn test_full_program() {
    let src = r#"
        // A simple program
        int main() {
            print_str("hello world");
            print_i32(123);
            return 0;
        }
    "#;
    let tokens = tokenize(src);
    assert_eq!(tokens, vec![
        Token::KwInt,
        Token::Identifier("main".into()),
        Token::LParen,
        Token::RParen,
        Token::LBrace,
        Token::Identifier("print_str".into()),
        Token::LParen,
        Token::String("hello world".into()),
        Token::RParen,
        Token::Semicolon,
        Token::Identifier("print_i32".into()),
        Token::LParen,
        Token::Int(123),
        Token::RParen,
        Token::Semicolon,
        Token::KwReturn,
        Token::Int(0),
        Token::Semicolon,
        Token::RBrace,
    ]);
}
