use vstd::prelude::*;

verus! {

/// A lexical token of the C subset.
///
/// A floating-point literal is kept as its source text (digits with one
/// dot, for example `3.14`); it is read as a number where floating point
/// is available.
#[derive(Debug, Clone, PartialEq)]
pub enum Token {
    // Literals
    Int(i32),
    Float(String),
    String(String),
    Identifier(String),
    // Operators
    Plus,
    Minus,
    Star,
    Slash,
    // Delimiters
    LParen,
    RParen,
    LBrace,
    RBrace,
    Semicolon,
    Comma,
    Dot,
    // Assignment
    Equal,
    // Arrow (->)
    Arrow,
    // Keywords
    KwInt,
    KwFloat,
    KwReturn,
    KwStruct,
    KwConst,
    KwChar,
}

/// The mathematical value of a token: text payloads as character sequences.
pub ghost enum SpecToken {
    Int(i32),
    Float(Seq<char>),
    Str(Seq<char>),
    Identifier(Seq<char>),
    Plus,
    Minus,
    Star,
    Slash,
    LParen,
    RParen,
    LBrace,
    RBrace,
    Semicolon,
    Comma,
    Dot,
    Equal,
    Arrow,
    KwInt,
    KwFloat,
    KwReturn,
    KwStruct,
    KwConst,
    KwChar,
}

impl View for Token {
    type V = SpecToken;

    open spec fn view(&self) -> SpecToken {
        match self {
            Token::Int(n) => SpecToken::Int(*n),
            Token::Float(s) => SpecToken::Float(s@),
            Token::String(s) => SpecToken::Str(s@),
            Token::Identifier(s) => SpecToken::Identifier(s@),
            Token::Plus => SpecToken::Plus,
            Token::Minus => SpecToken::Minus,
            Token::Star => SpecToken::Star,
            Token::Slash => SpecToken::Slash,
            Token::LParen => SpecToken::LParen,
            Token::RParen => SpecToken::RParen,
            Token::LBrace => SpecToken::LBrace,
            Token::RBrace => SpecToken::RBrace,
            Token::Semicolon => SpecToken::Semicolon,
            Token::Comma => SpecToken::Comma,
            Token::Dot => SpecToken::Dot,
            Token::Equal => SpecToken::Equal,
            Token::Arrow => SpecToken::Arrow,
            Token::KwInt => SpecToken::KwInt,
            Token::KwFloat => SpecToken::KwFloat,
            Token::KwReturn => SpecToken::KwReturn,
            Token::KwStruct => SpecToken::KwStruct,
            Token::KwConst => SpecToken::KwConst,
            Token::KwChar => SpecToken::KwChar,
        }
    }
}

/// The views of a token vector.
pub open spec fn tokens_view(v: Seq<Token>) -> Seq<SpecToken> {
    v.map_values(|t: Token| t@)
}

/// Why a source text cannot be tokenized.
#[derive(Debug, Clone, Copy, PartialEq, Eq, Structural)]
pub enum LexError {
    /// A character that starts no token.
    UnexpectedCharacter(char),
    /// An integer literal above `i32::MAX`.
    IntegerOverflow,
}

// ── Character classes ────────────────────────────────────────────

pub open spec fn is_whitespace(c: char) -> bool {
    c == ' ' || c == '\t' || c == '\n' || c == '\r'
}

pub open spec fn is_digit(c: char) -> bool {
    '0' <= c && c <= '9'
}

pub open spec fn is_ident_start(c: char) -> bool {
    ('a' <= c && c <= 'z') || ('A' <= c && c <= 'Z') || c == '_'
}

pub open spec fn is_ident_continue(c: char) -> bool {
    is_ident_start(c) || is_digit(c)
}

/// The token of a character that always stands alone.
pub open spec fn single_char_token(c: char) -> Option<SpecToken> {
    if c == '+' {
        Some(SpecToken::Plus)
    } else if c == '*' {
        Some(SpecToken::Star)
    } else if c == '(' {
        Some(SpecToken::LParen)
    } else if c == ')' {
        Some(SpecToken::RParen)
    } else if c == '{' {
        Some(SpecToken::LBrace)
    } else if c == '}' {
        Some(SpecToken::RBrace)
    } else if c == ';' {
        Some(SpecToken::Semicolon)
    } else if c == ',' {
        Some(SpecToken::Comma)
    } else if c == '.' {
        Some(SpecToken::Dot)
    } else if c == '=' {
        Some(SpecToken::Equal)
    } else {
        None
    }
}

// ── Scanning helpers ─────────────────────────────────────────────

/// Index of the first newline at or after `j` (the end if there is none).
pub open spec fn line_end(s: Seq<char>, j: int) -> int
    decreases s.len() - j,
{
    if j >= s.len() {
        s.len() as int
    } else if s[j] == '\n' {
        j
    } else {
        line_end(s, j + 1)
    }
}

/// Index just after the first `*/` at or after `j` (the end if there is none).
pub open spec fn block_end(s: Seq<char>, j: int) -> int
    decreases s.len() - j,
{
    if j >= s.len() {
        s.len() as int
    } else if s[j] == '*' && j + 1 < s.len() && s[j + 1] == '/' {
        j + 2
    } else {
        block_end(s, j + 1)
    }
}

/// What an escape `\e` stands for in a string literal; an unknown escape
/// stands for itself, backslash included.
pub open spec fn escape_chars(e: char) -> Seq<char> {
    if e == 'n' {
        seq!['\n']
    } else if e == 't' {
        seq!['\t']
    } else if e == '\\' {
        seq!['\\']
    } else if e == '"' {
        seq!['"']
    } else if e == '0' {
        seq!['\0']
    } else {
        seq!['\\', e]
    }
}

/// The contents of a string literal whose body starts at `j`, and the
/// index just after it. An unterminated literal runs to the end.
pub open spec fn scan_string(s: Seq<char>, j: int) -> (Seq<char>, int)
    decreases s.len() - j,
{
    if j >= s.len() {
        (Seq::empty(), s.len() as int)
    } else if s[j] == '"' {
        (Seq::empty(), j + 1)
    } else if s[j] == '\\' {
        if j + 1 >= s.len() {
            (Seq::empty(), s.len() as int)
        } else {
            let rest = scan_string(s, j + 2);
            (escape_chars(s[j + 1]) + rest.0, rest.1)
        }
    } else {
        let rest = scan_string(s, j + 1);
        (seq![s[j]] + rest.0, rest.1)
    }
}

/// End of a number literal scanned from `j`: digits, and one dot unless
/// `seen_dot`.
pub open spec fn number_end(s: Seq<char>, j: int, seen_dot: bool) -> int
    decreases s.len() - j,
{
    if j >= s.len() {
        s.len() as int
    } else if is_digit(s[j]) {
        number_end(s, j + 1, seen_dot)
    } else if s[j] == '.' && !seen_dot {
        number_end(s, j + 1, true)
    } else {
        j
    }
}

/// End of an identifier continued from `j`.
pub open spec fn ident_end(s: Seq<char>, j: int) -> int
    decreases s.len() - j,
{
    if j >= s.len() {
        s.len() as int
    } else if is_ident_continue(s[j]) {
        ident_end(s, j + 1)
    } else {
        j
    }
}

/// The value of a decimal digit.
pub open spec fn digit_value(c: char) -> int {
    (c as int) - ('0' as int)
}

/// The value of a sequence of decimal digits.
pub open spec fn digits_value(d: Seq<char>) -> int
    decreases d.len(),
{
    if d.len() == 0 {
        0
    } else {
        digits_value(d.drop_last()) * 10 + digit_value(d.last())
    }
}

/// The token for a word: a keyword, or else an identifier.
pub open spec fn word_token(w: Seq<char>) -> SpecToken {
    if w == seq!['i', 'n', 't'] {
        SpecToken::KwInt
    } else if w == seq!['f', 'l', 'o', 'a', 't'] {
        SpecToken::KwFloat
    } else if w == seq!['r', 'e', 't', 'u', 'r', 'n'] {
        SpecToken::KwReturn
    } else if w == seq!['s', 't', 'r', 'u', 'c', 't'] {
        SpecToken::KwStruct
    } else if w == seq!['c', 'o', 'n', 's', 't'] {
        SpecToken::KwConst
    } else if w == seq!['c', 'h', 'a', 'r'] {
        SpecToken::KwChar
    } else {
        SpecToken::Identifier(w)
    }
}

/// The token for a number literal: a float if it holds a dot, else an int.
pub open spec fn number_token(text: Seq<char>) -> Result<SpecToken, LexError> {
    if text.contains('.') {
        Ok(SpecToken::Float(text))
    } else if digits_value(text) <= i32::MAX {
        Ok(SpecToken::Int(digits_value(text) as i32))
    } else {
        Err(LexError::IntegerOverflow)
    }
}

pub open spec fn prepend(t: SpecToken, r: Result<Seq<SpecToken>, LexError>) -> Result<Seq<SpecToken>, LexError> {
    match r {
        Ok(rest) => Ok(seq![t] + rest),
        Err(e) => Err(e),
    }
}

pub proof fn lemma_line_end(s: Seq<char>, j: int)
    requires
        0 <= j <= s.len(),
    ensures
        j <= line_end(s, j) <= s.len(),
    decreases s.len() - j,
{
    if j < s.len() && s[j] != '\n' {
        lemma_line_end(s, j + 1);
    }
}

pub proof fn lemma_block_end(s: Seq<char>, j: int)
    requires
        0 <= j <= s.len(),
    ensures
        j <= block_end(s, j) <= s.len(),
    decreases s.len() - j,
{
    if j < s.len() && !(s[j] == '*' && j + 1 < s.len() && s[j + 1] == '/') {
        lemma_block_end(s, j + 1);
    }
}

pub proof fn lemma_scan_string(s: Seq<char>, j: int)
    requires
        0 <= j <= s.len(),
    ensures
        j <= scan_string(s, j).1 <= s.len(),
    decreases s.len() - j,
{
    if j < s.len() && s[j] != '"' {
        if s[j] == '\\' {
            if j + 1 < s.len() {
                lemma_scan_string(s, j + 2);
            }
        } else {
            lemma_scan_string(s, j + 1);
        }
    }
}

pub proof fn lemma_number_end(s: Seq<char>, j: int, seen_dot: bool)
    requires
        0 <= j <= s.len(),
    ensures
        j <= number_end(s, j, seen_dot) <= s.len(),
    decreases s.len() - j,
{
    if j < s.len() {
        if is_digit(s[j]) {
            lemma_number_end(s, j + 1, seen_dot);
        } else if s[j] == '.' && !seen_dot {
            lemma_number_end(s, j + 1, true);
        }
    }
}

pub proof fn lemma_ident_end(s: Seq<char>, j: int)
    requires
        0 <= j <= s.len(),
    ensures
        j <= ident_end(s, j) <= s.len(),
    decreases s.len() - j,
{
    if j < s.len() && is_ident_continue(s[j]) {
        lemma_ident_end(s, j + 1);
    }
}

/// The tokens of `s` from index `i` on, or the first lexical error.
pub open spec fn lex_from(s: Seq<char>, i: int) -> Result<Seq<SpecToken>, LexError>
    decreases s.len() - i,
{
    if i < 0 || i >= s.len() {
        Ok(Seq::empty())
    } else {
        let c = s[i];
        if is_whitespace(c) {
            lex_from(s, i + 1)
        } else if c == '/' {
            if i + 1 < s.len() && s[i + 1] == '/' {
                proof { lemma_line_end(s, i + 2); }
                lex_from(s, line_end(s, i + 2))
            } else if i + 1 < s.len() && s[i + 1] == '*' {
                proof { lemma_block_end(s, i + 2); }
                lex_from(s, block_end(s, i + 2))
            } else {
                prepend(SpecToken::Slash, lex_from(s, i + 1))
            }
        } else if c == '-' {
            if i + 1 < s.len() && s[i + 1] == '>' {
                prepend(SpecToken::Arrow, lex_from(s, i + 2))
            } else {
                prepend(SpecToken::Minus, lex_from(s, i + 1))
            }
        } else if single_char_token(c) is Some {
            prepend(single_char_token(c)->0, lex_from(s, i + 1))
        } else if c == '"' {
            proof { lemma_scan_string(s, i + 1); }
            let (content, end) = scan_string(s, i + 1);
            prepend(SpecToken::Str(content), lex_from(s, end))
        } else if is_digit(c) {
            proof { lemma_number_end(s, i + 1, false); }
            let end = number_end(s, i + 1, false);
            match number_token(s.subrange(i, end)) {
                Ok(t) => prepend(t, lex_from(s, end)),
                Err(e) => Err(e),
            }
        } else if is_ident_start(c) {
            proof { lemma_ident_end(s, i + 1); }
            let end = ident_end(s, i + 1);
            prepend(word_token(s.subrange(i, end)), lex_from(s, end))
        } else {
            Err(LexError::UnexpectedCharacter(c))
        }
    }
}

/// The tokens of a whole source text, or the first lexical error.
pub open spec fn spec_tokenize(s: Seq<char>) -> Result<Seq<SpecToken>, LexError> {
    lex_from(s, 0)
}


/// `pre` followed by the tokens of `r`, or the error of `r`.
pub open spec fn glue(pre: Seq<SpecToken>, r: Result<Seq<SpecToken>, LexError>) -> Result<Seq<SpecToken>, LexError> {
    match r {
        Ok(rest) => Ok(pre + rest),
        Err(e) => Err(e),
    }
}

proof fn lemma_glue_prepend(pre: Seq<SpecToken>, t: SpecToken, r: Result<Seq<SpecToken>, LexError>)
    ensures
        glue(pre, prepend(t, r)) == glue(pre.push(t), r),
{
    if let Ok(rest) = r {
        assert(pre + (seq![t] + rest) =~= pre.push(t) + rest);
    }
}

proof fn lemma_digits_value_nonneg(d: Seq<char>)
    requires
        forall|k: int| 0 <= k < d.len() ==> is_digit(#[trigger] d[k]),
    ensures
        digits_value(d) >= 0,
    decreases d.len(),
{
    if d.len() > 0 {
        lemma_digits_value_nonneg(d.drop_last());
    }
}

/// Appends a character to a string.
///
/// Trusted: `String::push` of std; claimed is that the string's characters
/// afterwards are the old ones followed by `c`.
#[verifier::external_body]
fn push_char(s: &mut String, c: char)
    ensures
        final(s)@ == old(s)@.push(c),
{
    s.push(c);
}

/// The characters of a string slice, in order.
fn chars_of(input: &str) -> (cs: Vec<char>)
    ensures
        cs@ == input@,
{
    let mut cs: Vec<char> = Vec::new();
    for c in it: input.chars()
        invariant
            cs@ == it.seq().take(it.index() as int),
    {
        cs.push(c);
    }
    cs
}


/// Index of the first newline at or after `j`.
fn skip_line_comment(cs: &Vec<char>, j: usize) -> (e: usize)
    requires
        j <= cs@.len(),
    ensures
        e as int == line_end(cs@, j as int),
{
    let mut k = j;
    while k < cs.len() && cs[k] != '\n'
        invariant
            j <= k <= cs@.len(),
            line_end(cs@, j as int) == line_end(cs@, k as int),
        decreases cs@.len() - k,
    {
        k = k + 1;
    }
    k
}

/// Index just after the first `*/` at or after `j`.
fn skip_block_comment(cs: &Vec<char>, j: usize) -> (e: usize)
    requires
        j <= cs@.len(),
    ensures
        e as int == block_end(cs@, j as int),
{
    let mut k = j;
    while k < cs.len()
        invariant
            j <= k <= cs@.len(),
            block_end(cs@, j as int) == block_end(cs@, k as int),
        decreases cs@.len() - k,
    {
        if cs[k] == '*' && k + 1 < cs.len() && cs[k + 1] == '/' {
            return k + 2;
        }
        k = k + 1;
    }
    k
}

/// Reads the body of a string literal starting at `j`.
fn read_string_literal(cs: &Vec<char>, j: usize) -> (r: (String, usize))
    requires
        j <= cs@.len(),
    ensures
        (r.0@, r.1 as int) == scan_string(cs@, j as int),
{
    let ghost s = cs@;
    let mut acc = String::new();
    let mut k = j;
    while k < cs.len()
        invariant
            s == cs@,
            j <= k <= s.len(),
            scan_string(s, j as int) == (acc@ + scan_string(s, k as int).0, scan_string(s, k as int).1),
        decreases s.len() - k,
    {
        let c = cs[k];
        if c == '"' {
            assert(acc@ + Seq::<char>::empty() == acc@);
            return (acc, k + 1);
        } else if c == '\\' {
            if k + 1 >= cs.len() {
                assert(acc@ + Seq::<char>::empty() == acc@);
                return (acc, cs.len());
            }
            let e = cs[k + 1];
            let ghost before = acc@;
            if e == 'n' {
                push_char(&mut acc, '\n');
            } else if e == 't' {
                push_char(&mut acc, '\t');
            } else if e == '\\' {
                push_char(&mut acc, '\\');
            } else if e == '"' {
                push_char(&mut acc, '"');
            } else if e == '0' {
                push_char(&mut acc, '\0');
            } else {
                push_char(&mut acc, '\\');
                push_char(&mut acc, e);
            }
            assert(acc@ =~= before + escape_chars(e));
            assert(before + (escape_chars(e) + scan_string(s, k + 2).0)
                =~= acc@ + scan_string(s, k + 2).0);
            k = k + 2;
        } else {
            let ghost before = acc@;
            push_char(&mut acc, c);
            assert(before + (seq![c] + scan_string(s, k + 1).0) =~= acc@ + scan_string(s, k + 1).0);
            k = k + 1;
        }
    }
    assert(acc@ + Seq::<char>::empty() == acc@);
    (acc, k)
}

/// Reads a number literal whose first digit is at `i`.
fn read_number(cs: &Vec<char>, i: usize) -> (r: (Result<Token, LexError>, usize))
    requires
        i < cs@.len(),
        is_digit(cs@[i as int]),
    ensures
        r.1 as int == number_end(cs@, i + 1, false),
        match number_token(cs@.subrange(i as int, r.1 as int)) {
            Ok(t) => r.0 matches Ok(tok) && tok@ == t,
            Err(e) => r.0 == Err::<Token, LexError>(e),
        },
{
    let ghost s = cs@;
    let n = cs.len();
    let first = cs[i];
    let mut text = String::new();
    push_char(&mut text, first);
    let mut seen_dot = false;
    let mut big = false;
    let mut acc: i64 = (first as u32 - '0' as u32) as i64;
    let mut k = i + 1;
    proof {
        assert(s.subrange(i as int, k as int) =~= seq![first]);
        assert(seq![first].drop_last() =~= Seq::<char>::empty());
        assert(digits_value(Seq::<char>::empty()) == 0);
        assert(seq![first].last() == first);
        assert(digits_value(seq![first]) == digit_value(first));
        assert(!seq![first].contains('.')) by {
            if seq![first].contains('.') {
                let w = choose|w: int| 0 <= w < 1 && seq![first][w] == '.';
                assert(seq![first][w] == first);
            }
        }
    }
    while k < n && (('0' <= cs[k] && cs[k] <= '9') || (cs[k] == '.' && !seen_dot))
        invariant
            s == cs@,
            n == s.len(),
            i < k <= n,
            0 <= acc <= i32::MAX,
            number_end(s, i + 1, false) == number_end(s, k as int, seen_dot),
            text@ == s.subrange(i as int, k as int),
            seen_dot == s.subrange(i as int, k as int).contains('.'),
            !seen_dot ==> forall|m: int| i <= m < k ==> is_digit(#[trigger] s[m]),
            !seen_dot && big ==> digits_value(s.subrange(i as int, k as int)) > i32::MAX,
            !seen_dot && !big ==> acc == digits_value(s.subrange(i as int, k as int)),
        decreases n - k,
    {
        let c = cs[k];
        let ghost sub = s.subrange(i as int, k as int);
        let ghost sub2 = s.subrange(i as int, k + 1);
        assert(sub2 =~= sub.push(c));
        assert(sub2.drop_last() =~= sub);
        if '0' <= c && c <= '9' {
            if !big && !seen_dot {
                let v: i64 = acc * 10 + (c as u32 - '0' as u32) as i64;
                if v > 2147483647 {
                    big = true;
                } else {
                    acc = v;
                }
            } else {
                proof {
                    if !seen_dot {
                        lemma_digits_value_nonneg(sub);
                    }
                }
            }
            push_char(&mut text, c);
            proof {
                if seen_dot {
                    let w = choose|w: int| 0 <= w < sub.len() && sub[w] == '.';
                    assert(sub2[w] == '.');
                } else {
                    assert forall|w: int| 0 <= w < sub2.len() implies sub2[w] != '.' by {
                        if w < sub.len() {
                            assert(sub2[w] == sub[w]);
                            assert(is_digit(s[i + w]));
                        }
                    }
                }
            }
            k = k + 1;
        } else {
            seen_dot = true;
            push_char(&mut text, c);
            assert(sub2[sub2.len() - 1] == '.');
            k = k + 1;
        }
    }
    if seen_dot {
        (Ok(Token::Float(text)), k)
    } else if big {
        (Err(LexError::IntegerOverflow), k)
    } else {
        (Ok(Token::Int(acc as i32)), k)
    }
}

/// Whether the characters `cs[start..end]` spell `w`.
fn spells(cs: &Vec<char>, start: usize, end: usize, w: &[char]) -> (b: bool)
    requires
        start <= end <= cs@.len(),
    ensures
        b == (cs@.subrange(start as int, end as int) == w@),
{
    if end - start != w.len() {
        return false;
    }
    let mut k: usize = 0;
    while k < w.len()
        invariant
            start <= end <= cs@.len(),
            end - start == w@.len(),
            0 <= k <= w@.len(),
            forall|m: int| 0 <= m < k ==> cs@[start + m] == w@[m],
        decreases w@.len() - k,
    {
        if cs[start + k] != w[k] {
            assert(cs@.subrange(start as int, end as int)[k as int] != w@[k as int]);
            return false;
        }
        k = k + 1;
    }
    assert(cs@.subrange(start as int, end as int) =~= w@);
    true
}

/// Reads an identifier or keyword whose first character is at `i`.
fn read_word(cs: &Vec<char>, i: usize) -> (r: (Token, usize))
    requires
        i < cs@.len(),
    ensures
        r.1 as int == ident_end(cs@, i + 1),
        r.0@ == word_token(cs@.subrange(i as int, r.1 as int)),
{
    let ghost s = cs@;
    let n = cs.len();
    let mut k = i + 1;
    while k < n && (('a' <= cs[k] && cs[k] <= 'z') || ('A' <= cs[k] && cs[k] <= 'Z') || cs[k] == '_'
        || ('0' <= cs[k] && cs[k] <= '9'))
        invariant
            s == cs@,
            n == s.len(),
            i < k <= n,
            ident_end(s, i + 1) == ident_end(s, k as int),
        decreases n - k,
    {
        k = k + 1;
    }
    let ghost w = s.subrange(i as int, k as int);
    if spells(cs, i, k, &['i', 'n', 't']) {
        assert(w == seq!['i', 'n', 't']);
        (Token::KwInt, k)
    } else if spells(cs, i, k, &['f', 'l', 'o', 'a', 't']) {
        assert(w == seq!['f', 'l', 'o', 'a', 't']);
        (Token::KwFloat, k)
    } else if spells(cs, i, k, &['r', 'e', 't', 'u', 'r', 'n']) {
        assert(w == seq!['r', 'e', 't', 'u', 'r', 'n']);
        (Token::KwReturn, k)
    } else if spells(cs, i, k, &['s', 't', 'r', 'u', 'c', 't']) {
        assert(w == seq!['s', 't', 'r', 'u', 'c', 't']);
        (Token::KwStruct, k)
    } else if spells(cs, i, k, &['c', 'o', 'n', 's', 't']) {
        assert(w == seq!['c', 'o', 'n', 's', 't']);
        (Token::KwConst, k)
    } else if spells(cs, i, k, &['c', 'h', 'a', 'r']) {
        assert(w == seq!['c', 'h', 'a', 'r']);
        (Token::KwChar, k)
    } else {
        let mut ident = String::new();
        let mut m = i;
        while m < k
            invariant
                s == cs@,
                i <= m <= k <= s.len(),
                ident@ == s.subrange(i as int, m as int),
            decreases k - m,
        {
            push_char(&mut ident, cs[m]);
            m = m + 1;
            assert(ident@ =~= s.subrange(i as int, m as int));
        }
        (Token::Identifier(ident), k)
    }
}

/// Tokenizes a character sequence, stopping at the first lexical error.
fn lex_chars(cs: &Vec<char>) -> (r: Result<Vec<Token>, LexError>)
    ensures
        match r {
            Ok(v) => lex_from(cs@, 0) == Ok::<Seq<SpecToken>, LexError>(tokens_view(v@)),
            Err(e) => lex_from(cs@, 0) == Err::<Seq<SpecToken>, LexError>(e),
        },
{
    let ghost s = cs@;
    let n = cs.len();
    let mut tokens: Vec<Token> = Vec::new();
    let mut i: usize = 0;
    assert(tokens_view(tokens@) =~= Seq::<SpecToken>::empty());
    assert(glue(Seq::<SpecToken>::empty(), lex_from(s, 0)) == lex_from(s, 0)) by {
        if let Ok(rest) = lex_from(s, 0) {
            assert(Seq::<SpecToken>::empty() + rest =~= rest);
        }
    }
    while i < n
        invariant
            s == cs@,
            n == s.len(),
            0 <= i <= n,
            lex_from(s, 0) == glue(tokens_view(tokens@), lex_from(s, i as int)),
        decreases n - i,
    {
        let c = cs[i];
        let ghost pre = tokens_view(tokens@);
        let mut tok: Option<Token> = None;
        let next: usize;
        if c == ' ' || c == '\t' || c == '\n' || c == '\r' {
            next = i + 1;
        } else if c == '/' {
            if i + 1 < n && cs[i + 1] == '/' {
                next = skip_line_comment(cs, i + 2);
                proof { lemma_line_end(s, i + 2); }
            } else if i + 1 < n && cs[i + 1] == '*' {
                next = skip_block_comment(cs, i + 2);
                proof { lemma_block_end(s, i + 2); }
            } else {
                tok = Some(Token::Slash);
                next = i + 1;
            }
        } else if c == '-' {
            if i + 1 < n && cs[i + 1] == '>' {
                tok = Some(Token::Arrow);
                next = i + 2;
            } else {
                tok = Some(Token::Minus);
                next = i + 1;
            }
        } else if c == '+' {
            tok = Some(Token::Plus);
            next = i + 1;
        } else if c == '*' {
            tok = Some(Token::Star);
            next = i + 1;
        } else if c == '(' {
            tok = Some(Token::LParen);
            next = i + 1;
        } else if c == ')' {
            tok = Some(Token::RParen);
            next = i + 1;
        } else if c == '{' {
            tok = Some(Token::LBrace);
            next = i + 1;
        } else if c == '}' {
            tok = Some(Token::RBrace);
            next = i + 1;
        } else if c == ';' {
            tok = Some(Token::Semicolon);
            next = i + 1;
        } else if c == ',' {
            tok = Some(Token::Comma);
            next = i + 1;
        } else if c == '.' {
            tok = Some(Token::Dot);
            next = i + 1;
        } else if c == '=' {
            tok = Some(Token::Equal);
            next = i + 1;
        } else if c == '"' {
            let (content, end) = read_string_literal(cs, i + 1);
            proof { lemma_scan_string(s, i + 1); }
            tok = Some(Token::String(content));
            next = end;
        } else if '0' <= c && c <= '9' {
            let (res, end) = read_number(cs, i);
            proof { lemma_number_end(s, i + 1, false); }
            match res {
                Ok(t) => {
                    tok = Some(t);
                    next = end;
                },
                Err(e) => {
                    return Err(e);
                },
            }
        } else if ('a' <= c && c <= 'z') || ('A' <= c && c <= 'Z') || c == '_' {
            let (t, end) = read_word(cs, i);
            proof { lemma_ident_end(s, i + 1); }
            tok = Some(t);
            next = end;
        } else {
            return Err(LexError::UnexpectedCharacter(c));
        }
        match tok {
            Some(t) => {
                proof {
                    assert(lex_from(s, i as int) == prepend(t@, lex_from(s, next as int)));
                    lemma_glue_prepend(pre, t@, lex_from(s, next as int));
                }
                tokens.push(t);
                assert(tokens_view(tokens@) =~= pre.push(t@));
            },
            None => {
                assert(lex_from(s, i as int) == lex_from(s, next as int));
            },
        }
        i = next;
    }
    assert(lex_from(s, n as int) == Ok::<Seq<SpecToken>, LexError>(Seq::empty()));
    assert(tokens_view(tokens@) + Seq::<SpecToken>::empty() =~= tokens_view(tokens@));
    Ok(tokens)
}

/// The source text can be tokenized (no unexpected character, no
/// integer literal above `i32::MAX`).
pub open spec fn lexes(input: Seq<char>) -> bool {
    spec_tokenize(input) is Ok
}

/// Tokenizes a source text, or reports the first lexical error.
pub fn try_tokenize(input: &str) -> (r: Result<Vec<Token>, LexError>)
    ensures
        match r {
            Ok(v) => spec_tokenize(input@) == Ok::<Seq<SpecToken>, LexError>(tokens_view(v@)),
            Err(e) => spec_tokenize(input@) == Err::<Seq<SpecToken>, LexError>(e),
        },
{
    let cs = chars_of(input);
    lex_chars(&cs)
}

/// Tokenizes a source text that is known to tokenize.
pub fn tokenize(input: &str) -> (tokens: Vec<Token>)
    requires
        lexes(input@),
    ensures
        spec_tokenize(input@) == Ok::<Seq<SpecToken>, LexError>(tokens_view(tokens@)),
{
    match try_tokenize(input) {
        Ok(v) => v,
        Err(_) => {
            proof { assert(false); }
            Vec::new()
        },
    }
}

} // verus!
