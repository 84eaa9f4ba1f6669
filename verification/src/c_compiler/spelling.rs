use vstd::prelude::*;

use crate::c_compiler::ast::SpecProgram;
use crate::c_compiler::lexer::{
    block_end, digit_value, digits_value, escape_chars, ident_end, is_digit, is_ident_continue,
    is_ident_start, is_whitespace, lemma_block_end, lemma_ident_end, lemma_line_end, lemma_number_end,
    lemma_scan_string, lex_from, line_end, number_end, prepend, scan_string, single_char_token,
    spec_tokenize, word_token, LexError, SpecToken,
};
use crate::c_compiler::parser::spec_parse;
use crate::c_compiler::unparse_program::{law_parse_inverts_print_program, print_program};

verus! {

// ── How a token is written in source text ───────────────────────

/// The character of a decimal digit value.
pub open spec fn digit_char(d: int) -> char {
    if d == 0 {
        '0'
    } else if d == 1 {
        '1'
    } else if d == 2 {
        '2'
    } else if d == 3 {
        '3'
    } else if d == 4 {
        '4'
    } else if d == 5 {
        '5'
    } else if d == 6 {
        '6'
    } else if d == 7 {
        '7'
    } else if d == 8 {
        '8'
    } else {
        '9'
    }
}

/// The decimal numeral of a natural number, without leading zeros.
pub open spec fn decimal(n: nat) -> Seq<char>
    decreases n,
{
    if n < 10 {
        seq![digit_char(n as int)]
    } else {
        decimal(n / 10).push(digit_char((n % 10) as int))
    }
}

/// A character as written inside a string literal: quote and backslash
/// are escaped with a backslash.
pub open spec fn escape_one(c: char) -> Seq<char> {
    if c == '"' {
        seq!['\\', '"']
    } else if c == '\\' {
        seq!['\\', '\\']
    } else {
        seq![c]
    }
}

/// The body of a string literal that holds `content`.
pub open spec fn escaped(content: Seq<char>) -> Seq<char>
    decreases content.len(),
{
    if content.len() == 0 {
        Seq::empty()
    } else {
        escape_one(content[0]) + escaped(content.drop_first())
    }
}

/// The source text of a token.
pub open spec fn spell(t: SpecToken) -> Seq<char> {
    match t {
        SpecToken::Int(n) => decimal(n as nat),
        SpecToken::Float(text) => text,
        SpecToken::Str(content) => seq!['"'] + escaped(content) + seq!['"'],
        SpecToken::Identifier(w) => w,
        SpecToken::Plus => seq!['+'],
        SpecToken::Minus => seq!['-'],
        SpecToken::Star => seq!['*'],
        SpecToken::Slash => seq!['/'],
        SpecToken::LParen => seq!['('],
        SpecToken::RParen => seq![')'],
        SpecToken::LBrace => seq!['{'],
        SpecToken::RBrace => seq!['}'],
        SpecToken::Semicolon => seq![';'],
        SpecToken::Comma => seq![','],
        SpecToken::Dot => seq!['.'],
        SpecToken::Equal => seq!['='],
        SpecToken::Arrow => seq!['-', '>'],
        SpecToken::KwInt => seq!['i', 'n', 't'],
        SpecToken::KwFloat => seq!['f', 'l', 'o', 'a', 't'],
        SpecToken::KwReturn => seq!['r', 'e', 't', 'u', 'r', 'n'],
        SpecToken::KwStruct => seq!['s', 't', 'r', 'u', 'c', 't'],
        SpecToken::KwConst => seq!['c', 'o', 'n', 's', 't'],
        SpecToken::KwChar => seq!['c', 'h', 'a', 'r'],
    }
}

/// The text of a floating-point literal as the lexer reads one: a digit
/// first, then digits and exactly one dot.
pub open spec fn is_float_text(text: Seq<char>) -> bool {
    &&& text.len() > 0
    &&& is_digit(text[0])
    &&& text.contains('.')
    &&& forall|k: int| 0 <= k < text.len() ==> is_digit(#[trigger] text[k]) || text[k] == '.'
    &&& forall|k1: int, k2: int|
        0 <= k1 < text.len() && 0 <= k2 < text.len() && #[trigger] text[k1] == '.' && #[trigger] text[k2]
            == '.' ==> k1 == k2
}

/// An identifier as the lexer reads one: a letter or underscore, then
/// letters, digits and underscores, and no keyword.
pub open spec fn is_identifier_text(w: Seq<char>) -> bool {
    &&& w.len() > 0
    &&& is_ident_start(w[0])
    &&& forall|k: int| 0 <= k < w.len() ==> is_ident_continue(#[trigger] w[k])
    &&& word_token(w) == SpecToken::Identifier(w)
}

/// A token that the lexer can produce: integers are not negative,
/// float and identifier texts have the lexer's shape.
pub open spec fn spellable(t: SpecToken) -> bool {
    match t {
        SpecToken::Int(n) => n >= 0,
        SpecToken::Float(text) => is_float_text(text),
        SpecToken::Identifier(w) => is_identifier_text(w),
        _ => true,
    }
}

/// The source text of a token sequence: each token followed by a space.
pub open spec fn spell_tokens(ts: Seq<SpecToken>) -> Seq<char>
    decreases ts.len(),
{
    if ts.len() == 0 {
        Seq::empty()
    } else {
        spell(ts[0]) + seq![' '] + spell_tokens(ts.drop_first())
    }
}

// ── Tokenizing is local, and whitespace only separates ──────────

proof fn lemma_line_end_shift(p: Seq<char>, s: Seq<char>, j: int)
    requires
        0 <= j <= s.len(),
    ensures
        line_end(p + s, p.len() + j) == p.len() + line_end(s, j),
    decreases s.len() - j,
{
    if j < s.len() {
        assert((p + s)[p.len() + j] == s[j]);
        if s[j] != '\n' {
            lemma_line_end_shift(p, s, j + 1);
        }
    }
}

proof fn lemma_block_end_shift(p: Seq<char>, s: Seq<char>, j: int)
    requires
        0 <= j <= s.len(),
    ensures
        block_end(p + s, p.len() + j) == p.len() + block_end(s, j),
    decreases s.len() - j,
{
    if j < s.len() {
        assert((p + s)[p.len() + j] == s[j]);
        if j + 1 < s.len() {
            assert((p + s)[p.len() + j + 1] == s[j + 1]);
        }
        if !(s[j] == '*' && j + 1 < s.len() && s[j + 1] == '/') {
            lemma_block_end_shift(p, s, j + 1);
        }
    }
}

proof fn lemma_number_end_shift(p: Seq<char>, s: Seq<char>, j: int, seen: bool)
    requires
        0 <= j <= s.len(),
    ensures
        number_end(p + s, p.len() + j, seen) == p.len() + number_end(s, j, seen),
    decreases s.len() - j,
{
    if j < s.len() {
        assert((p + s)[p.len() + j] == s[j]);
        if is_digit(s[j]) {
            lemma_number_end_shift(p, s, j + 1, seen);
        } else if s[j] == '.' && !seen {
            lemma_number_end_shift(p, s, j + 1, true);
        }
    }
}

proof fn lemma_ident_end_shift(p: Seq<char>, s: Seq<char>, j: int)
    requires
        0 <= j <= s.len(),
    ensures
        ident_end(p + s, p.len() + j) == p.len() + ident_end(s, j),
    decreases s.len() - j,
{
    if j < s.len() {
        assert((p + s)[p.len() + j] == s[j]);
        if is_ident_continue(s[j]) {
            lemma_ident_end_shift(p, s, j + 1);
        }
    }
}

proof fn lemma_scan_string_shift(p: Seq<char>, s: Seq<char>, j: int)
    requires
        0 <= j <= s.len(),
    ensures
        scan_string(p + s, p.len() + j) == (scan_string(s, j).0, p.len() + scan_string(s, j).1),
    decreases s.len() - j,
{
    if j < s.len() {
        assert((p + s)[p.len() + j] == s[j]);
        if j + 1 < s.len() {
            assert((p + s)[p.len() + j + 1] == s[j + 1]);
        }
        if s[j] != '"' {
            if s[j] == '\\' {
                if j + 1 < s.len() {
                    lemma_scan_string_shift(p, s, j + 2);
                }
            } else {
                lemma_scan_string_shift(p, s, j + 1);
            }
        }
    }
}

proof fn lemma_lex_shift(p: Seq<char>, s: Seq<char>, i: int)
    requires
        0 <= i,
    ensures
        lex_from(p + s, p.len() + i) == lex_from(s, i),
    decreases s.len() - i,
{
    let t = p + s;
    let q = p.len() as int;
    if i < s.len() {
        let c = s[i];
        assert(t[q + i] == c);
        if i + 1 < s.len() {
            assert(t[q + i + 1] == s[i + 1]);
        }
        if is_whitespace(c) {
            lemma_lex_shift(p, s, i + 1);
        } else if c == '/' {
            if i + 1 < s.len() && s[i + 1] == '/' {
                lemma_line_end(s, i + 2);
                lemma_line_end_shift(p, s, i + 2);
                lemma_lex_shift(p, s, line_end(s, i + 2));
            } else if i + 1 < s.len() && s[i + 1] == '*' {
                lemma_block_end(s, i + 2);
                lemma_block_end_shift(p, s, i + 2);
                lemma_lex_shift(p, s, block_end(s, i + 2));
            } else {
                lemma_lex_shift(p, s, i + 1);
            }
        } else if c == '-' {
            if i + 1 < s.len() && s[i + 1] == '>' {
                lemma_lex_shift(p, s, i + 2);
            } else {
                lemma_lex_shift(p, s, i + 1);
            }
        } else if single_char_token(c) is Some {
            lemma_lex_shift(p, s, i + 1);
        } else if c == '"' {
            lemma_scan_string(s, i + 1);
            lemma_scan_string_shift(p, s, i + 1);
            lemma_lex_shift(p, s, scan_string(s, i + 1).1);
        } else if is_digit(c) {
            lemma_number_end(s, i + 1, false);
            lemma_number_end_shift(p, s, i + 1, false);
            let end = number_end(s, i + 1, false);
            assert(t.subrange(q + i, q + end) =~= s.subrange(i, end));
            lemma_lex_shift(p, s, end);
        } else if is_ident_start(c) {
            lemma_ident_end(s, i + 1);
            lemma_ident_end_shift(p, s, i + 1);
            let end = ident_end(s, i + 1);
            assert(t.subrange(q + i, q + end) =~= s.subrange(i, end));
            lemma_lex_shift(p, s, end);
        }
    }
}

/// Tokenizing is local: the text that follows some prefix tokenizes, from
/// where the prefix ends, exactly as it does on its own.
pub proof fn law_lex_suffix(p: Seq<char>, s: Seq<char>)
    ensures
        lex_from(p + s, p.len() as int) == spec_tokenize(s),
{
    lemma_lex_shift(p, s, 0);
}

/// Whitespace (space, tab, newline, carriage return) before a text is
/// ignored: it tokenizes as the text alone.
pub proof fn law_leading_whitespace(w: char, s: Seq<char>)
    requires
        w == ' ' || w == '\t' || w == '\n' || w == '\r',
    ensures
        spec_tokenize(seq![w] + s) == spec_tokenize(s),
{
    lemma_lex_shift(seq![w], s, 0);
}

// ── Scanning the spelled text ───────────────────────────────────

proof fn lemma_digit_char(d: int)
    requires
        0 <= d < 10,
    ensures
        is_digit(digit_char(d)),
        digit_value(digit_char(d)) == d,
{
}

proof fn lemma_decimal(n: nat)
    ensures
        decimal(n).len() > 0,
        forall|k: int| 0 <= k < decimal(n).len() ==> is_digit(#[trigger] decimal(n)[k]),
        digits_value(decimal(n)) == n,
    decreases n,
{
    if n < 10 {
        lemma_digit_char(n as int);
        let d = decimal(n);
        assert(d.drop_last() =~= Seq::<char>::empty());
        assert(digits_value(Seq::<char>::empty()) == 0);
    } else {
        lemma_decimal(n / 10);
        lemma_digit_char((n % 10) as int);
        let d = decimal(n);
        assert(d.drop_last() =~= decimal(n / 10));
        assert(d.last() == digit_char((n % 10) as int));
        assert forall|k: int| 0 <= k < d.len() implies is_digit(#[trigger] d[k]) by {
            if k < d.len() - 1 {
                assert(d[k] == decimal(n / 10)[k]);
            }
        }
    }
}

proof fn lemma_ident_scan(s: Seq<char>, j: int, e: int)
    requires
        0 <= j <= e < s.len(),
        is_whitespace(s[e]),
        forall|m: int| j <= m < e ==> is_ident_continue(#[trigger] s[m]),
    ensures
        ident_end(s, j) == e,
    decreases e - j,
{
    if j < e {
        lemma_ident_scan(s, j + 1, e);
    }
}

proof fn lemma_number_scan(s: Seq<char>, i: int, e: int, j: int, seen: bool)
    requires
        0 <= i < j <= e < s.len(),
        is_whitespace(s[e]),
        forall|m: int| i <= m < e ==> is_digit(#[trigger] s[m]) || s[m] == '.',
        forall|m1: int, m2: int|
            i <= m1 < e && i <= m2 < e && #[trigger] s[m1] == '.' && #[trigger] s[m2] == '.' ==> m1 == m2,
        seen <==> exists|m: int| i <= m < j && #[trigger] s[m] == '.',
    ensures
        number_end(s, j, seen) == e,
    decreases e - j,
{
    if j < e {
        if is_digit(s[j]) {
            assert((exists|m: int| i <= m < j + 1 && #[trigger] s[m] == '.') <==> seen) by {
                if exists|m: int| i <= m < j + 1 && #[trigger] s[m] == '.' {
                    let m = choose|m: int| i <= m < j + 1 && #[trigger] s[m] == '.';
                    assert(m != j);
                }
            }
            lemma_number_scan(s, i, e, j + 1, seen);
        } else {
            assert(s[j] == '.');
            if seen {
                let m = choose|m: int| i <= m < j && #[trigger] s[m] == '.';
                assert(m == j);
            }
            assert(s[j] == '.');
            lemma_number_scan(s, i, e, j + 1, true);
        }
    }
}

proof fn lemma_string_scan(s: Seq<char>, j: int, content: Seq<char>)
    requires
        0 <= j,
        j + escaped(content).len() < s.len(),
        forall|m: int| 0 <= m < escaped(content).len() ==> s[j + m] == #[trigger] escaped(content)[m],
        s[j + escaped(content).len()] == '"',
    ensures
        scan_string(s, j) == (content, j + escaped(content).len() + 1),
    decreases content.len(),
{
    let esc = escaped(content);
    if content.len() == 0 {
        assert(content =~= Seq::<char>::empty());
    } else {
        let c = content[0];
        let tail = content.drop_first();
        let w = escape_one(c);
        assert(esc =~= w + escaped(tail));
        assert forall|m: int| 0 <= m < escaped(tail).len() implies s[j + w.len() + m]
            == #[trigger] escaped(tail)[m] by {
            assert(esc[w.len() + m] == escaped(tail)[m]);
        }
        lemma_string_scan(s, j + w.len(), tail);
        assert(s[j] == esc[0]);
        if c == '"' || c == '\\' {
            assert(s[j + 1] == esc[1]);
            assert(escape_chars(c) =~= seq![c]);
        }
        assert(seq![c] + tail =~= content);
    }
}

proof fn lemma_spell_len(t: SpecToken)
    requires
        spellable(t),
    ensures
        spell(t).len() > 0,
{
    if let SpecToken::Int(n) = t {
        lemma_decimal(n as nat);
    }
}

/// Lexing at the start of a spelled token that is followed by a space
/// gives that token, then lexes on just after it.
proof fn lemma_lex_token(s: Seq<char>, i: int, t: SpecToken)
    requires
        spellable(t),
        0 <= i,
        i + spell(t).len() < s.len(),
        forall|m: int| 0 <= m < spell(t).len() ==> s[i + m] == #[trigger] spell(t)[m],
        is_whitespace(s[i + spell(t).len()]),
    ensures
        lex_from(s, i) == prepend(t, lex_from(s, i + spell(t).len())),
{
    let w = spell(t);
    lemma_spell_len(t);
    let e = i + w.len();
    assert(s[i] == w[0]);
    match t {
        SpecToken::Int(n) => {
            lemma_decimal(n as nat);
            assert forall|m: int| i <= m < e implies is_digit(#[trigger] s[m]) by {
                assert(s[i + (m - i)] == w[m - i]);
            }
            assert(!(exists|m: int| i <= m < i + 1 && #[trigger] s[m] == '.'));
            lemma_number_scan(s, i, e, i + 1, false);
            assert(s.subrange(i, e) =~= w);
            assert(!w.contains('.'));
            assert(lex_from(s, i) == prepend(t, lex_from(s, e)));
        },
        SpecToken::Float(text) => {
            assert forall|m: int| i <= m < e implies is_digit(#[trigger] s[m]) || s[m] == '.' by {
                assert(s[i + (m - i)] == w[m - i]);
            }
            assert forall|m1: int, m2: int|
                i <= m1 < e && i <= m2 < e && #[trigger] s[m1] == '.' && #[trigger] s[m2]
                    == '.' implies m1 == m2 by {
                assert(s[i + (m1 - i)] == w[m1 - i]);
                assert(s[i + (m2 - i)] == w[m2 - i]);
            }
            assert(!(exists|m: int| i <= m < i + 1 && #[trigger] s[m] == '.'));
            lemma_number_scan(s, i, e, i + 1, false);
            assert(s.subrange(i, e) =~= w);
            assert(lex_from(s, i) == prepend(t, lex_from(s, e)));
        },
        SpecToken::Str(content) => {
            let esc = escaped(content);
            assert(w =~= seq!['"'] + esc + seq!['"']);
            assert forall|m: int| 0 <= m < esc.len() implies s[(i + 1) + m] == #[trigger] esc[m] by {
                assert(s[i + (1 + m)] == w[1 + m]);
            }
            assert(s[(i + 1) + esc.len()] == w[1 + esc.len() as int]);
            lemma_string_scan(s, i + 1, content);
            assert(lex_from(s, i) == prepend(t, lex_from(s, e)));
        },
        SpecToken::Identifier(x) => {
            assert forall|m: int| i + 1 <= m < e implies is_ident_continue(#[trigger] s[m]) by {
                assert(s[i + (m - i)] == w[m - i]);
            }
            lemma_ident_scan(s, i + 1, e);
            assert(s.subrange(i, e) =~= w);
            assert(lex_from(s, i) == prepend(t, lex_from(s, e)));
        },
        SpecToken::KwInt | SpecToken::KwFloat | SpecToken::KwReturn | SpecToken::KwStruct
        | SpecToken::KwConst | SpecToken::KwChar => {
            assert forall|m: int| i + 1 <= m < e implies is_ident_continue(#[trigger] s[m]) by {
                assert(s[i + (m - i)] == w[m - i]);
            }
            lemma_ident_scan(s, i + 1, e);
            assert(s.subrange(i, e) =~= w);
            assert(word_token(w) == t);
            assert(lex_from(s, i) == prepend(t, lex_from(s, e)));
        },
        SpecToken::Arrow => {
            assert(s[i + 1] == w[1]);
        },
        _ => {
            assert(w.len() == 1);
        },
    }
}

proof fn lemma_lex_spelled(p: Seq<char>, ts: Seq<SpecToken>)
    requires
        forall|k: int| 0 <= k < ts.len() ==> spellable(#[trigger] ts[k]),
    ensures
        lex_from(p + spell_tokens(ts), p.len() as int) == Ok::<Seq<SpecToken>, LexError>(ts),
    decreases ts.len(),
{
    let s = p + spell_tokens(ts);
    if ts.len() == 0 {
        assert(ts =~= Seq::<SpecToken>::empty());
    } else {
        let t = ts[0];
        let tail = ts.drop_first();
        let w = spell(t);
        let p2 = p + w + seq![' '];
        assert(s =~= p2 + spell_tokens(tail));
        assert forall|k: int| 0 <= k < tail.len() implies spellable(#[trigger] tail[k]) by {
            assert(tail[k] == ts[k + 1]);
        }
        lemma_lex_spelled(p2, tail);
        assert(spellable(ts[0]));
        assert forall|m: int| 0 <= m < w.len() implies s[p.len() + m] == #[trigger] w[m] by {
            assert(s[p.len() + m] == p2[p.len() + m]);
        }
        assert(s[p.len() + w.len() as int] == p2[p.len() + w.len() as int]);
        lemma_lex_token(s, p.len() as int, t);
        assert(lex_from(s, p.len() + w.len() as int) == lex_from(s, p2.len() as int));
        assert(seq![t] + tail =~= ts);
    }
}

/// The source text of a token sequence, token `k` followed by the
/// whitespace character `ws[k]`.
pub open spec fn spell_separated(ts: Seq<SpecToken>, ws: Seq<char>) -> Seq<char>
    decreases ts.len(),
{
    if ts.len() == 0 {
        Seq::empty()
    } else {
        spell(ts[0]) + seq![ws[0]] + spell_separated(ts.drop_first(), ws.drop_first())
    }
}

proof fn lemma_lex_separated(p: Seq<char>, ts: Seq<SpecToken>, ws: Seq<char>)
    requires
        ws.len() == ts.len(),
        forall|k: int| 0 <= k < ts.len() ==> spellable(#[trigger] ts[k]),
        forall|k: int| 0 <= k < ws.len() ==> is_whitespace(#[trigger] ws[k]),
    ensures
        lex_from(p + spell_separated(ts, ws), p.len() as int) == Ok::<Seq<SpecToken>, LexError>(ts),
    decreases ts.len(),
{
    let s = p + spell_separated(ts, ws);
    if ts.len() == 0 {
        assert(ts =~= Seq::<SpecToken>::empty());
    } else {
        let t = ts[0];
        let tail = ts.drop_first();
        let w = spell(t);
        let p2 = p + w + seq![ws[0]];
        assert(s =~= p2 + spell_separated(tail, ws.drop_first()));
        assert forall|k: int| 0 <= k < tail.len() implies spellable(#[trigger] tail[k]) by {
            assert(tail[k] == ts[k + 1]);
        }
        assert forall|k: int| 0 <= k < ws.drop_first().len() implies is_whitespace(#[trigger] ws.drop_first()[k]) by {
            assert(ws.drop_first()[k] == ws[k + 1]);
        }
        lemma_lex_separated(p2, tail, ws.drop_first());
        assert(spellable(ts[0]));
        assert(is_whitespace(ws[0]));
        assert forall|m: int| 0 <= m < w.len() implies s[p.len() + m] == #[trigger] w[m] by {
            assert(s[p.len() + m] == p2[p.len() + m]);
        }
        assert(s[p.len() + w.len() as int] == p2[p.len() + w.len() as int]);
        lemma_lex_token(s, p.len() as int, t);
        assert(lex_from(s, p.len() + w.len() as int) == lex_from(s, p2.len() as int));
        assert(seq![t] + tail =~= ts);
    }
}

/// Whitespace only separates tokens: tokenizing the spellings of a
/// sequence of tokens, each followed by any whitespace character (space,
/// tab, newline or carriage return), gives back exactly those tokens.
pub proof fn law_tokenize_inverts_separated_spelling(ts: Seq<SpecToken>, ws: Seq<char>)
    requires
        ws.len() == ts.len(),
        forall|k: int| 0 <= k < ts.len() ==> spellable(#[trigger] ts[k]),
        forall|k: int|
            0 <= k < ws.len() ==> #[trigger] ws[k] == ' ' || ws[k] == '\t' || ws[k] == '\n' || ws[k] == '\r',
    ensures
        spec_tokenize(spell_separated(ts, ws)) == Ok::<Seq<SpecToken>, LexError>(ts),
{
    lemma_lex_separated(Seq::empty(), ts, ws);
    assert(Seq::<char>::empty() + spell_separated(ts, ws) =~= spell_separated(ts, ws));
}

/// Tokenizing the text that spells a sequence of tokens, each followed by
/// a space, gives back exactly those tokens.
pub proof fn law_tokenize_inverts_spelling(ts: Seq<SpecToken>)
    requires
        forall|k: int| 0 <= k < ts.len() ==> spellable(#[trigger] ts[k]),
    ensures
        spec_tokenize(spell_tokens(ts)) == Ok::<Seq<SpecToken>, LexError>(ts),
{
    lemma_lex_spelled(Seq::empty(), ts);
    assert(Seq::<char>::empty() + spell_tokens(ts) =~= spell_tokens(ts));
}

/// Source text read back: a program printed as tokens and spelled out,
/// one space after each token, tokenizes to those tokens, and they parse
/// to that same program.
pub proof fn law_read_back_printed_program(p: SpecProgram)
    requires
        forall|k: int| 0 <= k < print_program(p).len() ==> spellable(#[trigger] print_program(p)[k]),
    ensures
        spec_tokenize(spell_tokens(print_program(p))) == Ok::<Seq<SpecToken>, LexError>(print_program(p)),
        spec_parse(print_program(p)) == Some(p),
{
    law_tokenize_inverts_spelling(print_program(p));
    law_parse_inverts_print_program(p);
}

} // verus!
