//! The vocabulary of lexical units. A token carries its kind, the literal
//! source text it was scanned from, and the line it started on.

use vstd::prelude::*;
use crate::text::{digit_check, digit_val, is_digit_char};

verus! {

#[derive(Clone, Copy, PartialEq, Eq, Structural, Debug)]
pub enum TokenKind {
    LeftBrace,
    RightBrace,
    LeftParen,
    RightParen,
    Comma,
    Dot,
    Minus,
    Plus,
    Star,
    Slash,
    Percent,
    Tilde,
    Equal,
    Less,
    LessEqual,
    Greater,
    GreaterEqual,
    Ident,
    Num,
    StrLit,
    KwFunc,
    KwIf,
    KwNil,
    KwOr,
    KwRet,
    KwTrue,
    KwFalse,
    KwWhile,
    KwLet,
    KwConst,
    KwSet,
    KwAnd,
    Eof,
}

#[derive(Debug, PartialEq)]
pub struct Token {
    pub kind: TokenKind,
    pub text: String,
    pub line: usize,
}

pub ghost struct TokenView {
    pub kind: TokenKind,
    pub text: Seq<char>,
    pub line: int,
}

impl View for Token {
    type V = TokenView;

    open spec fn view(&self) -> TokenView {
        TokenView { kind: self.kind, text: self.text@, line: self.line as int }
    }
}

impl Token {
    pub fn new(kind: TokenKind, text: String, line: usize) -> (t: Token)
        ensures
            t@ == (TokenView { kind, text: text@, line: line as int }),
    {
        Token { kind, text, line }
    }
}

impl Clone for Token {
    fn clone(&self) -> (t: Token)
        ensures
            t@ == self@,
    {
        Token { kind: self.kind, text: self.text.clone(), line: self.line }
    }
}

/// The views of a sequence of tokens.
pub open spec fn toks_of(tokens: Seq<Token>) -> Seq<TokenView> {
    tokens.map_values(|t: Token| t@)
}

pub proof fn lemma_toks_of_push(v: Seq<Token>, t: Token)
    ensures
        toks_of(v.push(t)) == toks_of(v).push(t@),
        toks_of(v.push(t)) == toks_of(v) + seq![t@],
{
    assert(toks_of(v.push(t)) =~= toks_of(v).push(t@));
    assert(toks_of(v.push(t)) =~= toks_of(v) + seq![t@]);
}

/// The fixed keyword table: identifiers spelled like one of these words scan
/// as the keyword's own token kind.
pub open spec fn keyword_of(text: Seq<char>) -> Option<TokenKind> {
    if text == "func"@ {
        Some(TokenKind::KwFunc)
    } else if text == "if"@ {
        Some(TokenKind::KwIf)
    } else if text == "nil"@ {
        Some(TokenKind::KwNil)
    } else if text == "or"@ {
        Some(TokenKind::KwOr)
    } else if text == "ret"@ {
        Some(TokenKind::KwRet)
    } else if text == "true"@ {
        Some(TokenKind::KwTrue)
    } else if text == "false"@ {
        Some(TokenKind::KwFalse)
    } else if text == "while"@ {
        Some(TokenKind::KwWhile)
    } else if text == "let"@ {
        Some(TokenKind::KwLet)
    } else if text == "const"@ {
        Some(TokenKind::KwConst)
    } else if text == "set"@ {
        Some(TokenKind::KwSet)
    } else if text == "and"@ {
        Some(TokenKind::KwAnd)
    } else {
        None
    }
}

pub fn keyword_lookup(text: &String) -> (r: Option<TokenKind>)
    ensures
        r == keyword_of(text@),
{
    if *text == String::from_str("func") {
        Some(TokenKind::KwFunc)
    } else if *text == String::from_str("if") {
        Some(TokenKind::KwIf)
    } else if *text == String::from_str("nil") {
        Some(TokenKind::KwNil)
    } else if *text == String::from_str("or") {
        Some(TokenKind::KwOr)
    } else if *text == String::from_str("ret") {
        Some(TokenKind::KwRet)
    } else if *text == String::from_str("true") {
        Some(TokenKind::KwTrue)
    } else if *text == String::from_str("false") {
        Some(TokenKind::KwFalse)
    } else if *text == String::from_str("while") {
        Some(TokenKind::KwWhile)
    } else if *text == String::from_str("let") {
        Some(TokenKind::KwLet)
    } else if *text == String::from_str("const") {
        Some(TokenKind::KwConst)
    } else if *text == String::from_str("set") {
        Some(TokenKind::KwSet)
    } else if *text == String::from_str("and") {
        Some(TokenKind::KwAnd)
    } else {
        None
    }
}

/// Value of the digit run `text[a..b]`, read in decimal.
pub open spec fn digits_int(text: Seq<char>, a: int, b: int) -> int
    decreases b - a,
{
    if a >= b {
        0
    } else {
        digits_int(text, a, b - 1) * 10 + digit_val(text[b - 1])
    }
}

/// First position at or after `j` that does not hold a decimal digit.
pub open spec fn digits_end(text: Seq<char>, j: int) -> int
    decreases text.len() - j,
{
    if 0 <= j < text.len() && is_digit_char(text[j]) {
        digits_end(text, j + 1)
    } else {
        j
    }
}

/// The numeric value a number token's literal text stands for: an optional
/// leading minus sign, then the leading run of decimal digits. Fractional
/// digits after a dot are scanned as part of the literal but do not
/// contribute to the value. A magnitude too large for an `i64` falls back
/// to `-1`.
pub open spec fn num_text_value(text: Seq<char>) -> i64 {
    let neg = text.len() > 0 && text[0] == '-';
    let s0: int = if neg { 1 } else { 0 };
    let mag = digits_int(text, s0, digits_end(text, s0));
    if mag > i64::MAX {
        (-1) as i64
    } else if neg {
        (-mag) as i64
    } else {
        mag as i64
    }
}

pub proof fn lemma_digits_end_bounds(text: Seq<char>, j: int)
    requires
        0 <= j <= text.len(),
    ensures
        j <= digits_end(text, j) <= text.len(),
        forall|k: int| j <= k < digits_end(text, j) ==> is_digit_char(text[k]),
    decreases text.len() - j,
{
    if 0 <= j < text.len() && is_digit_char(text[j]) {
        lemma_digits_end_bounds(text, j + 1);
    }
}

pub proof fn lemma_digits_int_nonneg(text: Seq<char>, a: int, b: int)
    requires
        forall|k: int| a <= k < b ==> is_digit_char(text[k]),
    ensures
        digits_int(text, a, b) >= 0,
    decreases b - a,
{
    if a < b {
        lemma_digits_int_nonneg(text, a, b - 1);
    }
}

/// Parse the numeric value of a number token's text.
pub fn number_value(text: &String) -> (r: i64)
    ensures
        r == num_text_value(text@),
{
    let s = text.as_str();
    let n = s.unicode_len();
    let neg = n > 0 && s.get_char(0) == '-';
    let s0: usize = if neg { 1 } else { 0 };
    let mut i: usize = s0;
    let mut acc: i64 = 0;
    let mut over: bool = false;
    proof {
        lemma_digits_end_bounds(s@, s0 as int);
    }
    while i < n && digit_check(s.get_char(i))
        invariant
            s0 <= i <= n == s@.len(),
            digits_end(s@, s0 as int) == digits_end(s@, i as int),
            forall|k: int| s0 <= k < i ==> is_digit_char(s@[k]),
            !over ==> acc == digits_int(s@, s0 as int, i as int) && acc >= 0,
            over ==> digits_int(s@, s0 as int, i as int) > i64::MAX,
        decreases n - i,
    {
        let c = s.get_char(i);
        let d: i64 = (c as u32 - 48) as i64;
        proof {
            assert(digits_int(s@, s0 as int, i + 1) == digits_int(s@, s0 as int, i as int) * 10
                + digit_val(s@[i as int]));
        }
        if !over {
            match acc.checked_mul(10) {
                Some(m) => {
                    match m.checked_add(d) {
                        Some(v) => {
                            acc = v;
                        },
                        None => {
                            over = true;
                        },
                    }
                },
                None => {
                    over = true;
                },
            }
        } else {
            proof {
                let prev = digits_int(s@, s0 as int, i as int);
                assert(digits_int(s@, s0 as int, i + 1) == prev * 10 + digit_val(s@[i as int]));
                assert(prev * 10 == prev + prev * 9);
                assert(prev * 9 >= 0) by (nonlinear_arith)
                    requires
                        prev >= 0,
                ;
            }
        }
        i = i + 1;
    }
    proof {
        assert(digits_end(s@, i as int) == i);
    }
    if over {
        -1
    } else if neg {
        -acc
    } else {
        acc
    }
}

} // verus!
