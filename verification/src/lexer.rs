//! The lexer: one left-to-right pass over the source characters that
//! produces the token sequence and collects lexical errors instead of
//! stopping at the first one.
//!
//! The scan is specified by `lex_step` (what one lexeme at a given position
//! produces) and `lex_rest` (the whole remaining scan), and `scan_tokens`
//! is proved to return exactly that.

use vstd::prelude::*;
use crate::text::{
    chars_to_string, dec_seq, dec_string, digit_check, is_digit_char, is_ident_char,
    is_identifier_allowed, strs_of,
};
use crate::token::{
    digits_end, keyword_lookup, keyword_of, lemma_digits_end_bounds, toks_of, Token, TokenKind,
    TokenView,
};

verus! {

/// A sequence with the option's content, if any.
pub open spec fn opt_to_seq<A>(o: Option<A>) -> Seq<A> {
    match o {
        Some(x) => seq![x],
        None => Seq::empty(),
    }
}

/// First position at or after `j` holding `c`; the length if there is none.
pub open spec fn find_ch(src: Seq<char>, j: int, c: char) -> int
    decreases src.len() - j,
{
    if 0 <= j < src.len() {
        if src[j] == c {
            j
        } else {
            find_ch(src, j + 1, c)
        }
    } else {
        src.len() as int
    }
}

/// First position at or after `j` that does not hold an identifier character.
pub open spec fn ident_end(src: Seq<char>, j: int) -> int
    decreases src.len() - j,
{
    if 0 <= j < src.len() && is_ident_char(src[j]) {
        ident_end(src, j + 1)
    } else {
        j
    }
}

/// First position at or after `j` where a `%%` block-comment terminator
/// starts; the length if there is none.
pub open spec fn bc_end(src: Seq<char>, j: int) -> int
    decreases src.len() - j,
{
    if 0 <= j < src.len() {
        if src[j] == '%' && j + 1 < src.len() && src[j + 1] == '%' {
            j
        } else {
            bc_end(src, j + 1)
        }
    } else {
        src.len() as int
    }
}

/// How many newline characters `src[a..b]` holds.
pub open spec fn newlines(src: Seq<char>, a: int, b: int) -> int
    decreases b - a,
{
    if a >= b {
        0
    } else {
        newlines(src, a, b - 1) + if src[b - 1] == '\n' {
            1int
        } else {
            0int
        }
    }
}

pub open spec fn unexpected_char_msg(line: int, c: char) -> Seq<char> {
    dec_seq(line) + " | Unexpected character: "@ + seq![c]
}

pub open spec fn unterminated_string_msg(line: int) -> Seq<char> {
    dec_seq(line) + " | Unterminated string"@
}

/// What scanning one lexeme at position `i` produces: the position and line
/// after it, and at most one token and one error.
pub ghost struct LexStep {
    pub next: int,
    pub line: int,
    pub tok: Option<TokenView>,
    pub err: Option<Seq<char>>,
}

/// The remaining scan: the tokens (ending in the end-of-input token) and the
/// errors, in order.
pub ghost struct LexOut {
    pub tokens: Seq<TokenView>,
    pub errors: Seq<Seq<char>>,
}

pub open spec fn punct_step(src: Seq<char>, i: int, line: int, n: int, kind: TokenKind) -> LexStep {
    LexStep {
        next: i + n,
        line,
        tok: Some(TokenView { kind, text: src.subrange(i, i + n), line }),
        err: None,
    }
}

pub open spec fn skip_step(i: int, line: int) -> LexStep {
    LexStep { next: i + 1, line, tok: None, err: None }
}

/// A numeric literal: the leading digit run, and a fractional digit run if a
/// dot directly followed by a digit comes next.
pub open spec fn num_step(src: Seq<char>, i: int, line: int) -> LexStep {
    let d1 = digits_end(src, i + 1);
    let e = if d1 < src.len() && src[d1] == '.' && d1 + 1 < src.len() && is_digit_char(
        src[d1 + 1],
    ) {
        digits_end(src, d1 + 1)
    } else {
        d1
    };
    LexStep {
        next: e,
        line,
        tok: Some(TokenView { kind: TokenKind::Num, text: src.subrange(i, e), line }),
        err: None,
    }
}

/// A quoted string literal: content taken verbatim up to the matching
/// delimiter. An unterminated literal consumes the rest of the input and
/// produces an error and no token.
pub open spec fn str_step(src: Seq<char>, i: int, line: int) -> LexStep {
    let delim = src[i];
    let e = find_ch(src, i + 1, delim);
    if e >= src.len() {
        let l2 = line + newlines(src, i + 1, src.len() as int);
        LexStep { next: src.len() as int, line: l2, tok: None, err: Some(
            unterminated_string_msg(l2),
        ) }
    } else {
        LexStep {
            next: e + 1,
            line: line + newlines(src, i + 1, e),
            tok: Some(TokenView { kind: TokenKind::StrLit, text: src.subrange(i, e + 1), line }),
            err: None,
        }
    }
}

/// An identifier or keyword.
pub open spec fn ident_step(src: Seq<char>, i: int, line: int) -> LexStep {
    let e = ident_end(src, i + 1);
    let text = src.subrange(i, e);
    let kind = match keyword_of(text) {
        Some(k) => k,
        None => TokenKind::Ident,
    };
    LexStep { next: e, line, tok: Some(TokenView { kind, text, line }), err: None }
}

/// A `%%`-delimited block comment: skipped, counting embedded newlines; an
/// unterminated one consumes the rest of the input.
pub open spec fn block_comment_step(src: Seq<char>, i: int, line: int) -> LexStep {
    let e = bc_end(src, i + 2);
    if e < src.len() {
        LexStep { next: e + 2, line: line + newlines(src, i + 2, e), tok: None, err: None }
    } else {
        LexStep {
            next: src.len() as int,
            line: line + newlines(src, i + 2, src.len() as int),
            tok: None,
            err: None,
        }
    }
}

/// One step of the scan at position `i` of the source.
pub open spec fn lex_step(src: Seq<char>, i: int, line: int) -> LexStep
    recommends
        0 <= i < src.len(),
{
    let c = src[i];
    if c == '{' {
        punct_step(src, i, line, 1, TokenKind::LeftBrace)
    } else if c == '}' {
        punct_step(src, i, line, 1, TokenKind::RightBrace)
    } else if c == '(' {
        punct_step(src, i, line, 1, TokenKind::LeftParen)
    } else if c == ')' {
        punct_step(src, i, line, 1, TokenKind::RightParen)
    } else if c == ',' {
        punct_step(src, i, line, 1, TokenKind::Comma)
    } else if c == '.' {
        punct_step(src, i, line, 1, TokenKind::Dot)
    } else if c == '-' {
        if i + 1 < src.len() && is_digit_char(src[i + 1]) {
            num_step(src, i, line)
        } else {
            punct_step(src, i, line, 1, TokenKind::Minus)
        }
    } else if c == '+' {
        punct_step(src, i, line, 1, TokenKind::Plus)
    } else if c == '*' {
        punct_step(src, i, line, 1, TokenKind::Star)
    } else if c == '/' {
        punct_step(src, i, line, 1, TokenKind::Slash)
    } else if c == '~' {
        punct_step(src, i, line, 1, TokenKind::Tilde)
    } else if c == '=' {
        punct_step(src, i, line, 1, TokenKind::Equal)
    } else if c == '<' {
        if i + 1 < src.len() && src[i + 1] == '=' {
            punct_step(src, i, line, 2, TokenKind::LessEqual)
        } else {
            punct_step(src, i, line, 1, TokenKind::Less)
        }
    } else if c == '>' {
        if i + 1 < src.len() && src[i + 1] == '=' {
            punct_step(src, i, line, 2, TokenKind::GreaterEqual)
        } else {
            punct_step(src, i, line, 1, TokenKind::Greater)
        }
    } else if c == '#' {
        LexStep { next: find_ch(src, i + 1, '\n'), line, tok: None, err: None }
    } else if c == '%' {
        if i + 1 < src.len() && src[i + 1] == '%' {
            block_comment_step(src, i, line)
        } else {
            punct_step(src, i, line, 1, TokenKind::Percent)
        }
    } else if c == ' ' || c == '\r' || c == '\t' {
        skip_step(i, line)
    } else if c == '\n' {
        LexStep { next: i + 1, line: line + 1, tok: None, err: None }
    } else if c == '"' || c == '\'' {
        str_step(src, i, line)
    } else if is_digit_char(c) {
        num_step(src, i, line)
    } else if is_ident_char(c) {
        ident_step(src, i, line)
    } else {
        LexStep { next: i + 1, line, tok: None, err: Some(unexpected_char_msg(line, c)) }
    }
}

/// The whole scan from position `i` on: every token the rest of the source
/// produces, the end-of-input token last, and every error, in order.
pub open spec fn lex_rest(src: Seq<char>, i: int, line: int) -> LexOut
    decreases src.len() - i,
{
    if i >= src.len() {
        LexOut {
            tokens: seq![
                TokenView { kind: TokenKind::Eof, text: Seq::empty(), line },
            ],
            errors: Seq::empty(),
        }
    } else {
        let st = lex_step(src, i, line);
        let nx = if st.next <= i {
            i + 1
        } else if st.next > src.len() {
            src.len() as int
        } else {
            st.next
        };
        let rest = lex_rest(src, nx, st.line);
        LexOut { tokens: opt_to_seq(st.tok) + rest.tokens, errors: opt_to_seq(st.err)
            + rest.errors }
    }
}

pub proof fn lemma_find_ch_bounds(src: Seq<char>, j: int, c: char)
    requires
        0 <= j <= src.len(),
    ensures
        j <= find_ch(src, j, c) <= src.len(),
        forall|k: int| j <= k < find_ch(src, j, c) ==> src[k] != c,
        find_ch(src, j, c) < src.len() ==> src[find_ch(src, j, c)] == c,
    decreases src.len() - j,
{
    if j < src.len() && src[j] != c {
        lemma_find_ch_bounds(src, j + 1, c);
    }
}

pub proof fn lemma_ident_end_bounds(src: Seq<char>, j: int)
    requires
        0 <= j <= src.len(),
    ensures
        j <= ident_end(src, j) <= src.len(),
        forall|k: int| j <= k < ident_end(src, j) ==> is_ident_char(src[k]),
    decreases src.len() - j,
{
    if j < src.len() && is_ident_char(src[j]) {
        lemma_ident_end_bounds(src, j + 1);
    }
}

pub proof fn lemma_bc_end_bounds(src: Seq<char>, j: int)
    requires
        0 <= j <= src.len(),
    ensures
        j <= bc_end(src, j) <= src.len(),
        bc_end(src, j) < src.len() ==> src[bc_end(src, j)] == '%' && bc_end(src, j) + 1
            < src.len() && src[bc_end(src, j) + 1] == '%',
    decreases src.len() - j,
{
    if j < src.len() && !(src[j] == '%' && j + 1 < src.len() && src[j + 1] == '%') {
        lemma_bc_end_bounds(src, j + 1);
    }
}

pub proof fn lemma_newlines_nonneg(src: Seq<char>, a: int, b: int)
    ensures
        0 <= newlines(src, a, b),
        newlines(src, a, b) <= (if b >= a {
            b - a
        } else {
            0
        }),
    decreases b - a,
{
    if a < b {
        lemma_newlines_nonneg(src, a, b - 1);
    }
}

/// Every step of the scan moves forward and stays inside the source, and the
/// line counter never outruns the characters consumed.
pub proof fn lemma_step_bounds(src: Seq<char>, i: int, line: int)
    requires
        0 <= i < src.len(),
    ensures
        i < lex_step(src, i, line).next <= src.len(),
        line <= lex_step(src, i, line).line,
        lex_step(src, i, line).line - line <= lex_step(src, i, line).next - i,
{
    let c = src[i];
    lemma_digits_end_bounds(src, i + 1);
    let d1 = digits_end(src, i + 1);
    if 0 <= d1 + 1 <= src.len() {
        lemma_digits_end_bounds(src, d1 + 1);
    }
    lemma_find_ch_bounds(src, i + 1, '\n');
    lemma_find_ch_bounds(src, i + 1, c);
    lemma_ident_end_bounds(src, i + 1);
    if i + 2 <= src.len() {
        lemma_bc_end_bounds(src, i + 2);
        lemma_newlines_nonneg(src, i + 2, bc_end(src, i + 2));
        lemma_newlines_nonneg(src, i + 2, src.len() as int);
    }
    lemma_newlines_nonneg(src, i + 1, find_ch(src, i + 1, c));
    lemma_newlines_nonneg(src, i + 1, src.len() as int);
}

/// Unfolding the scan one step at an in-range position.
pub proof fn lemma_lex_rest_step(src: Seq<char>, i: int, line: int)
    requires
        0 <= i < src.len(),
    ensures
        ({
            let st = lex_step(src, i, line);
            let rest = lex_rest(src, st.next, st.line);
            &&& i < st.next <= src.len()
            &&& lex_rest(src, i, line).tokens == opt_to_seq(st.tok) + rest.tokens
            &&& lex_rest(src, i, line).errors == opt_to_seq(st.err) + rest.errors
        }),
{
    lemma_step_bounds(src, i, line);
}

/// Law: whatever the source, the scan's token sequence is non-empty, ends in
/// the end-of-input token, and holds no other end-of-input token. In
/// particular a source made only of valid tokens scans to its tokens, one
/// trailing end-of-input token, and no error.
pub proof fn lemma_tokens_end_in_eof(src: Seq<char>, i: int, line: int)
    ensures
        ({
            let out = lex_rest(src, i, line);
            &&& out.tokens.len() >= 1
            &&& out.tokens.last().kind == TokenKind::Eof
            &&& forall|k: int|
                0 <= k < out.tokens.len() - 1 ==> out.tokens[k].kind != TokenKind::Eof
        }),
    decreases src.len() - i,
{
    if i < src.len() {
        let st = lex_step(src, i, line);
        let nx = if st.next <= i {
            i + 1
        } else if st.next > src.len() {
            src.len() as int
        } else {
            st.next
        };
        lemma_tokens_end_in_eof(src, nx, st.line);
        let out = lex_rest(src, i, line);
        let rest = lex_rest(src, nx, st.line);
        assert forall|k: int| 0 <= k < out.tokens.len() - 1 implies out.tokens[k].kind
            != TokenKind::Eof by {
            let head = opt_to_seq(st.tok);
            if k >= head.len() {
                assert(out.tokens[k] == rest.tokens[k - head.len()]);
            }
        }
    }
}

/// Law: an unterminated string literal produces exactly one "unterminated
/// string" error, no token for the literal, and ends the scan: only the
/// end-of-input token follows.
pub proof fn lemma_unterminated_string(src: Seq<char>, i: int, line: int)
    requires
        0 <= i < src.len(),
        src[i] == '"' || src[i] == '\'',
        find_ch(src, i + 1, src[i]) == src.len(),
    ensures
        ({
            let l2 = line + newlines(src, i + 1, src.len() as int);
            &&& lex_rest(src, i, line).errors == seq![unterminated_string_msg(l2)]
            &&& lex_rest(src, i, line).tokens == seq![
                TokenView { kind: TokenKind::Eof, text: Seq::empty(), line: l2 },
            ]
        }),
{
    lemma_lex_rest_step(src, i, line);
    let st = lex_step(src, i, line);
    let l2 = line + newlines(src, i + 1, src.len() as int);
    let rest = lex_rest(src, st.next, st.line);
    assert(opt_to_seq(st.err) + rest.errors =~= seq![unterminated_string_msg(l2)]);
    assert(opt_to_seq(st.tok) + rest.tokens =~= seq![
        TokenView { kind: TokenKind::Eof, text: Seq::empty(), line: l2 },
    ]);
}

/// Clone a token vector; the views carry over unchanged.
pub fn clone_tokens(v: &Vec<Token>) -> (r: Vec<Token>)
    ensures
        toks_of(r@) == toks_of(v@),
{
    let mut r: Vec<Token> = Vec::new();
    let mut i: usize = 0;
    while i < v.len()
        invariant
            i <= v.len(),
            r@.len() == i,
            forall|k: int| 0 <= k < i ==> r@[k]@ == v@[k]@,
        decreases v.len() - i,
    {
        r.push(v[i].clone());
        i = i + 1;
    }
    proof {
        assert(toks_of(r@) =~= toks_of(v@));
    }
    r
}

/// Clone a string vector; `String` cloning keeps the value.
pub fn clone_strings(v: &Vec<String>) -> (r: Vec<String>)
    ensures
        r@ == v@,
{
    let mut r: Vec<String> = Vec::new();
    let mut i: usize = 0;
    while i < v.len()
        invariant
            i <= v.len(),
            r@ == v@.subrange(0, i as int),
        decreases v.len() - i,
    {
        r.push(v[i].clone());
        proof {
            assert(v@.subrange(0, i as int).push(v@[i as int]) =~= v@.subrange(0, i + 1));
        }
        i = i + 1;
    }
    proof {
        assert(v@.subrange(0, v@.len() as int) =~= v@);
    }
    r
}

pub struct Lexer {
    pub chars: Vec<char>,
    pub tokens: Vec<Token>,
    pub start: usize,
    pub current: usize,
    pub line: usize,
    pub errors: Vec<String>,
}

impl Lexer {
    /// The scan position is inside the source and the line counter cannot
    /// overflow on the characters that remain.
    pub open spec fn wf(self) -> bool {
        &&& self.current <= self.chars.len()
        &&& self.line as int + (self.chars.len() - self.current) <= usize::MAX as int
    }

    /// A lexer ready to scan `source` from its beginning, on line 1.
    pub fn new(source: &str) -> (s: Lexer)
        requires
            source@.len() < usize::MAX,
        ensures
            s.chars@ == source@,
            s.tokens@.len() == 0,
            s.errors@.len() == 0,
            s.start == 0,
            s.current == 0,
            s.line == 1,
            s.wf(),
    {
        let n = source.unicode_len();
        let mut chars: Vec<char> = Vec::new();
        let mut i: usize = 0;
        while i < n
            invariant
                i <= n == source@.len(),
                chars@ == source@.subrange(0, i as int),
            decreases n - i,
        {
            chars.push(source.get_char(i));
            proof {
                assert(source@.subrange(0, i as int).push(source@[i as int]) =~= source@.subrange(
                    0,
                    i + 1,
                ));
            }
            i = i + 1;
        }
        proof {
            assert(source@.subrange(0, n as int) =~= source@);
        }
        Lexer { chars, tokens: Vec::new(), start: 0, current: 0, line: 1, errors: Vec::new() }
    }

    fn is_at_end(&self) -> (r: bool)
        ensures
            r == (self.current >= self.chars.len()),
    {
        self.current >= self.chars.len()
    }

    /// Consume the next character if it is `expected`.
    fn match_char(&mut self, expected: char) -> (r: bool)
        requires
            old(self).wf(),
        ensures
            final(self).wf(),
            final(self).chars == old(self).chars,
            final(self).tokens == old(self).tokens,
            final(self).errors == old(self).errors,
            final(self).start == old(self).start,
            final(self).line == old(self).line,
            r == (old(self).current < old(self).chars@.len() && old(self).chars@[old(
                self,
            ).current as int] == expected),
            final(self).current == if r {
                old(self).current + 1
            } else {
                old(self).current as int
            },
    {
        if self.current < self.chars.len() && self.chars[self.current] == expected {
            self.current = self.current + 1;
            true
        } else {
            false
        }
    }

    /// Push a token of the given kind whose text is the current lexeme.
    fn add_token(&mut self, kind: TokenKind)
        requires
            old(self).wf(),
            old(self).start <= old(self).current,
        ensures
            final(self).wf(),
            final(self).chars == old(self).chars,
            final(self).errors == old(self).errors,
            final(self).start == old(self).start,
            final(self).current == old(self).current,
            final(self).line == old(self).line,
            toks_of(final(self).tokens@) == toks_of(old(self).tokens@) + seq![
                TokenView {
                    kind,
                    text: old(self).chars@.subrange(
                        old(self).start as int,
                        old(self).current as int,
                    ),
                    line: old(self).line as int,
                },
            ],
    {
        let text = chars_to_string(&self.chars, self.start, self.current);
        let t = Token::new(kind, text, self.line);
        proof {
            crate::token::lemma_toks_of_push(self.tokens@, t);
        }
        self.tokens.push(t);
    }

    /// Scan the rest of a numeric literal; the first character (a digit, or
    /// a minus sign directly followed by a digit) is already consumed.
    fn scan_number(&mut self)
        requires
            old(self).wf(),
            old(self).start + 1 == old(self).current <= old(self).chars@.len(),
        ensures
            final(self).wf(),
            final(self).chars == old(self).chars,
            final(self).errors == old(self).errors,
            final(self).line == old(self).line,
            ({
                let st = num_step(old(self).chars@, old(self).start as int, old(self).line as int);
                &&& final(self).current == st.next
                &&& toks_of(final(self).tokens@) == toks_of(old(self).tokens@)
                    + opt_to_seq(st.tok)
            }),
    {
        let ghost src = self.chars@;
        let ghost s0 = self.start as int;
        proof {
            lemma_digits_end_bounds(src, s0 + 1);
        }
        while self.current < self.chars.len() && digit_check(self.chars[self.current])
            invariant
                self.wf(),
                self.chars == old(self).chars,
                self.chars@ == src,
                self.start as int == s0,
                s0 + 1 <= self.current <= src.len(),
                self.tokens == old(self).tokens,
                self.errors == old(self).errors,
                self.line == old(self).line,
                digits_end(src, s0 + 1) == digits_end(src, self.current as int),
            decreases src.len() - self.current,
        {
            self.current = self.current + 1;
        }
        proof {
            assert(digits_end(src, self.current as int) == self.current);
        }
        let d1 = self.current;
        if d1 < self.chars.len() && self.chars[d1] == '.' && d1 + 1 < self.chars.len()
            && digit_check(self.chars[d1 + 1]) {
            self.current = self.current + 1;
            proof {
                lemma_digits_end_bounds(src, d1 + 1);
            }
            while self.current < self.chars.len() && digit_check(self.chars[self.current])
                invariant
                    self.wf(),
                    self.chars == old(self).chars,
                self.chars@ == src,
                    self.start as int == s0,
                    d1 + 1 <= self.current <= src.len(),
                    self.tokens == old(self).tokens,
                    self.errors == old(self).errors,
                    self.line == old(self).line,
                    digits_end(src, d1 + 1) == digits_end(src, self.current as int),
                decreases src.len() - self.current,
            {
                self.current = self.current + 1;
            }
            proof {
                assert(digits_end(src, self.current as int) == self.current);
            }
        }
        self.add_token(TokenKind::Num);
    }

    /// Scan the rest of a quoted string literal; the opening delimiter is
    /// already consumed.
    fn scan_string(&mut self, delim: char)
        requires
            old(self).wf(),
            old(self).start + 1 == old(self).current <= old(self).chars@.len(),
            old(self).start < old(self).chars@.len(),
            old(self).chars@[old(self).start as int] == delim,
        ensures
            final(self).wf(),
            final(self).chars == old(self).chars,
            ({
                let st = str_step(old(self).chars@, old(self).start as int, old(self).line as int);
                &&& final(self).current == st.next
                &&& final(self).line as int == st.line
                &&& toks_of(final(self).tokens@) == toks_of(old(self).tokens@)
                    + opt_to_seq(st.tok)
                &&& strs_of(final(self).errors@) == strs_of(old(self).errors@)
                    + opt_to_seq(st.err)
            }),
    {
        let ghost src = self.chars@;
        let ghost s0 = self.start as int;
        let ghost l0 = self.line as int;
        let startline = self.line;
        proof {
            lemma_find_ch_bounds(src, s0 + 1, delim);
        }
        while self.current < self.chars.len() && self.chars[self.current] != delim
            invariant
                self.wf(),
                self.chars == old(self).chars,
                self.chars@ == src,
                self.start as int == s0,
                src[s0] == delim,
                s0 + 1 <= self.current <= src.len(),
                self.tokens == old(self).tokens,
                self.errors == old(self).errors,
                self.line as int == l0 + newlines(src, s0 + 1, self.current as int),
                find_ch(src, s0 + 1, delim) == find_ch(src, self.current as int, delim),
            decreases src.len() - self.current,
        {
            proof {
                lemma_newlines_nonneg(src, s0 + 1, self.current as int);
            }
            if self.chars[self.current] == '\n' {
                self.line = self.line + 1;
            }
            self.current = self.current + 1;
        }
        proof {
            assert(find_ch(src, self.current as int, delim) == if self.current < src.len() {
                self.current as int
            } else {
                src.len() as int
            });
        }
        if self.current >= self.chars.len() {
            let mut msg = dec_string(self.line);
            msg.append(" | Unterminated string");
            proof {
                crate::text::lemma_strs_of_push(self.errors@, msg);
                assert(toks_of(self.tokens@) + Seq::<TokenView>::empty() =~= toks_of(
                    self.tokens@,
                ));
            }
            self.errors.push(msg);
            return ;
        }
        self.current = self.current + 1;
        let text = chars_to_string(&self.chars, self.start, self.current);
        let t = Token::new(TokenKind::StrLit, text, startline);
        proof {
            crate::token::lemma_toks_of_push(self.tokens@, t);
            assert(strs_of(self.errors@) + Seq::<Seq<char>>::empty() =~= strs_of(self.errors@));
        }
        self.tokens.push(t);
    }

    /// Scan the rest of an identifier or keyword; the first character is
    /// already consumed.
    fn scan_identifier(&mut self)
        requires
            old(self).wf(),
            old(self).start + 1 == old(self).current <= old(self).chars@.len(),
        ensures
            final(self).wf(),
            final(self).chars == old(self).chars,
            final(self).errors == old(self).errors,
            final(self).line == old(self).line,
            ({
                let st = ident_step(old(self).chars@, old(self).start as int, old(
                    self,
                ).line as int);
                &&& final(self).current == st.next
                &&& toks_of(final(self).tokens@) == toks_of(old(self).tokens@)
                    + opt_to_seq(st.tok)
            }),
    {
        let ghost src = self.chars@;
        let ghost s0 = self.start as int;
        proof {
            lemma_ident_end_bounds(src, s0 + 1);
        }
        while self.current < self.chars.len() && is_identifier_allowed(self.chars[self.current])
            invariant
                self.wf(),
                self.chars == old(self).chars,
                self.chars@ == src,
                self.start as int == s0,
                s0 + 1 <= self.current <= src.len(),
                self.tokens == old(self).tokens,
                self.errors == old(self).errors,
                self.line == old(self).line,
                ident_end(src, s0 + 1) == ident_end(src, self.current as int),
            decreases src.len() - self.current,
        {
            self.current = self.current + 1;
        }
        proof {
            assert(ident_end(src, self.current as int) == self.current);
        }
        let text = chars_to_string(&self.chars, self.start, self.current);
        let kind = match keyword_lookup(&text) {
            Some(k) => k,
            None => TokenKind::Ident,
        };
        let t = Token::new(kind, text, self.line);
        proof {
            crate::token::lemma_toks_of_push(self.tokens@, t);
        }
        self.tokens.push(t);
    }

    /// Skip a `%%`-delimited block comment; the opening `%%` is already
    /// consumed.
    fn scan_block_comment(&mut self)
        requires
            old(self).wf(),
            old(self).start + 2 == old(self).current <= old(self).chars@.len(),
        ensures
            final(self).wf(),
            final(self).chars == old(self).chars,
            final(self).tokens == old(self).tokens,
            final(self).errors == old(self).errors,
            ({
                let st = block_comment_step(
                    old(self).chars@,
                    old(self).start as int,
                    old(self).line as int,
                );
                &&& final(self).current == st.next
                &&& final(self).line as int == st.line
            }),
    {
        let ghost src = self.chars@;
        let ghost s0 = self.start as int;
        let ghost l0 = self.line as int;
        proof {
            lemma_bc_end_bounds(src, s0 + 2);
        }
        while self.current < self.chars.len() && !(self.chars[self.current] == '%' && self.current
            + 1 < self.chars.len() && self.chars[self.current + 1] == '%')
            invariant
                self.wf(),
                self.chars == old(self).chars,
                self.chars@ == src,
                self.start as int == s0,
                s0 + 2 <= self.current <= src.len(),
                self.tokens == old(self).tokens,
                self.errors == old(self).errors,
                self.line as int == l0 + newlines(src, s0 + 2, self.current as int),
                bc_end(src, s0 + 2) == bc_end(src, self.current as int),
            decreases src.len() - self.current,
        {
            proof {
                lemma_newlines_nonneg(src, s0 + 2, self.current as int);
            }
            if self.chars[self.current] == '\n' {
                self.line = self.line + 1;
            }
            self.current = self.current + 1;
        }
        proof {
            assert(bc_end(src, self.current as int) == if self.current < src.len() {
                self.current as int
            } else {
                src.len() as int
            });
        }
        if self.current < self.chars.len() {
            self.current = self.current + 2;
        }
    }

    /// Scan one lexeme starting at the current position.
    fn scan_token(&mut self)
        requires
            old(self).wf(),
            old(self).start == old(self).current < old(self).chars@.len(),
        ensures
            final(self).wf(),
            final(self).chars == old(self).chars,
            ({
                let st = lex_step(old(self).chars@, old(self).current as int, old(
                    self,
                ).line as int);
                &&& final(self).current == st.next
                &&& final(self).line as int == st.line
                &&& toks_of(final(self).tokens@) == toks_of(old(self).tokens@)
                    + opt_to_seq(st.tok)
                &&& strs_of(final(self).errors@) == strs_of(old(self).errors@)
                    + opt_to_seq(st.err)
            }),
            old(self).current < final(self).current <= final(self).chars@.len(),
    {
        proof {
            lemma_step_bounds(old(self).chars@, old(self).current as int, old(self).line as int);
        }
        let c = self.chars[self.current];
        self.current = self.current + 1;
        if c == '{' {
            self.add_token(TokenKind::LeftBrace);
        } else if c == '}' {
            self.add_token(TokenKind::RightBrace);
        } else if c == '(' {
            self.add_token(TokenKind::LeftParen);
        } else if c == ')' {
            self.add_token(TokenKind::RightParen);
        } else if c == ',' {
            self.add_token(TokenKind::Comma);
        } else if c == '.' {
            self.add_token(TokenKind::Dot);
        } else if c == '-' {
            if self.current < self.chars.len() && digit_check(self.chars[self.current]) {
                self.scan_number();
            } else {
                self.add_token(TokenKind::Minus);
            }
        } else if c == '+' {
            self.add_token(TokenKind::Plus);
        } else if c == '*' {
            self.add_token(TokenKind::Star);
        } else if c == '/' {
            self.add_token(TokenKind::Slash);
        } else if c == '~' {
            self.add_token(TokenKind::Tilde);
        } else if c == '=' {
            self.add_token(TokenKind::Equal);
        } else if c == '<' {
            if self.match_char('=') {
                self.add_token(TokenKind::LessEqual);
            } else {
                self.add_token(TokenKind::Less);
            }
        } else if c == '>' {
            if self.match_char('=') {
                self.add_token(TokenKind::GreaterEqual);
            } else {
                self.add_token(TokenKind::Greater);
            }
        } else if c == '#' {
            let ghost src = self.chars@;
            let ghost c0 = self.current as int;
            proof {
                lemma_find_ch_bounds(src, c0, '\n');
            }
            while self.current < self.chars.len() && self.chars[self.current] != '\n'
                invariant
                    self.wf(),
                    self.chars == old(self).chars,
                self.chars@ == src,
                    c0 <= self.current <= src.len(),
                    self.tokens == old(self).tokens,
                    self.errors == old(self).errors,
                    self.line == old(self).line,
                    self.start == old(self).start,
                    find_ch(src, c0, '\n') == find_ch(src, self.current as int, '\n'),
                decreases src.len() - self.current,
            {
                self.current = self.current + 1;
            }
            proof {
                assert(find_ch(src, self.current as int, '\n') == if self.current < src.len() {
                    self.current as int
                } else {
                    src.len() as int
                });
            }
        } else if c == '%' {
            if self.match_char('%') {
                self.scan_block_comment();
            } else {
                self.add_token(TokenKind::Percent);
            }
        } else if c == ' ' || c == '\r' || c == '\t' {
        } else if c == '\n' {
            self.line = self.line + 1;
        } else if c == '"' || c == '\'' {
            self.scan_string(c);
        } else if digit_check(c) {
            self.scan_number();
        } else if is_identifier_allowed(c) {
            self.scan_identifier();
        } else {
            let mut msg = dec_string(self.line);
            msg.append(" | Unexpected character: ");
            crate::text::push_char(&mut msg, c);
            proof {
                assert(msg@ =~= unexpected_char_msg(self.line as int, c));
                crate::text::lemma_strs_of_push(self.errors@, msg);
            }
            self.errors.push(msg);
        }
        proof {
            assert(toks_of(old(self).tokens@) + Seq::<TokenView>::empty() =~= toks_of(
                old(self).tokens@,
            ));
            assert(strs_of(old(self).errors@) + Seq::<Seq<char>>::empty() =~= strs_of(
                old(self).errors@,
            ));
        }
    }

    /// Scan the whole remaining source. The returned tokens and the
    /// accumulated errors are exactly what `lex_rest` gives for the scan
    /// position the lexer stood at.
    pub fn scan_tokens(&mut self) -> (r: Vec<Token>)
        requires
            old(self).wf(),
        ensures
            final(self).wf(),
            final(self).chars == old(self).chars,
            ({
                let out = lex_rest(old(self).chars@, old(self).current as int, old(
                    self,
                ).line as int);
                &&& toks_of(final(self).tokens@) == toks_of(old(self).tokens@) + out.tokens
                &&& strs_of(final(self).errors@) == strs_of(old(self).errors@) + out.errors
                &&& toks_of(r@) == toks_of(final(self).tokens@)
            }),
    {
        let ghost src = self.chars@;
        let ghost out0 = lex_rest(src, old(self).current as int, old(self).line as int);
        while !self.is_at_end()
            invariant
                self.wf(),
                self.chars == old(self).chars,
                self.chars@ == src,
                toks_of(old(self).tokens@) + out0.tokens == toks_of(self.tokens@)
                    + lex_rest(src, self.current as int, self.line as int).tokens,
                strs_of(old(self).errors@) + out0.errors == strs_of(self.errors@)
                    + lex_rest(src, self.current as int, self.line as int).errors,
            decreases src.len() - self.current,
        {
            let ghost pre = *self;
            self.start = self.current;
            self.scan_token();
            proof {
                lemma_lex_rest_step(src, pre.current as int, pre.line as int);
                let st = lex_step(src, pre.current as int, pre.line as int);
                let rest = lex_rest(src, self.current as int, self.line as int);
                assert((toks_of(pre.tokens@) + opt_to_seq(st.tok)) + rest.tokens =~= toks_of(
                    pre.tokens@,
                ) + (opt_to_seq(st.tok) + rest.tokens));
                assert((strs_of(pre.errors@) + opt_to_seq(st.err)) + rest.errors =~= strs_of(
                    pre.errors@,
                ) + (opt_to_seq(st.err) + rest.errors));
            }
        }
        let t = Token::new(TokenKind::Eof, String::new(), self.line);
        proof {
            crate::token::lemma_toks_of_push(self.tokens@, t);
            assert(lex_rest(src, self.current as int, self.line as int).tokens =~= seq![t@]);
            assert(toks_of(self.tokens@).push(t@) =~= toks_of(self.tokens@) + seq![t@]);
            assert(strs_of(self.errors@) + lex_rest(
                src,
                self.current as int,
                self.line as int,
            ).errors =~= strs_of(self.errors@));
        }
        self.tokens.push(t);
        clone_tokens(&self.tokens)
    }

    /// The lexical errors collected so far, or `None` if there were none.
    pub fn get_errors(&self) -> (r: Option<Vec<String>>)
        ensures
            match r {
                Option::None => self.errors@.len() == 0,
                Option::Some(e) => e@ == self.errors@ && self.errors@.len() > 0,
            },
    {
        if self.errors.len() == 0 {
            return None;
        }
        Some(clone_strings(&self.errors))
    }
}

/// Scan a whole source text: its tokens, ending in the end-of-input token,
/// and the lexical errors, in order.
pub fn tokenize(source: &str) -> (r: (Vec<Token>, Vec<String>))
    requires
        source@.len() < usize::MAX,
    ensures
        toks_of(r.0@) == lex_rest(source@, 0, 1).tokens,
        strs_of(r.1@) == lex_rest(source@, 0, 1).errors,
{
    let mut lexer = Lexer::new(source);
    proof {
        assert(toks_of(lexer.tokens@) =~= Seq::<TokenView>::empty());
        assert(strs_of(lexer.errors@) =~= Seq::<Seq<char>>::empty());
    }
    let tokens = lexer.scan_tokens();
    let errors = clone_strings(&lexer.errors);
    proof {
        assert(Seq::<TokenView>::empty() + lex_rest(source@, 0, 1).tokens =~= lex_rest(
            source@,
            0,
            1,
        ).tokens);
        assert(Seq::<Seq<char>>::empty() + lex_rest(source@, 0, 1).errors =~= lex_rest(
            source@,
            0,
            1,
        ).errors);
    }
    (tokens, errors)
}

} // verus!
