//! Character classes and small string-building helpers shared by the lexer
//! and the evaluator.

use vstd::prelude::*;

verus! {

/// A decimal digit, `'0'` through `'9'`.
pub open spec fn is_digit_char(c: char) -> bool {
    48 <= c as u32 && c as u32 <= 57
}

/// Numeric value of a decimal digit character.
pub open spec fn digit_val(c: char) -> int {
    c as u32 - 48
}

pub fn digit_check(c: char) -> (r: bool)
    ensures
        r == is_digit_char(c),
{
    let u = c as u32;
    48 <= u && u <= 57
}

/// Whether a character is alphabetic or numeric in the Unicode sense.
/// The result depends on the character alone.
pub uninterp spec fn alphanumeric(c: char) -> bool;

/// Relies on char::is_alphanumeric: whether a character is alphabetic or
/// numeric is a property of the character alone.
#[verifier::external_body]
pub fn char_is_alphanumeric(c: char) -> (r: bool)
    ensures
        r == alphanumeric(c),
{
    c.is_alphanumeric()
}

/// Characters allowed inside an identifier.
pub open spec fn is_ident_char(c: char) -> bool {
    alphanumeric(c) || c == '_' || c == ':'
}

pub fn is_identifier_allowed(c: char) -> (r: bool)
    ensures
        r == is_ident_char(c),
{
    char_is_alphanumeric(c) || c == '_' || c == ':'
}

/// Relies on String::push: appends the character at the end of the string.
#[verifier::external_body]
pub fn push_char(s: &mut String, c: char)
    ensures
        final(s)@ == old(s)@.push(c),
{
    s.push(c);
}

/// Collect the characters `v[from..to]` into an owned string.
pub fn chars_to_string(v: &Vec<char>, from: usize, to: usize) -> (s: String)
    requires
        from <= to <= v.len(),
    ensures
        s@ == v@.subrange(from as int, to as int),
{
    let mut s = String::new();
    let mut i: usize = from;
    while i < to
        invariant
            from <= i <= to <= v.len(),
            s@ == v@.subrange(from as int, i as int),
        decreases to - i,
    {
        push_char(&mut s, v[i]);
        proof {
            assert(v@.subrange(from as int, i as int).push(v@[i as int]) =~= v@.subrange(
                from as int,
                i + 1,
            ));
        }
        i = i + 1;
    }
    s
}

/// The views of a sequence of owned strings.
pub open spec fn strs_of(v: Seq<String>) -> Seq<Seq<char>> {
    v.map_values(|s: String| s@)
}

pub proof fn lemma_strs_of_push(v: Seq<String>, s: String)
    ensures
        strs_of(v.push(s)) == strs_of(v).push(s@),
        strs_of(v.push(s)) == strs_of(v) + seq![s@],
{
    assert(strs_of(v.push(s)) =~= strs_of(v).push(s@));
    assert(strs_of(v.push(s)) =~= strs_of(v) + seq![s@]);
}

/// The character standing for one decimal digit value.
pub open spec fn dec_digit(d: int) -> char {
    ((48 + d) as u8) as char
}

/// Decimal representation of a non-negative integer, most significant digit
/// first.
pub open spec fn dec_seq(n: int) -> Seq<char>
    decreases n,
{
    if n <= 9 {
        seq![dec_digit(if n < 0 { 0 } else { n })]
    } else {
        dec_seq(n / 10) + seq![dec_digit(n % 10)]
    }
}

/// Render a number in decimal, as its `dec_seq` representation.
pub fn dec_string(n: usize) -> (s: String)
    ensures
        s@ == dec_seq(n as int),
    decreases n,
{
    if n <= 9 {
        let mut s = String::new();
        let c: char = ((48 + n as u8)) as char;
        push_char(&mut s, c);
        proof {
            assert(s@ =~= dec_seq(n as int));
        }
        s
    } else {
        let mut s = dec_string(n / 10);
        let c: char = ((48 + (n % 10) as u8)) as char;
        push_char(&mut s, c);
        proof {
            assert(s@ =~= dec_seq(n as int));
        }
        s
    }
}

} // verus!
