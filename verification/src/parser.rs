//! The recursive-descent parser: consumes the token sequence and produces a
//! syntax tree, collecting syntax errors and substituting placeholder nodes
//! so that one malformed construct does not stop the parse.
//!
//! The grammar is specified by one spec function per production
//! (`p_program`, `p_block`, `p_items`, `p_cond`, `p_op`, `p_verif`,
//! `p_assign`), and each parsing method is proved to produce exactly what
//! its spec function says.

use vstd::prelude::*;
use crate::text::{dec_seq, dec_string, strs_of};
use crate::token::{num_text_value, number_value, toks_of, Token, TokenKind, TokenView};
use crate::node::{
    lemma_node_view, lemma_nodes_of_push, nodes_of, AssignKind, CmpKind, Node, NodeKind,
    NodeKindV, NodeV, OpKind,
};

verus! {

/// The token at position `i`, or a synthesized end-of-input token when the
/// position is outside the sequence.
pub open spec fn tk_at(toks: Seq<TokenView>, i: int) -> TokenView {
    if 0 <= i < toks.len() {
        toks[i]
    } else {
        TokenView { kind: TokenKind::Eof, text: Seq::empty(), line: 0 }
    }
}

/// Position after consuming the token at `i`.
pub open spec fn p_adv(toks: Seq<TokenView>, i: int) -> int {
    if 0 <= i < toks.len() {
        i + 1
    } else {
        i
    }
}

/// Whether the parse position is past the last real token.
pub open spec fn p_at_end(toks: Seq<TokenView>, i: int) -> bool {
    !(0 <= i < toks.len()) || toks[i].kind == TokenKind::Eof
}

pub open spec fn clamp_pos(j: int, lo: int, hi: int) -> int {
    if j < lo {
        lo
    } else if j > hi {
        hi
    } else {
        j
    }
}

/// Tokens left from position `i` on.
pub open spec fn p_rem(toks: Seq<TokenView>, i: int) -> int {
    if i <= toks.len() {
        toks.len() - i
    } else {
        0
    }
}

pub open spec fn invalid_token_msg(t: TokenView) -> Seq<char> {
    dec_seq(t.line) + " | Invalid token: "@ + t.text
}

/// A leaf node.
pub open spec fn leaf(k: NodeKindV) -> NodeV {
    NodeV { kind: k, children: Seq::empty() }
}

/// A string literal's content: its text without the delimiters.
pub open spec fn strip_quotes(text: Seq<char>) -> Seq<char> {
    if text.len() >= 2 {
        text.subrange(1, text.len() - 1)
    } else {
        Seq::empty()
    }
}

pub open spec fn scope_word() -> Seq<char> {
    "scope"@
}

/// What one production returns: the node, the position after it, and the
/// errors it reported, in order.
pub ghost struct PRes {
    pub node: NodeV,
    pub next: int,
    pub errs: Seq<Seq<char>>,
}

/// What a statement list returns.
pub ghost struct ItemsRes {
    pub items: Seq<NodeV>,
    pub next: int,
    pub errs: Seq<Seq<char>>,
}

/// An operand of an arithmetic operator: a nested block, a number literal,
/// or a string literal; anything else is an error and a placeholder.
pub open spec fn p_arith_operand(toks: Seq<TokenView>, i: int) -> PRes
    decreases p_rem(toks, i), 0int,
{
    let t = tk_at(toks, i);
    if t.kind == TokenKind::LeftParen {
        p_block(toks, p_adv(toks, i))
    } else if t.kind == TokenKind::Num {
        PRes {
            node: leaf(NodeKindV::Num(num_text_value(t.text))),
            next: p_adv(toks, i),
            errs: Seq::empty(),
        }
    } else if t.kind == TokenKind::StrLit {
        PRes {
            node: leaf(NodeKindV::StrLit(strip_quotes(t.text))),
            next: p_adv(toks, i),
            errs: Seq::empty(),
        }
    } else {
        PRes { node: leaf(NodeKindV::Empty), next: p_adv(toks, i), errs: seq![
            invalid_token_msg(t),
        ] }
    }
}

/// An operand of a comparison: a nested block, a literal, a boolean
/// literal, or an identifier.
pub open spec fn p_verif_operand(toks: Seq<TokenView>, i: int) -> PRes
    decreases p_rem(toks, i), 0int,
{
    let t = tk_at(toks, i);
    if t.kind == TokenKind::LeftParen {
        p_block(toks, p_adv(toks, i))
    } else if t.kind == TokenKind::Num {
        PRes {
            node: leaf(NodeKindV::Num(num_text_value(t.text))),
            next: p_adv(toks, i),
            errs: Seq::empty(),
        }
    } else if t.kind == TokenKind::StrLit {
        PRes {
            node: leaf(NodeKindV::StrLit(strip_quotes(t.text))),
            next: p_adv(toks, i),
            errs: Seq::empty(),
        }
    } else if t.kind == TokenKind::KwTrue {
        PRes { node: leaf(NodeKindV::BoolLit(true)), next: p_adv(toks, i), errs: Seq::empty() }
    } else if t.kind == TokenKind::KwFalse {
        PRes { node: leaf(NodeKindV::BoolLit(false)), next: p_adv(toks, i), errs: Seq::empty() }
    } else if t.kind == TokenKind::Ident {
        PRes { node: leaf(NodeKindV::Ident(t.text)), next: p_adv(toks, i), errs: Seq::empty() }
    } else {
        PRes { node: leaf(NodeKindV::Empty), next: p_adv(toks, i), errs: seq![
            invalid_token_msg(t),
        ] }
    }
}

/// A parenthesized sub-block: expected to start with `(`; a missing one is
/// a placeholder, reported as an error where the block is mandatory.
pub open spec fn p_paren_block(toks: Seq<TokenView>, i: int, report: bool) -> PRes
    decreases p_rem(toks, i), 0int,
{
    let t = tk_at(toks, i);
    if t.kind == TokenKind::LeftParen {
        let b = p_block(toks, p_adv(toks, i));
        PRes {
            node: b.node,
            next: clamp_pos(b.next, p_adv(toks, i), toks.len() as int),
            errs: b.errs,
        }
    } else if report {
        PRes { node: leaf(NodeKindV::Empty), next: i, errs: seq![invalid_token_msg(t)] }
    } else {
        PRes { node: leaf(NodeKindV::Empty), next: i, errs: Seq::empty() }
    }
}

/// A binary arithmetic operation: exactly two operands.
pub open spec fn p_op(toks: Seq<TokenView>, i: int, op: OpKind) -> PRes
    decreases p_rem(toks, i), 1int,
{
    let r1 = p_arith_operand(toks, i);
    let j1 = clamp_pos(r1.next, i, toks.len() as int);
    let r2 = p_arith_operand(toks, j1);
    PRes {
        node: NodeV { kind: NodeKindV::Oper(op), children: seq![r1.node, r2.node] },
        next: r2.next,
        errs: r1.errs + r2.errs,
    }
}

/// A comparison or logical operation: exactly two operands.
pub open spec fn p_verif(toks: Seq<TokenView>, i: int, cmp: CmpKind) -> PRes
    decreases p_rem(toks, i), 1int,
{
    let r1 = p_verif_operand(toks, i);
    let j1 = clamp_pos(r1.next, i, toks.len() as int);
    let r2 = p_verif_operand(toks, j1);
    PRes {
        node: NodeV { kind: NodeKindV::Compare(cmp), children: seq![r1.node, r2.node] },
        next: r2.next,
        errs: r1.errs + r2.errs,
    }
}

/// A conditional: a mandatory condition block, a mandatory then-block, and
/// an optional else-block, each wrapped in parentheses; a missing else is a
/// placeholder and no error.
pub open spec fn p_cond(toks: Seq<TokenView>, i: int) -> PRes
    decreases p_rem(toks, i), 1int,
{
    let len = toks.len() as int;
    let c = p_paren_block(toks, i, true);
    let j1 = clamp_pos(c.next, i, len);
    let t = p_paren_block(toks, j1, true);
    let j2 = clamp_pos(t.next, j1, len);
    let e = p_paren_block(toks, j2, false);
    PRes {
        node: NodeV { kind: NodeKindV::Cond, children: seq![c.node, t.node, e.node] },
        next: e.next,
        errs: c.errs + t.errs + e.errs,
    }
}

/// A declaration or reassignment: an identifier naming the target, then a
/// literal, identifier, arithmetic expression or nested block for the
/// value. A malformed target or value yields a placeholder at once.
pub open spec fn p_assign(toks: Seq<TokenView>, i: int, kind: AssignKind) -> PRes
    decreases p_rem(toks, i), 1int,
{
    let t = tk_at(toks, i);
    if t.kind != TokenKind::Ident {
        PRes { node: leaf(NodeKindV::Empty), next: p_adv(toks, i), errs: seq![
            invalid_token_msg(t),
        ] }
    } else {
        let name = leaf(NodeKindV::Ident(t.text));
        let vt = tk_at(toks, p_adv(toks, i));
        let vi = p_adv(toks, p_adv(toks, i));
        let value: PRes = if vt.kind == TokenKind::Num {
            PRes {
                node: leaf(NodeKindV::Num(num_text_value(vt.text))),
                next: vi,
                errs: Seq::empty(),
            }
        } else if vt.kind == TokenKind::StrLit {
            PRes {
                node: leaf(NodeKindV::StrLit(strip_quotes(vt.text))),
                next: vi,
                errs: Seq::empty(),
            }
        } else if vt.kind == TokenKind::Ident {
            PRes { node: leaf(NodeKindV::Ident(vt.text)), next: vi, errs: Seq::empty() }
        } else if vt.kind == TokenKind::KwTrue {
            PRes { node: leaf(NodeKindV::BoolLit(true)), next: vi, errs: Seq::empty() }
        } else if vt.kind == TokenKind::KwFalse {
            PRes { node: leaf(NodeKindV::BoolLit(false)), next: vi, errs: Seq::empty() }
        } else if vt.kind == TokenKind::Plus {
            p_op(toks, vi, OpKind::Plus)
        } else if vt.kind == TokenKind::Minus {
            p_op(toks, vi, OpKind::Minus)
        } else if vt.kind == TokenKind::Star {
            p_op(toks, vi, OpKind::Times)
        } else if vt.kind == TokenKind::Slash {
            p_op(toks, vi, OpKind::Div)
        } else if vt.kind == TokenKind::LeftParen {
            p_block(toks, vi)
        } else {
            PRes { node: leaf(NodeKindV::Empty), next: vi, errs: seq![invalid_token_msg(vt)] }
        };
        if vt.kind == TokenKind::Plus || vt.kind == TokenKind::Minus || vt.kind
            == TokenKind::Star || vt.kind == TokenKind::Slash || vt.kind == TokenKind::LeftParen
            || vt.kind == TokenKind::Num || vt.kind == TokenKind::StrLit || vt.kind
            == TokenKind::Ident || vt.kind == TokenKind::KwTrue || vt.kind == TokenKind::KwFalse {
            PRes {
                node: NodeV { kind: NodeKindV::Assign(kind), children: seq![name, value.node] },
                next: value.next,
                errs: value.errs,
            }
        } else {
            value
        }
    }
}

/// One statement of a block: the leading token dispatches to its
/// production; an unexpected one is reported and replaced by a placeholder.
pub open spec fn p_item(toks: Seq<TokenView>, i: int) -> PRes
    decreases p_rem(toks, i), 2int,
{
    let t = tk_at(toks, i);
    let j = p_adv(toks, i);
    if t.kind == TokenKind::KwIf {
        p_cond(toks, j)
    } else if t.kind == TokenKind::LeftParen {
        p_block(toks, j)
    } else if t.kind == TokenKind::KwLet {
        p_assign(toks, j, AssignKind::Declare)
    } else if t.kind == TokenKind::KwConst {
        p_assign(toks, j, AssignKind::DeclareConst)
    } else if t.kind == TokenKind::KwSet {
        p_assign(toks, j, AssignKind::Reassign)
    } else if t.kind == TokenKind::Plus {
        p_op(toks, j, OpKind::Plus)
    } else if t.kind == TokenKind::Minus {
        p_op(toks, j, OpKind::Minus)
    } else if t.kind == TokenKind::Star {
        p_op(toks, j, OpKind::Times)
    } else if t.kind == TokenKind::Slash {
        p_op(toks, j, OpKind::Div)
    } else if t.kind == TokenKind::Less {
        p_verif(toks, j, CmpKind::Less)
    } else if t.kind == TokenKind::LessEqual {
        p_verif(toks, j, CmpKind::LessEqual)
    } else if t.kind == TokenKind::Greater {
        p_verif(toks, j, CmpKind::Greater)
    } else if t.kind == TokenKind::GreaterEqual {
        p_verif(toks, j, CmpKind::GreaterEqual)
    } else if t.kind == TokenKind::Equal {
        p_verif(toks, j, CmpKind::Equal)
    } else if t.kind == TokenKind::Tilde {
        p_verif(toks, j, CmpKind::NotEqual)
    } else if t.kind == TokenKind::KwAnd {
        p_verif(toks, j, CmpKind::And)
    } else if t.kind == TokenKind::KwOr {
        p_verif(toks, j, CmpKind::Or)
    } else if t.kind == TokenKind::Ident {
        PRes { node: leaf(NodeKindV::Ident(t.text)), next: j, errs: Seq::empty() }
    } else {
        PRes { node: leaf(NodeKindV::Empty), next: j, errs: seq![invalid_token_msg(t)] }
    }
}

/// The statements of one block, up to its closing parenthesis or the end of
/// input.
pub open spec fn p_items(toks: Seq<TokenView>, i: int) -> ItemsRes
    decreases p_rem(toks, i), 3int,
{
    let len = toks.len() as int;
    if p_at_end(toks, i) {
        ItemsRes { items: Seq::empty(), next: i, errs: Seq::empty() }
    } else if toks[i].kind == TokenKind::RightParen {
        ItemsRes { items: Seq::empty(), next: i + 1, errs: Seq::empty() }
    } else {
        let c = p_item(toks, i);
        let j = clamp_pos(c.next, i + 1, len);
        let rest = p_items(toks, j);
        ItemsRes {
            items: seq![c.node] + rest.items,
            next: rest.next,
            errs: c.errs + rest.errs,
        }
    }
}

/// A block's contents. A block whose first token is the identifier `scope`
/// is an explicit lexical scope holding the remaining statements; any other
/// block is lexically transparent.
pub open spec fn p_block(toks: Seq<TokenView>, i: int) -> PRes
    decreases p_rem(toks, i), 4int,
{
    let t = tk_at(toks, i);
    if t.kind == TokenKind::Ident && t.text == scope_word() {
        let r = p_items(toks, p_adv(toks, i));
        PRes { node: NodeV { kind: NodeKindV::Scope, children: r.items }, next: r.next, errs:
            r.errs }
    } else {
        let r = p_items(toks, i);
        PRes { node: NodeV { kind: NodeKindV::Block, children: r.items }, next: r.next, errs:
            r.errs }
    }
}

/// The whole program: a sequence of parenthesized top-level blocks. Any
/// other token at top level is a syntax error and contributes no node.
pub open spec fn p_program(toks: Seq<TokenView>, i: int) -> ItemsRes
    decreases p_rem(toks, i), 5int,
{
    let len = toks.len() as int;
    if p_at_end(toks, i) {
        ItemsRes { items: Seq::empty(), next: i, errs: Seq::empty() }
    } else {
        let t = toks[i];
        if t.kind == TokenKind::LeftParen {
            let b = p_block(toks, i + 1);
            let j = clamp_pos(b.next, i + 1, len);
            let rest = p_program(toks, j);
            ItemsRes {
                items: seq![b.node] + rest.items,
                next: rest.next,
                errs: b.errs + rest.errs,
            }
        } else {
            let rest = p_program(toks, i + 1);
            ItemsRes { items: rest.items, next: rest.next, errs: seq![invalid_token_msg(t)]
                + rest.errs }
        }
    }
}

/// Whether the grammar accepts one production starting at `i`, and the
/// position after it. These predicates state the grammar on their own; the
/// law below proves that the parser reports no error on anything they
/// accept.
pub ghost struct GRes {
    pub ok: bool,
    pub next: int,
}

pub open spec fn g_arith_operand(toks: Seq<TokenView>, i: int) -> GRes
    decreases p_rem(toks, i), 0int,
{
    let t = tk_at(toks, i);
    if t.kind == TokenKind::LeftParen {
        g_block(toks, p_adv(toks, i))
    } else if t.kind == TokenKind::Num || t.kind == TokenKind::StrLit {
        GRes { ok: true, next: p_adv(toks, i) }
    } else {
        GRes { ok: false, next: p_adv(toks, i) }
    }
}

pub open spec fn g_verif_operand(toks: Seq<TokenView>, i: int) -> GRes
    decreases p_rem(toks, i), 0int,
{
    let t = tk_at(toks, i);
    if t.kind == TokenKind::LeftParen {
        g_block(toks, p_adv(toks, i))
    } else if t.kind == TokenKind::Num || t.kind == TokenKind::StrLit || t.kind
        == TokenKind::KwTrue || t.kind == TokenKind::KwFalse || t.kind == TokenKind::Ident {
        GRes { ok: true, next: p_adv(toks, i) }
    } else {
        GRes { ok: false, next: p_adv(toks, i) }
    }
}

pub open spec fn g_paren(toks: Seq<TokenView>, i: int) -> GRes
    decreases p_rem(toks, i), 0int,
{
    let t = tk_at(toks, i);
    if t.kind == TokenKind::LeftParen {
        let b = g_block(toks, p_adv(toks, i));
        GRes { ok: b.ok, next: clamp_pos(b.next, p_adv(toks, i), toks.len() as int) }
    } else {
        GRes { ok: false, next: i }
    }
}

pub open spec fn g_paren_opt(toks: Seq<TokenView>, i: int) -> GRes
    decreases p_rem(toks, i), 0int,
{
    let t = tk_at(toks, i);
    if t.kind == TokenKind::LeftParen {
        let b = g_block(toks, p_adv(toks, i));
        GRes { ok: b.ok, next: clamp_pos(b.next, p_adv(toks, i), toks.len() as int) }
    } else {
        GRes { ok: true, next: i }
    }
}

pub open spec fn g_op(toks: Seq<TokenView>, i: int) -> GRes
    decreases p_rem(toks, i), 1int,
{
    let r1 = g_arith_operand(toks, i);
    let j1 = clamp_pos(r1.next, i, toks.len() as int);
    let r2 = g_arith_operand(toks, j1);
    GRes { ok: r1.ok && r2.ok, next: r2.next }
}

pub open spec fn g_verif(toks: Seq<TokenView>, i: int) -> GRes
    decreases p_rem(toks, i), 1int,
{
    let r1 = g_verif_operand(toks, i);
    let j1 = clamp_pos(r1.next, i, toks.len() as int);
    let r2 = g_verif_operand(toks, j1);
    GRes { ok: r1.ok && r2.ok, next: r2.next }
}

pub open spec fn g_cond(toks: Seq<TokenView>, i: int) -> GRes
    decreases p_rem(toks, i), 1int,
{
    let len = toks.len() as int;
    let c = g_paren(toks, i);
    let j1 = clamp_pos(c.next, i, len);
    let t = g_paren(toks, j1);
    let j2 = clamp_pos(t.next, j1, len);
    let e = g_paren_opt(toks, j2);
    GRes { ok: c.ok && t.ok && e.ok, next: e.next }
}

pub open spec fn g_assign(toks: Seq<TokenView>, i: int) -> GRes
    decreases p_rem(toks, i), 1int,
{
    let t = tk_at(toks, i);
    if t.kind != TokenKind::Ident {
        GRes { ok: false, next: p_adv(toks, i) }
    } else {
        let vt = tk_at(toks, p_adv(toks, i));
        let vi = p_adv(toks, p_adv(toks, i));
        if vt.kind == TokenKind::Num || vt.kind == TokenKind::StrLit || vt.kind
            == TokenKind::Ident || vt.kind == TokenKind::KwTrue || vt.kind == TokenKind::KwFalse {
            GRes { ok: true, next: vi }
        } else if vt.kind == TokenKind::Plus || vt.kind == TokenKind::Minus || vt.kind
            == TokenKind::Star || vt.kind == TokenKind::Slash {
            g_op(toks, vi)
        } else if vt.kind == TokenKind::LeftParen {
            g_block(toks, vi)
        } else {
            GRes { ok: false, next: vi }
        }
    }
}

pub open spec fn g_item(toks: Seq<TokenView>, i: int) -> GRes
    decreases p_rem(toks, i), 2int,
{
    let t = tk_at(toks, i);
    let j = p_adv(toks, i);
    if t.kind == TokenKind::KwIf {
        g_cond(toks, j)
    } else if t.kind == TokenKind::LeftParen {
        g_block(toks, j)
    } else if t.kind == TokenKind::KwLet || t.kind == TokenKind::KwConst || t.kind
        == TokenKind::KwSet {
        g_assign(toks, j)
    } else if t.kind == TokenKind::Plus || t.kind == TokenKind::Minus || t.kind
        == TokenKind::Star || t.kind == TokenKind::Slash {
        g_op(toks, j)
    } else if t.kind == TokenKind::Less || t.kind == TokenKind::LessEqual || t.kind
        == TokenKind::Greater || t.kind == TokenKind::GreaterEqual || t.kind == TokenKind::Equal
        || t.kind == TokenKind::Tilde || t.kind == TokenKind::KwAnd || t.kind == TokenKind::KwOr {
        g_verif(toks, j)
    } else if t.kind == TokenKind::Ident {
        GRes { ok: true, next: j }
    } else {
        GRes { ok: false, next: j }
    }
}

pub open spec fn g_items(toks: Seq<TokenView>, i: int) -> GRes
    decreases p_rem(toks, i), 3int,
{
    let len = toks.len() as int;
    if p_at_end(toks, i) {
        GRes { ok: true, next: i }
    } else if toks[i].kind == TokenKind::RightParen {
        GRes { ok: true, next: i + 1 }
    } else {
        let c = g_item(toks, i);
        let j = clamp_pos(c.next, i + 1, len);
        let rest = g_items(toks, j);
        GRes { ok: c.ok && rest.ok, next: rest.next }
    }
}

pub open spec fn g_block(toks: Seq<TokenView>, i: int) -> GRes
    decreases p_rem(toks, i), 4int,
{
    let t = tk_at(toks, i);
    if t.kind == TokenKind::Ident && t.text == scope_word() {
        g_items(toks, p_adv(toks, i))
    } else {
        g_items(toks, i)
    }
}

pub open spec fn g_program(toks: Seq<TokenView>, i: int) -> GRes
    decreases p_rem(toks, i), 5int,
{
    let len = toks.len() as int;
    if p_at_end(toks, i) {
        GRes { ok: true, next: i }
    } else if toks[i].kind == TokenKind::LeftParen {
        let b = g_block(toks, i + 1);
        let j = clamp_pos(b.next, i + 1, len);
        let rest = g_program(toks, j);
        GRes { ok: b.ok && rest.ok, next: rest.next }
    } else {
        let rest = g_program(toks, i + 1);
        GRes { ok: false, next: rest.next }
    }
}

pub proof fn lemma_g_arith_operand(toks: Seq<TokenView>, i: int)
    ensures
        g_arith_operand(toks, i).ok ==> p_arith_operand(toks, i).errs == Seq::<Seq<char>>::empty()
            && p_arith_operand(toks, i).next == g_arith_operand(toks, i).next,
    decreases p_rem(toks, i), 0int,
{
    let t = tk_at(toks, i);
    if t.kind == TokenKind::LeftParen {
        lemma_g_block(toks, p_adv(toks, i));
    }
}

pub proof fn lemma_g_verif_operand(toks: Seq<TokenView>, i: int)
    ensures
        g_verif_operand(toks, i).ok ==> p_verif_operand(toks, i).errs == Seq::<Seq<char>>::empty()
            && p_verif_operand(toks, i).next == g_verif_operand(toks, i).next,
    decreases p_rem(toks, i), 0int,
{
    let t = tk_at(toks, i);
    if t.kind == TokenKind::LeftParen {
        lemma_g_block(toks, p_adv(toks, i));
    }
}

pub proof fn lemma_g_paren(toks: Seq<TokenView>, i: int, report: bool)
    ensures
        g_paren(toks, i).ok ==> p_paren_block(toks, i, report).errs == Seq::<Seq<char>>::empty()
            && p_paren_block(toks, i, report).next == g_paren(toks, i).next,
    decreases p_rem(toks, i), 0int,
{
    let t = tk_at(toks, i);
    if t.kind == TokenKind::LeftParen {
        lemma_g_block(toks, p_adv(toks, i));
    }
}

pub proof fn lemma_g_paren_opt(toks: Seq<TokenView>, i: int)
    ensures
        g_paren_opt(toks, i).ok ==> p_paren_block(toks, i, false).errs == Seq::<
            Seq<char>,
        >::empty() && p_paren_block(toks, i, false).next == g_paren_opt(toks, i).next,
    decreases p_rem(toks, i), 0int,
{
    let t = tk_at(toks, i);
    if t.kind == TokenKind::LeftParen {
        lemma_g_block(toks, p_adv(toks, i));
    }
}

pub proof fn lemma_g_op(toks: Seq<TokenView>, i: int, op: OpKind)
    ensures
        g_op(toks, i).ok ==> p_op(toks, i, op).errs == Seq::<Seq<char>>::empty() && p_op(
            toks,
            i,
            op,
        ).next == g_op(toks, i).next,
    decreases p_rem(toks, i), 1int,
{
    lemma_g_arith_operand(toks, i);
    let r1 = g_arith_operand(toks, i);
    let j1 = clamp_pos(r1.next, i, toks.len() as int);
    lemma_g_arith_operand(toks, j1);
    if g_op(toks, i).ok {
        assert(p_arith_operand(toks, i).errs + p_arith_operand(toks, j1).errs =~= Seq::<
            Seq<char>,
        >::empty());
    }
}

pub proof fn lemma_g_verif(toks: Seq<TokenView>, i: int, cmp: CmpKind)
    ensures
        g_verif(toks, i).ok ==> p_verif(toks, i, cmp).errs == Seq::<Seq<char>>::empty()
            && p_verif(toks, i, cmp).next == g_verif(toks, i).next,
    decreases p_rem(toks, i), 1int,
{
    lemma_g_verif_operand(toks, i);
    let r1 = g_verif_operand(toks, i);
    let j1 = clamp_pos(r1.next, i, toks.len() as int);
    lemma_g_verif_operand(toks, j1);
    if g_verif(toks, i).ok {
        assert(p_verif_operand(toks, i).errs + p_verif_operand(toks, j1).errs =~= Seq::<
            Seq<char>,
        >::empty());
    }
}

pub proof fn lemma_g_cond(toks: Seq<TokenView>, i: int)
    ensures
        g_cond(toks, i).ok ==> p_cond(toks, i).errs == Seq::<Seq<char>>::empty() && p_cond(
            toks,
            i,
        ).next == g_cond(toks, i).next,
    decreases p_rem(toks, i), 1int,
{
    let len = toks.len() as int;
    lemma_g_paren(toks, i, true);
    let c = g_paren(toks, i);
    let j1 = clamp_pos(c.next, i, len);
    lemma_g_paren(toks, j1, true);
    let t = g_paren(toks, j1);
    let j2 = clamp_pos(t.next, j1, len);
    lemma_g_paren_opt(toks, j2);
    if g_cond(toks, i).ok {
        assert(p_paren_block(toks, i, true).errs + p_paren_block(toks, j1, true).errs
            + p_paren_block(toks, j2, false).errs =~= Seq::<Seq<char>>::empty());
    }
}

pub proof fn lemma_g_assign(toks: Seq<TokenView>, i: int, kind: AssignKind)
    ensures
        g_assign(toks, i).ok ==> p_assign(toks, i, kind).errs == Seq::<Seq<char>>::empty()
            && p_assign(toks, i, kind).next == g_assign(toks, i).next,
    decreases p_rem(toks, i), 1int,
{
    let t = tk_at(toks, i);
    if t.kind == TokenKind::Ident {
        let vt = tk_at(toks, p_adv(toks, i));
        let vi = p_adv(toks, p_adv(toks, i));
        if vt.kind == TokenKind::Plus {
            lemma_g_op(toks, vi, OpKind::Plus);
        } else if vt.kind == TokenKind::Minus {
            lemma_g_op(toks, vi, OpKind::Minus);
        } else if vt.kind == TokenKind::Star {
            lemma_g_op(toks, vi, OpKind::Times);
        } else if vt.kind == TokenKind::Slash {
            lemma_g_op(toks, vi, OpKind::Div);
        } else if vt.kind == TokenKind::LeftParen {
            lemma_g_block(toks, vi);
        }
    }
}

pub proof fn lemma_g_item(toks: Seq<TokenView>, i: int)
    ensures
        g_item(toks, i).ok ==> p_item(toks, i).errs == Seq::<Seq<char>>::empty() && p_item(
            toks,
            i,
        ).next == g_item(toks, i).next,
    decreases p_rem(toks, i), 2int,
{
    let t = tk_at(toks, i);
    let j = p_adv(toks, i);
    if t.kind == TokenKind::KwIf {
        lemma_g_cond(toks, j);
    } else if t.kind == TokenKind::LeftParen {
        lemma_g_block(toks, j);
    } else if t.kind == TokenKind::KwLet {
        lemma_g_assign(toks, j, AssignKind::Declare);
    } else if t.kind == TokenKind::KwConst {
        lemma_g_assign(toks, j, AssignKind::DeclareConst);
    } else if t.kind == TokenKind::KwSet {
        lemma_g_assign(toks, j, AssignKind::Reassign);
    } else if t.kind == TokenKind::Plus {
        lemma_g_op(toks, j, OpKind::Plus);
    } else if t.kind == TokenKind::Minus {
        lemma_g_op(toks, j, OpKind::Minus);
    } else if t.kind == TokenKind::Star {
        lemma_g_op(toks, j, OpKind::Times);
    } else if t.kind == TokenKind::Slash {
        lemma_g_op(toks, j, OpKind::Div);
    } else if t.kind == TokenKind::Less {
        lemma_g_verif(toks, j, CmpKind::Less);
    } else if t.kind == TokenKind::LessEqual {
        lemma_g_verif(toks, j, CmpKind::LessEqual);
    } else if t.kind == TokenKind::Greater {
        lemma_g_verif(toks, j, CmpKind::Greater);
    } else if t.kind == TokenKind::GreaterEqual {
        lemma_g_verif(toks, j, CmpKind::GreaterEqual);
    } else if t.kind == TokenKind::Equal {
        lemma_g_verif(toks, j, CmpKind::Equal);
    } else if t.kind == TokenKind::Tilde {
        lemma_g_verif(toks, j, CmpKind::NotEqual);
    } else if t.kind == TokenKind::KwAnd {
        lemma_g_verif(toks, j, CmpKind::And);
    } else if t.kind == TokenKind::KwOr {
        lemma_g_verif(toks, j, CmpKind::Or);
    }
}

pub proof fn lemma_g_items(toks: Seq<TokenView>, i: int)
    ensures
        g_items(toks, i).ok ==> p_items(toks, i).errs == Seq::<Seq<char>>::empty() && p_items(
            toks,
            i,
        ).next == g_items(toks, i).next,
    decreases p_rem(toks, i), 3int,
{
    let len = toks.len() as int;
    if !p_at_end(toks, i) && toks[i].kind != TokenKind::RightParen {
        lemma_g_item(toks, i);
        let c = g_item(toks, i);
        let j = clamp_pos(c.next, i + 1, len);
        lemma_g_items(toks, j);
        if g_items(toks, i).ok {
            assert(p_item(toks, i).errs + p_items(toks, j).errs =~= Seq::<Seq<char>>::empty());
        }
    }
}

pub proof fn lemma_g_block(toks: Seq<TokenView>, i: int)
    ensures
        g_block(toks, i).ok ==> p_block(toks, i).errs == Seq::<Seq<char>>::empty() && p_block(
            toks,
            i,
        ).next == g_block(toks, i).next,
    decreases p_rem(toks, i), 4int,
{
    let t = tk_at(toks, i);
    if t.kind == TokenKind::Ident && t.text == scope_word() {
        lemma_g_items(toks, p_adv(toks, i));
    } else {
        lemma_g_items(toks, i);
    }
}

/// Law: the parser accepts every program of the grammar: on a token
/// sequence that the grammar predicates accept, parsing reports no syntax
/// error.
pub proof fn lemma_grammar_accepted_parses_cleanly(toks: Seq<TokenView>, i: int)
    ensures
        g_program(toks, i).ok ==> p_program(toks, i).errs == Seq::<Seq<char>>::empty(),
    decreases p_rem(toks, i), 5int,
{
    let len = toks.len() as int;
    if !p_at_end(toks, i) && toks[i].kind == TokenKind::LeftParen {
        lemma_g_block(toks, i + 1);
        let b = g_block(toks, i + 1);
        let j = clamp_pos(b.next, i + 1, len);
        lemma_grammar_accepted_parses_cleanly(toks, j);
        if g_program(toks, i).ok {
            assert(p_block(toks, i + 1).errs + p_program(toks, j).errs =~= Seq::<
                Seq<char>,
            >::empty());
        }
    }
}

/// A string literal token's content: its text without the delimiters.
pub fn string_content(text: &String) -> (r: String)
    ensures
        r@ == strip_quotes(text@),
{
    let s = text.as_str();
    let n = s.unicode_len();
    if n >= 2 {
        s.substring_char(1, n - 1).to_owned()
    } else {
        String::new()
    }
}

pub struct Parser {
    pub tokens: Vec<Token>,
    pub current: usize,
    pub had_error: bool,
    pub errors: Vec<String>,
}

impl Parser {
    pub open spec fn wf(self) -> bool {
        self.current <= self.tokens@.len()
    }

    /// The views of the parser's tokens.
    pub open spec fn toks(self) -> Seq<TokenView> {
        toks_of(self.tokens@)
    }

    /// A parser positioned at the first of the given tokens.
    pub fn new(tokens: Vec<Token>) -> (p: Parser)
        ensures
            p.tokens == tokens,
            p.current == 0,
            p.had_error == false,
            p.errors@.len() == 0,
            p.wf(),
    {
        Parser { tokens, current: 0, had_error: false, errors: Vec::new() }
    }

    /// Consume and return the next token; at the end, a synthesized
    /// end-of-input token, consuming nothing.
    fn advance(&mut self) -> (t: Token)
        requires
            old(self).wf(),
        ensures
            final(self).wf(),
            final(self).tokens == old(self).tokens,
            final(self).errors == old(self).errors,
            final(self).had_error == old(self).had_error,
            t@ == tk_at(old(self).toks(), old(self).current as int),
            final(self).current as int == p_adv(old(self).toks(), old(self).current as int),
    {
        if self.current < self.tokens.len() {
            let t = self.tokens[self.current].clone();
            self.current = self.current + 1;
            t
        } else {
            Token::new(TokenKind::Eof, String::new(), 0)
        }
    }

    /// The next token without consuming it; at the end, a synthesized
    /// end-of-input token.
    fn peek_token(&self) -> (t: Token)
        requires
            self.wf(),
        ensures
            t@ == tk_at(self.toks(), self.current as int),
    {
        if self.current < self.tokens.len() {
            self.tokens[self.current].clone()
        } else {
            Token::new(TokenKind::Eof, String::new(), 0)
        }
    }

    fn is_at_end(&self) -> (r: bool)
        requires
            self.wf(),
        ensures
            r == p_at_end(self.toks(), self.current as int),
    {
        self.current >= self.tokens.len() || self.tokens[self.current].kind == TokenKind::Eof
    }

    /// Record a syntax error for an unexpected token.
    fn push_error(&mut self, t: &Token)
        requires
            old(self).wf(),
        ensures
            final(self).wf(),
            final(self).tokens == old(self).tokens,
            final(self).current == old(self).current,
            strs_of(final(self).errors@) == strs_of(old(self).errors@) + seq![
                invalid_token_msg(t@),
            ],
            final(self).had_error == true,
    {
        let mut msg = dec_string(t.line);
        msg.append(" | Invalid token: ");
        msg.append(t.text.as_str());
        self.had_error = true;
        proof {
            assert(msg@ =~= invalid_token_msg(t@));
            crate::text::lemma_strs_of_push(self.errors@, msg);
        }
        self.errors.push(msg);
    }

    /// Parse one operand of an arithmetic operation.
    fn parse_arith_operand(&mut self) -> (n: Node)
        requires
            old(self).wf(),
        ensures
            final(self).wf(),
            final(self).tokens == old(self).tokens,
            old(self).current <= final(self).current,
            ({
                let r = p_arith_operand(old(self).toks(), old(self).current as int);
                &&& n@ == r.node
                &&& final(self).current as int == r.next
                &&& strs_of(final(self).errors@) == strs_of(old(self).errors@) + r.errs
                &&& final(self).had_error == (old(self).had_error || r.errs.len() > 0)
            }),
        decreases old(self).tokens@.len() - old(self).current, 0int,
    {
        let t = self.advance();
        let n: Node = match t.kind {
            TokenKind::LeftParen => self.parse_block(),
            TokenKind::Num => Node::new(NodeKind::Num(number_value(&t.text))),
            TokenKind::StrLit => Node::new(NodeKind::StrLit(string_content(&t.text))),
            _ => {
                self.push_error(&t);
                Node::new(NodeKind::Empty)
            },
        };
        proof {
            assert(strs_of(self.errors@) + Seq::<Seq<char>>::empty() =~= strs_of(self.errors@));
            assert(strs_of(old(self).errors@) + Seq::<Seq<char>>::empty() =~= strs_of(
                old(self).errors@,
            ));
        }
        n
    }

    /// Parse one operand of a comparison.
    fn parse_verif_operand(&mut self) -> (n: Node)
        requires
            old(self).wf(),
        ensures
            final(self).wf(),
            final(self).tokens == old(self).tokens,
            old(self).current <= final(self).current,
            ({
                let r = p_verif_operand(old(self).toks(), old(self).current as int);
                &&& n@ == r.node
                &&& final(self).current as int == r.next
                &&& strs_of(final(self).errors@) == strs_of(old(self).errors@) + r.errs
                &&& final(self).had_error == (old(self).had_error || r.errs.len() > 0)
            }),
        decreases old(self).tokens@.len() - old(self).current, 0int,
    {
        let t = self.advance();
        let n: Node = match t.kind {
            TokenKind::LeftParen => self.parse_block(),
            TokenKind::Num => Node::new(NodeKind::Num(number_value(&t.text))),
            TokenKind::StrLit => Node::new(NodeKind::StrLit(string_content(&t.text))),
            TokenKind::KwTrue => Node::new(NodeKind::BoolLit(true)),
            TokenKind::KwFalse => Node::new(NodeKind::BoolLit(false)),
            TokenKind::Ident => Node::new(NodeKind::Ident(t.text)),
            _ => {
                self.push_error(&t);
                Node::new(NodeKind::Empty)
            },
        };
        proof {
            assert(strs_of(self.errors@) + Seq::<Seq<char>>::empty() =~= strs_of(self.errors@));
            assert(strs_of(old(self).errors@) + Seq::<Seq<char>>::empty() =~= strs_of(
                old(self).errors@,
            ));
        }
        n
    }

    /// Parse a binary arithmetic operation: exactly two operands.
    #[verifier::rlimit(60)]
    fn parse_op(&mut self, op: OpKind) -> (n: Node)
        requires
            old(self).wf(),
        ensures
            final(self).wf(),
            final(self).tokens == old(self).tokens,
            old(self).current <= final(self).current,
            ({
                let r = p_op(old(self).toks(), old(self).current as int, op);
                &&& n@ == r.node
                &&& final(self).current as int == r.next
                &&& strs_of(final(self).errors@) == strs_of(old(self).errors@) + r.errs
                &&& final(self).had_error == (old(self).had_error || r.errs.len() > 0)
            }),
        decreases old(self).tokens@.len() - old(self).current, 1int,
    {
        let ghost r1 = p_arith_operand(self.toks(), self.current as int);
        let first = self.parse_arith_operand();
        let ghost r2 = p_arith_operand(self.toks(), self.current as int);
        let second = self.parse_arith_operand();
        let mut master = Node::new(NodeKind::Oper(op));
        master.add_children(first);
        master.add_children(second);
        proof {
            assert(master@.children =~= seq![r1.node, r2.node]);
            assert((strs_of(old(self).errors@) + r1.errs) + r2.errs =~= strs_of(
                old(self).errors@,
            ) + (r1.errs + r2.errs));
        }
        master
    }

    /// Parse a comparison or logical operation: exactly two operands.
    #[verifier::rlimit(60)]
    fn parse_verif(&mut self, cmp: CmpKind) -> (n: Node)
        requires
            old(self).wf(),
        ensures
            final(self).wf(),
            final(self).tokens == old(self).tokens,
            old(self).current <= final(self).current,
            ({
                let r = p_verif(old(self).toks(), old(self).current as int, cmp);
                &&& n@ == r.node
                &&& final(self).current as int == r.next
                &&& strs_of(final(self).errors@) == strs_of(old(self).errors@) + r.errs
                &&& final(self).had_error == (old(self).had_error || r.errs.len() > 0)
            }),
        decreases old(self).tokens@.len() - old(self).current, 1int,
    {
        let ghost r1 = p_verif_operand(self.toks(), self.current as int);
        let first = self.parse_verif_operand();
        let ghost r2 = p_verif_operand(self.toks(), self.current as int);
        let second = self.parse_verif_operand();
        let mut master = Node::new(NodeKind::Compare(cmp));
        master.add_children(first);
        master.add_children(second);
        proof {
            assert(master@.children =~= seq![r1.node, r2.node]);
            assert((strs_of(old(self).errors@) + r1.errs) + r2.errs =~= strs_of(
                old(self).errors@,
            ) + (r1.errs + r2.errs));
        }
        master
    }

    /// Parse a parenthesized sub-block; where it is missing, produce a
    /// placeholder, reported as an error if `report` asks for one.
    fn parse_paren_block(&mut self, report: bool) -> (n: Node)
        requires
            old(self).wf(),
        ensures
            final(self).wf(),
            final(self).tokens == old(self).tokens,
            old(self).current <= final(self).current,
            ({
                let r = p_paren_block(old(self).toks(), old(self).current as int, report);
                &&& n@ == r.node
                &&& final(self).current as int == r.next
                &&& strs_of(final(self).errors@) == strs_of(old(self).errors@) + r.errs
                &&& final(self).had_error == (old(self).had_error || r.errs.len() > 0)
            }),
        decreases old(self).tokens@.len() - old(self).current, 0int,
    {
        let t = self.peek_token();
        let n: Node = if t.kind == TokenKind::LeftParen {
            let _len: usize = self.tokens.len();
            proof {
                assert(self.toks().len() == self.tokens@.len());
                if self.current >= self.tokens@.len() {
                    assert(tk_at(self.toks(), self.current as int).kind == TokenKind::Eof);
                }
            }
            self.current = self.current + 1;
            self.parse_block()
        } else if report {
            self.push_error(&t);
            Node::new(NodeKind::Empty)
        } else {
            Node::new(NodeKind::Empty)
        };
        proof {
            assert(strs_of(self.errors@) + Seq::<Seq<char>>::empty() =~= strs_of(self.errors@));
            assert(strs_of(old(self).errors@) + Seq::<Seq<char>>::empty() =~= strs_of(
                old(self).errors@,
            ));
        }
        n
    }

    /// Parse a conditional: condition block, mandatory then-block, optional
    /// else-block.
    #[verifier::rlimit(60)]
    fn parse_condition(&mut self) -> (n: Node)
        requires
            old(self).wf(),
        ensures
            final(self).wf(),
            final(self).tokens == old(self).tokens,
            old(self).current <= final(self).current,
            ({
                let r = p_cond(old(self).toks(), old(self).current as int);
                &&& n@ == r.node
                &&& final(self).current as int == r.next
                &&& strs_of(final(self).errors@) == strs_of(old(self).errors@) + r.errs
                &&& final(self).had_error == (old(self).had_error || r.errs.len() > 0)
            }),
        decreases old(self).tokens@.len() - old(self).current, 1int,
    {
        let ghost rc = p_paren_block(self.toks(), self.current as int, true);
        let check = self.parse_paren_block(true);
        let ghost rt = p_paren_block(self.toks(), self.current as int, true);
        let then_block = self.parse_paren_block(true);
        let ghost re = p_paren_block(self.toks(), self.current as int, false);
        let else_block = self.parse_paren_block(false);
        let mut master = Node::new(NodeKind::Cond);
        master.add_children(check);
        master.add_children(then_block);
        master.add_children(else_block);
        proof {
            assert(master@.children =~= seq![rc.node, rt.node, re.node]);
            assert(((strs_of(old(self).errors@) + rc.errs) + rt.errs) + re.errs =~= strs_of(
                old(self).errors@,
            ) + (rc.errs + rt.errs + re.errs));
        }
        master
    }

    /// Parse a declaration or reassignment.
    fn parse_assignement(&mut self, kind: AssignKind) -> (n: Node)
        requires
            old(self).wf(),
        ensures
            final(self).wf(),
            final(self).tokens == old(self).tokens,
            old(self).current <= final(self).current,
            ({
                let r = p_assign(old(self).toks(), old(self).current as int, kind);
                &&& n@ == r.node
                &&& final(self).current as int == r.next
                &&& strs_of(final(self).errors@) == strs_of(old(self).errors@) + r.errs
                &&& final(self).had_error == (old(self).had_error || r.errs.len() > 0)
            }),
        decreases old(self).tokens@.len() - old(self).current, 1int,
    {
        let name_tok = self.advance();
        if !(matches!(name_tok.kind, TokenKind::Ident)) {
            self.push_error(&name_tok);
            return Node::new(NodeKind::Empty);
        }
        let name = Node::new(NodeKind::Ident(name_tok.text));
        let value_tok = self.advance();
        let value: Node = match value_tok.kind {
            TokenKind::Num => Node::new(NodeKind::Num(number_value(&value_tok.text))),
            TokenKind::StrLit => Node::new(NodeKind::StrLit(string_content(&value_tok.text))),
            TokenKind::Ident => Node::new(NodeKind::Ident(value_tok.text)),
            TokenKind::KwTrue => Node::new(NodeKind::BoolLit(true)),
            TokenKind::KwFalse => Node::new(NodeKind::BoolLit(false)),
            TokenKind::Plus => self.parse_op(OpKind::Plus),
            TokenKind::Minus => self.parse_op(OpKind::Minus),
            TokenKind::Star => self.parse_op(OpKind::Times),
            TokenKind::Slash => self.parse_op(OpKind::Div),
            TokenKind::LeftParen => self.parse_block(),
            _ => {
                self.push_error(&value_tok);
                return Node::new(NodeKind::Empty);
            },
        };
        let ghost vnode = value@;
        let mut master = Node::new(NodeKind::Assign(kind));
        master.add_children(name);
        master.add_children(value);
        proof {
            assert(master@.children =~= seq![
                leaf(NodeKindV::Ident(tk_at(old(self).toks(), old(self).current as int).text)),
                vnode,
            ]);
            assert(strs_of(self.errors@) + Seq::<Seq<char>>::empty() =~= strs_of(self.errors@));
            assert(strs_of(old(self).errors@) + Seq::<Seq<char>>::empty() =~= strs_of(
                old(self).errors@,
            ));
        }
        master
    }

    /// Parse one statement of a block.
    #[verifier::rlimit(80)]
    fn parse_statement(&mut self) -> (n: Node)
        requires
            old(self).wf(),
        ensures
            final(self).wf(),
            final(self).tokens == old(self).tokens,
            old(self).current <= final(self).current,
            !p_at_end(old(self).toks(), old(self).current as int) ==> old(self).current
                < final(self).current,
            ({
                let r = p_item(old(self).toks(), old(self).current as int);
                &&& n@ == r.node
                &&& final(self).current as int == r.next
                &&& strs_of(final(self).errors@) == strs_of(old(self).errors@) + r.errs
                &&& final(self).had_error == (old(self).had_error || r.errs.len() > 0)
            }),
        decreases old(self).tokens@.len() - old(self).current, 2int,
    {
        let t = self.advance();
        let n: Node = match t.kind {
            TokenKind::KwIf => self.parse_condition(),
            TokenKind::LeftParen => self.parse_block(),
            TokenKind::KwLet => self.parse_assignement(AssignKind::Declare),
            TokenKind::KwConst => self.parse_assignement(AssignKind::DeclareConst),
            TokenKind::KwSet => self.parse_assignement(AssignKind::Reassign),
            TokenKind::Plus => self.parse_op(OpKind::Plus),
            TokenKind::Minus => self.parse_op(OpKind::Minus),
            TokenKind::Star => self.parse_op(OpKind::Times),
            TokenKind::Slash => self.parse_op(OpKind::Div),
            TokenKind::Less => self.parse_verif(CmpKind::Less),
            TokenKind::LessEqual => self.parse_verif(CmpKind::LessEqual),
            TokenKind::Greater => self.parse_verif(CmpKind::Greater),
            TokenKind::GreaterEqual => self.parse_verif(CmpKind::GreaterEqual),
            TokenKind::Equal => self.parse_verif(CmpKind::Equal),
            TokenKind::Tilde => self.parse_verif(CmpKind::NotEqual),
            TokenKind::KwAnd => self.parse_verif(CmpKind::And),
            TokenKind::KwOr => self.parse_verif(CmpKind::Or),
            TokenKind::Ident => Node::new(NodeKind::Ident(t.text)),
            _ => {
                self.push_error(&t);
                Node::new(NodeKind::Empty)
            },
        };
        proof {
            assert(strs_of(self.errors@) + Seq::<Seq<char>>::empty() =~= strs_of(self.errors@));
            assert(strs_of(old(self).errors@) + Seq::<Seq<char>>::empty() =~= strs_of(
                old(self).errors@,
            ));
        }
        n
    }

    /// Whether the statement list of the current block is over: the input
    /// ended or the closing parenthesis is next.
    fn items_done(&self) -> (r: bool)
        requires
            self.wf(),
        ensures
            r == (p_at_end(self.toks(), self.current as int) || tk_at(
                self.toks(),
                self.current as int,
            ).kind == TokenKind::RightParen),
    {
        self.current >= self.tokens.len() || self.tokens[self.current].kind == TokenKind::Eof
            || self.tokens[self.current].kind == TokenKind::RightParen
    }

    /// Parse the statements of one block up to and including its closing
    /// parenthesis.
    #[verifier::rlimit(60)]
    fn parse_items(&mut self) -> (items: Vec<Node>)
        requires
            old(self).wf(),
        ensures
            final(self).wf(),
            final(self).tokens == old(self).tokens,
            old(self).current <= final(self).current,
            ({
                let r = p_items(old(self).toks(), old(self).current as int);
                &&& nodes_of(items@) == r.items
                &&& final(self).current as int == r.next
                &&& strs_of(final(self).errors@) == strs_of(old(self).errors@) + r.errs
                &&& final(self).had_error == (old(self).had_error || r.errs.len() > 0)
            }),
        decreases old(self).tokens@.len() - old(self).current, 3int,
    {
        let mut items: Vec<Node> = Vec::new();
        let ghost toks = self.toks();
        let ghost full = p_items(toks, self.current as int);
        while !self.items_done()
            invariant
                self.wf(),
                self.tokens == old(self).tokens,
                toks == self.toks(),
                old(self).current <= self.current,
                full.items == nodes_of(items@) + p_items(toks, self.current as int).items,
                full.next == p_items(toks, self.current as int).next,
                strs_of(old(self).errors@) + full.errs == strs_of(self.errors@) + p_items(
                    toks,
                    self.current as int,
                ).errs,
                (old(self).had_error || full.errs.len() > 0) == (self.had_error || p_items(
                    toks,
                    self.current as int,
                ).errs.len() > 0),
            decreases self.tokens@.len() - self.current,
        {
            let ghost i0 = self.current as int;
            let ghost pre_items = items@;
            let ghost pre_errs = self.errors@;
            let ghost c = p_item(toks, i0);
            let child = self.parse_statement();
            proof {
                lemma_nodes_of_push(items@, child);
                let rest = p_items(toks, self.current as int);
                assert((nodes_of(pre_items) + seq![child@]) + rest.items =~= nodes_of(pre_items)
                    + (seq![child@] + rest.items));
                assert((strs_of(pre_errs) + c.errs) + rest.errs =~= strs_of(pre_errs) + (c.errs
                    + rest.errs));
            }
            items.push(child);
        }
        if !self.is_at_end() {
            let _len = self.tokens.len();
            proof {
                assert(self.toks().len() == self.tokens@.len());
                assert(0 <= self.current < self.toks().len());
            }
            self.current = self.current + 1;
        }
        proof {
            assert(nodes_of(items@) + Seq::<NodeV>::empty() =~= nodes_of(items@));
            assert(strs_of(self.errors@) + Seq::<Seq<char>>::empty() =~= strs_of(self.errors@));
        }
        items
    }

    /// Parse one block's contents: an explicit scope where the block starts
    /// with the identifier `scope`, a transparent block otherwise.
    fn parse_block(&mut self) -> (n: Node)
        requires
            old(self).wf(),
        ensures
            final(self).wf(),
            final(self).tokens == old(self).tokens,
            old(self).current <= final(self).current,
            ({
                let r = p_block(old(self).toks(), old(self).current as int);
                &&& n@ == r.node
                &&& final(self).current as int == r.next
                &&& strs_of(final(self).errors@) == strs_of(old(self).errors@) + r.errs
                &&& final(self).had_error == (old(self).had_error || r.errs.len() > 0)
            }),
        decreases old(self).tokens@.len() - old(self).current, 4int,
    {
        let mut scope = false;
        if self.current < self.tokens.len() {
            let t = &self.tokens[self.current];
            if t.kind == TokenKind::Ident && t.text == String::from_str("scope") {
                scope = true;
            }
        }
        if scope {
            self.current = self.current + 1;
            let items = self.parse_items();
            let ghost iv = items@;
            let n = Node { kind: NodeKind::Scope, children: items };
            proof {
                lemma_node_view(n);
                crate::node::lemma_children_view(n.children, 0);
                assert(n@.children =~= nodes_of(iv));
            }
            n
        } else {
            let items = self.parse_items();
            let ghost iv = items@;
            let n = Node { kind: NodeKind::Block, children: items };
            proof {
                lemma_node_view(n);
                assert(n@.children =~= nodes_of(iv));
            }
            n
        }
    }

    /// Parse the whole token sequence: the returned tree is a block holding
    /// one child per parenthesized top-level block.
    pub fn parse(&mut self) -> (n: Node)
        requires
            old(self).wf(),
        ensures
            final(self).wf(),
            final(self).tokens == old(self).tokens,
            ({
                let r = p_program(old(self).toks(), old(self).current as int);
                &&& n@.kind == NodeKindV::Block
                &&& n@.children == r.items
                &&& final(self).current as int == r.next
                &&& strs_of(final(self).errors@) == strs_of(old(self).errors@) + r.errs
                &&& final(self).had_error == (old(self).had_error || r.errs.len() > 0)
            }),
    {
        let mut items: Vec<Node> = Vec::new();
        let ghost toks = self.toks();
        let ghost full = p_program(toks, self.current as int);
        while !self.is_at_end()
            invariant
                self.wf(),
                self.tokens == old(self).tokens,
                toks == self.toks(),
                old(self).current <= self.current,
                full.items == nodes_of(items@) + p_program(toks, self.current as int).items,
                full.next == p_program(toks, self.current as int).next,
                strs_of(old(self).errors@) + full.errs == strs_of(self.errors@) + p_program(
                    toks,
                    self.current as int,
                ).errs,
                (old(self).had_error || full.errs.len() > 0) == (self.had_error || p_program(
                    toks,
                    self.current as int,
                ).errs.len() > 0),
            decreases self.tokens@.len() - self.current,
        {
            let ghost i0 = self.current as int;
            let ghost pre_items = items@;
            let ghost pre_errs = self.errors@;
            let t = self.advance();
            if matches!(t.kind, TokenKind::LeftParen) {
                let b = self.parse_block();
                proof {
                    lemma_nodes_of_push(items@, b);
                    let rest = p_program(toks, self.current as int);
                    assert((nodes_of(pre_items) + seq![b@]) + rest.items =~= nodes_of(pre_items)
                        + (seq![b@] + rest.items));
                }
                items.push(b);
            } else {
                self.push_error(&t);
                proof {
                    let rest = p_program(toks, self.current as int);
                    assert((strs_of(pre_errs) + seq![invalid_token_msg(t@)]) + rest.errs
                        =~= strs_of(pre_errs) + (seq![invalid_token_msg(t@)] + rest.errs));
                }
            }
        }
        let ghost iv = items@;
        let n = Node { kind: NodeKind::Block, children: items };
        proof {
            lemma_node_view(n);
            assert(n@.children =~= nodes_of(iv));
            assert(nodes_of(iv) + Seq::<NodeV>::empty() =~= nodes_of(iv));
            assert(strs_of(self.errors@) + Seq::<Seq<char>>::empty() =~= strs_of(self.errors@));
        }
        n
    }

    /// Whether any syntax error was recorded.
    pub fn had_error(&self) -> (r: bool)
        ensures
            r == self.had_error,
    {
        self.had_error
    }

    /// The syntax errors recorded so far, in order.
    pub fn get_errors(&self) -> (r: Vec<String>)
        ensures
            r@ == self.errors@,
    {
        crate::lexer::clone_strings(&self.errors)
    }
}

} // verus!
