//! The evaluator: walks the syntax tree against a stack of lexical scopes,
//! mutating scope state and failing fast on the first semantic error.
//!
//! The semantics is specified by `ev_children` / `ev_stmt` (statement
//! evaluation threading the scope stack) and `ev_value` / `ev_inner`
//! (expression evaluation), and each method is proved to do exactly that.

use vstd::prelude::*;
use crate::node::{AssignKind, CmpKind, Node, NodeKind, NodeKindV, NodeV, OpKind};
use crate::value::{
    binds_of, frame_has, frame_idx, lemma_binds_of_push, lemma_frame_idx, lemma_stack_of_push,
    pop_frame, stack_lookup, stack_of, StackElement, StackElementV, Value, ValueV, VariableType,
};

verus! {

broadcast use vstd::std_specs::vec::axiom_vec_index_decreases;

pub open spec fn no_scope_msg() -> Seq<char> {
    "No scopes available. Consider adding a scope to your program"@
}

pub open spec fn undef_var_msg() -> Seq<char> {
    "Attempted to access an undefined variable"@
}

pub open spec fn undef_redef_msg() -> Seq<char> {
    "Attempted to redefine an undefined variable"@
}

pub open spec fn const_redef_msg() -> Seq<char> {
    "Attempted to redefine a constant"@
}

pub open spec fn invalid_elem_msg() -> Seq<char> {
    "Invalid element"@
}

pub open spec fn invalid_decl_ident_msg() -> Seq<char> {
    "Found an invalid identifier in variable declaration"@
}

pub open spec fn invalid_edit_ident_msg() -> Seq<char> {
    "Found an invalid identifier in variable edition"@
}

pub open spec fn invalid_fun_arg_msg() -> Seq<char> {
    "Invalid argument in function declaration"@
}

pub open spec fn redef_msg(name: Seq<char>) -> Seq<char> {
    "Attempted to redefine variable `"@ + name
        + "` that is already present in the current scope"@
}

/// Whether same-type values are equal; values of different runtime types
/// are never equal. Lists and functions never compare equal.
pub open spec fn eq_vals(a: ValueV, b: ValueV) -> bool {
    match (a, b) {
        (ValueV::Number(x), ValueV::Number(y)) => x == y,
        (ValueV::Bool(x), ValueV::Bool(y)) => x == y,
        (ValueV::Str(x), ValueV::Str(y)) => x == y,
        (ValueV::Nil, ValueV::Nil) => true,
        _ => false,
    }
}

/// Arithmetic: defined only for a pair of numbers, with wrapping addition,
/// subtraction and multiplication; division and remainder give `Nil` for a
/// zero divisor, and the one overflowing quotient wraps to the smallest
/// number. Any other operand pairing silently gives `Nil`.
pub open spec fn apply_op(op: OpKind, a: ValueV, b: ValueV) -> ValueV {
    match (a, b) {
        (ValueV::Number(x), ValueV::Number(y)) => match op {
            OpKind::Plus => ValueV::Number(vstd::wrapping::i64_specs::wrapping_add(x, y)),
            OpKind::Minus => ValueV::Number(vstd::wrapping::i64_specs::wrapping_sub(x, y)),
            OpKind::Times => ValueV::Number(vstd::wrapping::i64_specs::wrapping_mul(x, y)),
            OpKind::Div => match x.checked_div(y) {
                Some(q) => ValueV::Number(q),
                None => if y == 0 {
                    ValueV::Nil
                } else {
                    ValueV::Number(i64::MIN)
                },
            },
            OpKind::Modulo => match x.checked_rem(y) {
                Some(q) => ValueV::Number(q),
                None => if y == 0 {
                    ValueV::Nil
                } else {
                    ValueV::Number(0)
                },
            },
        },
        _ => ValueV::Nil,
    }
}

/// Comparisons: equality and inequality are defined for every pair;
/// ordering is defined only for numbers and the logical connectives only
/// for booleans, anything else giving `Nil`.
pub open spec fn apply_cmp(cmp: CmpKind, a: ValueV, b: ValueV) -> ValueV {
    match cmp {
        CmpKind::Equal => ValueV::Bool(eq_vals(a, b)),
        CmpKind::NotEqual => ValueV::Bool(!eq_vals(a, b)),
        CmpKind::Less => match (a, b) {
            (ValueV::Number(x), ValueV::Number(y)) => ValueV::Bool(x < y),
            _ => ValueV::Nil,
        },
        CmpKind::LessEqual => match (a, b) {
            (ValueV::Number(x), ValueV::Number(y)) => ValueV::Bool(x <= y),
            _ => ValueV::Nil,
        },
        CmpKind::Greater => match (a, b) {
            (ValueV::Number(x), ValueV::Number(y)) => ValueV::Bool(x > y),
            _ => ValueV::Nil,
        },
        CmpKind::GreaterEqual => match (a, b) {
            (ValueV::Number(x), ValueV::Number(y)) => ValueV::Bool(x >= y),
            _ => ValueV::Nil,
        },
        CmpKind::And => match (a, b) {
            (ValueV::Bool(x), ValueV::Bool(y)) => ValueV::Bool(x && y),
            _ => ValueV::Nil,
        },
        CmpKind::Or => match (a, b) {
            (ValueV::Bool(x), ValueV::Bool(y)) => ValueV::Bool(x || y),
            _ => ValueV::Nil,
        },
    }
}

/// Parameter names of a function literal's parameter list; `None` where
/// some parameter is not an identifier.
pub open spec fn params_of(args: Seq<NodeV>, k: int) -> Option<Seq<Seq<char>>>
    decreases args.len() - k,
{
    if k < 0 || k >= args.len() {
        Some(Seq::empty())
    } else {
        match args[k].kind {
            NodeKindV::Ident(s) => match params_of(args, k + 1) {
                Some(r) => Some(seq![s] + r),
                None => None,
            },
            _ => None,
        }
    }
}

/// A function literal evaluates to a function value packaging its
/// parameter names and body; a malformed literal is an invalid element.
pub open spec fn ev_fun_def(c0: NodeV) -> Result<ValueV, Seq<char>> {
    if c0.children.len() < 2 {
        Err(invalid_elem_msg())
    } else {
        match params_of(c0.children[0].children, 0) {
            Some(ps) => Ok(ValueV::Func(ps, c0.children[1])),
            None => Err(invalid_fun_arg_msg()),
        }
    }
}

/// A block in value position: its first child decides what it means; an
/// empty block or an unhandled head is the permissive `Nil`.
pub open spec fn ev_inner(st: Seq<Seq<StackElementV>>, n: NodeV) -> Result<ValueV, Seq<char>>
    decreases n, 0int, 0int,
{
    if n.children.len() < 1 {
        Ok(ValueV::Nil)
    } else {
        let c0 = n.children[0];
        match c0.kind {
            NodeKindV::FuncLit => ev_fun_def(c0),
            NodeKindV::Oper(op) => ev_operator(st, c0, op),
            NodeKindV::Compare(cmp) => ev_compare(st, c0, cmp),
            NodeKindV::Block => ev_inner(st, c0),
            _ => Ok(ValueV::Nil),
        }
    }
}

/// A value expression: literals evaluate to themselves, a block to what its
/// head says, an identifier through the scope chain, and anything else to
/// the permissive `Nil`.
pub open spec fn ev_value(st: Seq<Seq<StackElementV>>, n: NodeV) -> Result<ValueV, Seq<char>>
    decreases n, 0int, 1int,
{
    match n.kind {
        NodeKindV::Num(v) => Ok(ValueV::Number(v)),
        NodeKindV::StrLit(s) => Ok(ValueV::Str(s)),
        NodeKindV::BoolLit(b) => Ok(ValueV::Bool(b)),
        NodeKindV::Block => ev_inner(st, n),
        NodeKindV::Ident(name) => match stack_lookup(st, name) {
            Some(b) => Ok(b.value),
            None => Err(undef_var_msg()),
        },
        _ => Ok(ValueV::Nil),
    }
}

/// An operand of an operator or comparison; a structurally invalid one
/// fails.
pub open spec fn ev_operand(st: Seq<Seq<StackElementV>>, c: NodeV) -> Result<ValueV, Seq<char>>
    decreases c, 0int, 2int,
{
    match c.kind {
        NodeKindV::Block => ev_inner(st, c),
        NodeKindV::Num(v) => Ok(ValueV::Number(v)),
        NodeKindV::StrLit(s) => Ok(ValueV::Str(s)),
        NodeKindV::BoolLit(b) => Ok(ValueV::Bool(b)),
        NodeKindV::Empty => Ok(ValueV::Nil),
        NodeKindV::Ident(name) => match stack_lookup(st, name) {
            Some(b) => Ok(b.value),
            None => Err(undef_var_msg()),
        },
        _ => Err(invalid_elem_msg()),
    }
}

pub open spec fn ev_operator(st: Seq<Seq<StackElementV>>, opn: NodeV, op: OpKind) -> Result<
    ValueV,
    Seq<char>,
>
    decreases opn, 0int, 3int,
{
    if opn.children.len() < 2 {
        Err(invalid_elem_msg())
    } else {
        match ev_operand(st, opn.children[0]) {
            Err(e) => Err(e),
            Ok(l) => match ev_operand(st, opn.children[1]) {
                Err(e) => Err(e),
                Ok(r) => Ok(apply_op(op, l, r)),
            },
        }
    }
}

pub open spec fn ev_compare(st: Seq<Seq<StackElementV>>, opn: NodeV, cmp: CmpKind) -> Result<
    ValueV,
    Seq<char>,
>
    decreases opn, 0int, 3int,
{
    if opn.children.len() < 2 {
        Err(invalid_elem_msg())
    } else {
        match ev_operand(st, opn.children[0]) {
            Err(e) => Err(e),
            Ok(l) => match ev_operand(st, opn.children[1]) {
                Err(e) => Err(e),
                Ok(r) => Ok(apply_cmp(cmp, l, r)),
            },
        }
    }
}

/// What statement evaluation leaves behind: the scope stack, and the first
/// error if one stopped the walk.
pub ghost struct StRes {
    pub stack: Seq<Seq<StackElementV>>,
    pub err: Option<Seq<char>>,
}

/// Declare a binding in the innermost scope: the name must be fresh there,
/// and the value expression is evaluated only after that check.
pub open spec fn vd(
    st: Seq<Seq<StackElementV>>,
    is_const: bool,
    name_node: NodeV,
    value_node: NodeV,
) -> StRes
    decreases value_node, 0int, 4int,
{
    if st.len() == 0 {
        StRes { stack: st, err: Some(no_scope_msg()) }
    } else {
        match name_node.kind {
            NodeKindV::Ident(name) => {
                let top = st.last();
                if frame_has(top, name) {
                    StRes { stack: st, err: Some(redef_msg(name)) }
                } else {
                    match ev_value(st, value_node) {
                        Err(e) => StRes { stack: st, err: Some(e) },
                        Ok(v) => StRes {
                            stack: st.update(
                                st.len() - 1,
                                top.push(
                                    StackElementV {
                                        name,
                                        value: v,
                                        typ: if is_const {
                                            VariableType::Constant
                                        } else {
                                            VariableType::Mutable
                                        },
                                    },
                                ),
                            ),
                            err: None,
                        },
                    }
                }
            },
            _ => StRes { stack: st, err: Some(invalid_decl_ident_msg()) },
        }
    }
}

/// Reassign a binding of the innermost scope: it must exist there and not
/// be constant; the new binding is mutable.
pub open spec fn ve(st: Seq<Seq<StackElementV>>, name_node: NodeV, value_node: NodeV) -> StRes
    decreases value_node, 0int, 4int,
{
    if st.len() == 0 {
        StRes { stack: st, err: Some(no_scope_msg()) }
    } else {
        match name_node.kind {
            NodeKindV::Ident(name) => {
                let top = st.last();
                let i = frame_idx(top, name, 0);
                if i < 0 {
                    StRes { stack: st, err: Some(undef_redef_msg()) }
                } else if top[i].typ == VariableType::Constant {
                    StRes { stack: st, err: Some(const_redef_msg()) }
                } else {
                    match ev_value(st, value_node) {
                        Err(e) => StRes { stack: st, err: Some(e) },
                        Ok(v) => StRes {
                            stack: st.update(
                                st.len() - 1,
                                top.update(
                                    i,
                                    StackElementV { name, value: v, typ: VariableType::Mutable },
                                ),
                            ),
                            err: None,
                        },
                    }
                }
            },
            _ => StRes { stack: st, err: Some(invalid_edit_ident_msg()) },
        }
    }
}

/// One statement. A scope pushes a fresh mapping and pops it whatever
/// happens inside; a block is lexically transparent; declarations and
/// reassignments need a scope; everything else is ignored.
pub open spec fn ev_stmt(st: Seq<Seq<StackElementV>>, c: NodeV) -> StRes
    decreases c, 2int, 0int,
{
    match c.kind {
        NodeKindV::Scope => {
            let r = ev_children(st.push(Seq::empty()), c, 0);
            StRes { stack: pop_frame(r.stack), err: r.err }
        },
        NodeKindV::Block => {
            if st.len() == 0 {
                StRes { stack: st, err: Some(no_scope_msg()) }
            } else {
                ev_children(st, c, 0)
            }
        },
        NodeKindV::Assign(kind) => {
            if st.len() == 0 {
                StRes { stack: st, err: Some(no_scope_msg()) }
            } else if c.children.len() < 2 {
                StRes { stack: st, err: Some(invalid_elem_msg()) }
            } else if kind == AssignKind::Reassign {
                ve(st, c.children[0], c.children[1])
            } else {
                vd(st, kind == AssignKind::DeclareConst, c.children[0], c.children[1])
            }
        },
        _ => {
            if st.len() == 0 {
                StRes { stack: st, err: Some(no_scope_msg()) }
            } else {
                StRes { stack: st, err: None }
            }
        },
    }
}

/// The children of a node, evaluated in order from index `k`, stopping at
/// the first error.
pub open spec fn ev_children(st: Seq<Seq<StackElementV>>, n: NodeV, k: int) -> StRes
    decreases n, 1int, (if k <= n.children.len() {
        n.children.len() - k
    } else {
        0
    }),
{
    if k < 0 || k >= n.children.len() {
        StRes { stack: st, err: None }
    } else {
        let r = ev_stmt(st, n.children[k]);
        if r.err is Some {
            r
        } else {
            ev_children(r.stack, n, k + 1)
        }
    }
}

/// Running a program: its top-level tree is walked against an initially
/// empty scope stack; the first semantic error, if any, is the result.
pub open spec fn run_spec(ast: NodeV) -> Option<Seq<char>> {
    ev_children(Seq::empty(), ast, 0).err
}

/// Wrapping addition on two numbers; `Nil` for any other pairing.
pub fn add_op(l: Value, r: Value) -> (res: Value)
    ensures
        res@ == apply_op(OpKind::Plus, l@, r@),
{
    match (l, r) {
        (Value::Number(x), Value::Number(y)) => Value::Number(x.wrapping_add(y)),
        _ => Value::Nil,
    }
}

/// Wrapping subtraction on two numbers; `Nil` for any other pairing.
pub fn sub_op(l: Value, r: Value) -> (res: Value)
    ensures
        res@ == apply_op(OpKind::Minus, l@, r@),
{
    match (l, r) {
        (Value::Number(x), Value::Number(y)) => Value::Number(x.wrapping_sub(y)),
        _ => Value::Nil,
    }
}

/// Wrapping multiplication on two numbers; `Nil` for any other pairing.
pub fn mul_op(l: Value, r: Value) -> (res: Value)
    ensures
        res@ == apply_op(OpKind::Times, l@, r@),
{
    match (l, r) {
        (Value::Number(x), Value::Number(y)) => Value::Number(x.wrapping_mul(y)),
        _ => Value::Nil,
    }
}

/// Truncating division on two numbers; a zero divisor gives `Nil`, and the
/// one overflowing quotient wraps.
pub fn div_op(l: Value, r: Value) -> (res: Value)
    ensures
        res@ == apply_op(OpKind::Div, l@, r@),
{
    match (l, r) {
        (Value::Number(x), Value::Number(y)) => {
            if y == 0 {
                Value::Nil
            } else {
                match x.checked_div(y) {
                    Some(q) => Value::Number(q),
                    None => Value::Number(i64::MIN),
                }
            }
        },
        _ => Value::Nil,
    }
}

/// Truncating remainder on two numbers; a zero divisor gives `Nil`.
pub fn modulo_op(l: Value, r: Value) -> (res: Value)
    ensures
        res@ == apply_op(OpKind::Modulo, l@, r@),
{
    match (l, r) {
        (Value::Number(x), Value::Number(y)) => {
            if y == 0 {
                Value::Nil
            } else {
                match x.checked_rem(y) {
                    Some(q) => Value::Number(q),
                    None => Value::Number(0),
                }
            }
        },
        _ => Value::Nil,
    }
}

/// Exec counterpart of value equality.
fn eq_values(l: &Value, r: &Value) -> (res: bool)
    ensures
        res == eq_vals(l@, r@),
{
    match (l, r) {
        (Value::Number(x), Value::Number(y)) => *x == *y,
        (Value::Bool(x), Value::Bool(y)) => *x == *y,
        (Value::Str(x), Value::Str(y)) => *x == *y,
        (Value::Nil, Value::Nil) => true,
        _ => false,
    }
}

/// Equality across values; values of different runtime types are unequal.
pub fn eq_op(l: Value, r: Value) -> (res: Value)
    ensures
        res@ == apply_cmp(CmpKind::Equal, l@, r@),
{
    Value::Bool(eq_values(&l, &r))
}

/// Inequality across values.
pub fn neq_op(l: Value, r: Value) -> (res: Value)
    ensures
        res@ == apply_cmp(CmpKind::NotEqual, l@, r@),
{
    Value::Bool(!eq_values(&l, &r))
}

/// Strict less-than on two numbers; `Nil` for any other pairing.
pub fn le_op(l: Value, r: Value) -> (res: Value)
    ensures
        res@ == apply_cmp(CmpKind::Less, l@, r@),
{
    match (l, r) {
        (Value::Number(x), Value::Number(y)) => Value::Bool(x < y),
        _ => Value::Nil,
    }
}

/// Less-than-or-equal on two numbers; `Nil` for any other pairing.
pub fn leq_op(l: Value, r: Value) -> (res: Value)
    ensures
        res@ == apply_cmp(CmpKind::LessEqual, l@, r@),
{
    match (l, r) {
        (Value::Number(x), Value::Number(y)) => Value::Bool(x <= y),
        _ => Value::Nil,
    }
}

/// Strict greater-than on two numbers; `Nil` for any other pairing.
pub fn ge_op(l: Value, r: Value) -> (res: Value)
    ensures
        res@ == apply_cmp(CmpKind::Greater, l@, r@),
{
    match (l, r) {
        (Value::Number(x), Value::Number(y)) => Value::Bool(x > y),
        _ => Value::Nil,
    }
}

/// Greater-than-or-equal on two numbers; `Nil` for any other pairing.
pub fn geq_op(l: Value, r: Value) -> (res: Value)
    ensures
        res@ == apply_cmp(CmpKind::GreaterEqual, l@, r@),
{
    match (l, r) {
        (Value::Number(x), Value::Number(y)) => Value::Bool(x >= y),
        _ => Value::Nil,
    }
}

/// Logical conjunction on two booleans; `Nil` for any other pairing.
pub fn and_op(l: Value, r: Value) -> (res: Value)
    ensures
        res@ == apply_cmp(CmpKind::And, l@, r@),
{
    match (l, r) {
        (Value::Bool(x), Value::Bool(y)) => Value::Bool(x && y),
        _ => Value::Nil,
    }
}

/// Logical disjunction on two booleans; `Nil` for any other pairing.
pub fn or_op(l: Value, r: Value) -> (res: Value)
    ensures
        res@ == apply_cmp(CmpKind::Or, l@, r@),
{
    match (l, r) {
        (Value::Bool(x), Value::Bool(y)) => Value::Bool(x || y),
        _ => Value::Nil,
    }
}

pub proof fn lemma_frame_idx_push(f: Seq<StackElementV>, name: Seq<char>, e: StackElementV, k: int)
    requires
        0 <= k <= f.len(),
        frame_idx(f, name, k) == -1,
        e.name == name,
    ensures
        frame_idx(f.push(e), name, k) == f.len(),
    decreases f.len() - k,
{
    if k < f.len() {
        assert(f.push(e)[k] == f[k]);
        lemma_frame_idx_push(f, name, e, k + 1);
    } else {
        assert(f.push(e)[k] == e);
    }
}

/// Law: declaring a fresh name in the innermost scope succeeds, and a
/// subsequent lookup from that scope resolves the name to exactly the
/// declared value, carrying the declaration's constant flag.
pub proof fn lemma_declare_then_lookup(
    st: Seq<Seq<StackElementV>>,
    name: Seq<char>,
    lit: i64,
    cst: bool,
)
    requires
        st.len() > 0,
        !frame_has(st.last(), name),
    ensures
        ({
            let r = vd(
                st,
                cst,
                crate::parser::leaf(NodeKindV::Ident(name)),
                crate::parser::leaf(NodeKindV::Num(lit)),
            );
            &&& r.err is None
            &&& stack_lookup(r.stack, name) == Some(
                StackElementV {
                    name,
                    value: ValueV::Number(lit),
                    typ: if cst {
                        VariableType::Constant
                    } else {
                        VariableType::Mutable
                    },
                },
            )
        }),
{
    let elem = StackElementV {
        name,
        value: ValueV::Number(lit),
        typ: if cst {
            VariableType::Constant
        } else {
            VariableType::Mutable
        },
    };
    let r = vd(
        st,
        cst,
        crate::parser::leaf(NodeKindV::Ident(name)),
        crate::parser::leaf(NodeKindV::Num(lit)),
    );
    lemma_frame_idx(st.last(), name, 0);
    lemma_frame_idx_push(st.last(), name, elem, 0);
    assert(r.stack.last() == st.last().push(elem));
    assert(stack_lookup(r.stack, name) == Some(st.last().push(elem)[st.last().len() as int]));
}

/// Law: a nested scope that does not bind a name is transparent to its
/// lookup: resolution falls through to the outer scopes unchanged.
pub proof fn lemma_lookup_skips_frame(
    st: Seq<Seq<StackElementV>>,
    f: Seq<StackElementV>,
    name: Seq<char>,
)
    requires
        !frame_has(f, name),
    ensures
        stack_lookup(st.push(f), name) == stack_lookup(st, name),
{
    assert(st.push(f).last() == f);
    assert(st.push(f).drop_last() =~= st);
}

/// Law: a name bound in no scope of the stack does not resolve, and
/// evaluating an identifier for it fails with the undefined-variable
/// error; in particular a binding is gone once its scope is popped.
pub proof fn lemma_undefined_lookup(st: Seq<Seq<StackElementV>>, name: Seq<char>)
    requires
        forall|i: int| 0 <= i < st.len() ==> !frame_has(#[trigger] st[i], name),
    ensures
        stack_lookup(st, name) is None,
        ev_value(st, crate::parser::leaf(NodeKindV::Ident(name))) == Err::<ValueV, Seq<char>>(
            undef_var_msg(),
        ),
    decreases st.len(),
{
    if st.len() > 0 {
        assert(st.last() == st[st.len() - 1]);
        assert(forall|i: int|
            0 <= i < st.drop_last().len() ==> st.drop_last()[i] == st[i]);
        lemma_undefined_lookup(st.drop_last(), name);
    }
}

/// Law: reassigning a constant binding fails with the
/// constant-reassignment error and leaves the scope stack unchanged, so
/// the binding keeps its value.
pub proof fn lemma_constant_reassignment(
    st: Seq<Seq<StackElementV>>,
    name: Seq<char>,
    w: NodeV,
)
    requires
        st.len() > 0,
        frame_has(st.last(), name),
        st.last()[frame_idx(st.last(), name, 0)].typ == VariableType::Constant,
    ensures
        ve(st, crate::parser::leaf(NodeKindV::Ident(name)), w) == (StRes {
            stack: st,
            err: Some(const_redef_msg()),
        }),
{
}

/// Law: reassigning a name that the innermost scope does not bind fails
/// with the undefined-variable-redefinition error, and the scope stack is
/// unchanged.
pub proof fn lemma_undeclared_reassignment(
    st: Seq<Seq<StackElementV>>,
    name: Seq<char>,
    w: NodeV,
)
    requires
        st.len() > 0,
        !frame_has(st.last(), name),
    ensures
        ve(st, crate::parser::leaf(NodeKindV::Ident(name)), w) == (StRes {
            stack: st,
            err: Some(undef_redef_msg()),
        }),
{
}

/// Law: arithmetic on any operand pairing other than two numbers evaluates
/// to nil rather than raising an error.
pub proof fn lemma_arith_mismatch(op: OpKind, a: ValueV, b: ValueV)
    requires
        !(a is Number && b is Number),
    ensures
        apply_op(op, a, b) == ValueV::Nil,
{
}

/// Whether two values have the same runtime type.
pub open spec fn same_runtime_type(a: ValueV, b: ValueV) -> bool {
    match (a, b) {
        (ValueV::Number(_), ValueV::Number(_)) => true,
        (ValueV::Nil, ValueV::Nil) => true,
        (ValueV::Bool(_), ValueV::Bool(_)) => true,
        (ValueV::Str(_), ValueV::Str(_)) => true,
        (ValueV::List(_), ValueV::List(_)) => true,
        (ValueV::Func(_, _), ValueV::Func(_, _)) => true,
        _ => false,
    }
}

/// Law: across different runtime types, equality evaluates to false and
/// inequality to true.
pub proof fn lemma_equality_mismatch(a: ValueV, b: ValueV)
    requires
        !same_runtime_type(a, b),
    ensures
        apply_cmp(CmpKind::Equal, a, b) == ValueV::Bool(false),
        apply_cmp(CmpKind::NotEqual, a, b) == ValueV::Bool(true),
{
}

pub proof fn lemma_stack_of_drop_last(s: Seq<Vec<StackElement>>)
    requires
        s.len() > 0,
    ensures
        stack_of(s.drop_last()) == stack_of(s).drop_last(),
{
    assert(stack_of(s.drop_last()) =~= stack_of(s).drop_last());
}

/// Index of the first binding of `name` in one scope.
pub fn find_in_frame(frame: &Vec<StackElement>, name: &String) -> (r: Option<usize>)
    ensures
        ({
            let fi = frame_idx(binds_of(frame@), name@, 0);
            match r {
                Some(i) => fi == i && i < frame@.len(),
                None => fi == -1,
            }
        }),
{
    let ghost binds = binds_of(frame@);
    let mut k: usize = 0;
    while k < frame.len()
        invariant
            k <= frame@.len(),
            binds == binds_of(frame@),
            frame_idx(binds, name@, 0) == frame_idx(binds, name@, k as int),
            binds.len() == frame@.len(),
        decreases frame@.len() - k,
    {
        if frame[k].name == *name {
            return Some(k);
        }
        k = k + 1;
    }
    None
}

/// Whether one scope holds a binding of `name`.
pub fn is_defined(scope: &Vec<StackElement>, name: &String) -> (r: bool)
    ensures
        r == frame_has(binds_of(scope@), name@),
{
    match find_in_frame(scope, name) {
        Some(_) => true,
        None => false,
    }
}

pub struct Interpreter {
    pub scopes: Vec<Vec<StackElement>>,
}

impl Interpreter {
    /// The views of the scope stack, outermost first.
    pub open spec fn stack(self) -> Seq<Seq<StackElementV>> {
        stack_of(self.scopes@)
    }

    /// An evaluator with no scope yet.
    pub fn new() -> (it: Interpreter)
        ensures
            it.stack() == Seq::<Seq<StackElementV>>::empty(),
    {
        let it = Interpreter { scopes: Vec::new() };
        proof {
            assert(it.stack() =~= Seq::<Seq<StackElementV>>::empty());
        }
        it
    }

    /// Enter a scope: push an empty mapping.
    pub fn add_scope(&mut self)
        ensures
            final(self).stack() == old(self).stack().push(Seq::<StackElementV>::empty()),
    {
        let f: Vec<StackElement> = Vec::new();
        proof {
            lemma_stack_of_push(self.scopes@, f);
            assert(binds_of(f@) =~= Seq::<StackElementV>::empty());
        }
        self.scopes.push(f);
    }

    /// Leave a scope: pop the innermost mapping, if any.
    pub fn remove_scope(&mut self)
        ensures
            final(self).stack() == pop_frame(old(self).stack()),
    {
        if self.scopes.len() > 0 {
            proof {
                lemma_stack_of_drop_last(self.scopes@);
            }
            self.scopes.pop();
        }
    }

    /// Resolve a name through the scope chain, innermost scope first: its
    /// value and whether the binding is constant.
    pub fn get_binding(&self, name: &String) -> (r: Option<(Value, bool)>)
        ensures
            match stack_lookup(self.stack(), name@) {
                Some(b) => {
                    &&& r is Some
                    &&& r->Some_0.0@ == b.value
                    &&& r->Some_0.1 == (b.typ == VariableType::Constant)
                },
                None => r is None,
            },
    {
        let ghost full = self.stack();
        let mut i: usize = self.scopes.len();
        proof {
            assert(full.subrange(0, i as int) =~= full);
        }
        while i > 0
            invariant
                i <= self.scopes@.len(),
                full == self.stack(),
                full.len() == self.scopes@.len(),
                stack_lookup(full, name@) == stack_lookup(full.subrange(0, i as int), name@),
            decreases i,
        {
            i = i - 1;
            let frame = &self.scopes[i];
            proof {
                assert(full.subrange(0, i + 1).last() == full[i as int]);
                assert(full.subrange(0, i + 1).drop_last() =~= full.subrange(0, i as int));
            }
            match find_in_frame(frame, name) {
                Some(k) => {
                    let e = &frame[k];
                    let constant = match e.typ {
                        VariableType::Constant => true,
                        VariableType::Mutable => false,
                    };
                    return Some((e.value.clone(), constant));
                },
                None => {},
            }
        }
        proof {
            assert(full.subrange(0, 0) =~= Seq::<Seq<StackElementV>>::empty());
        }
        None
    }

    /// Resolve a name to its value through the scope chain.
    pub fn get_value(&self, name: &String) -> (r: Option<Value>)
        ensures
            match stack_lookup(self.stack(), name@) {
                Some(b) => r is Some && r->Some_0@ == b.value,
                None => r is None,
            },
    {
        match self.get_binding(name) {
            Some(p) => Some(p.0),
            None => None,
        }
    }

    /// Package a function literal into a function value.
    fn proc_fun_def(&self, c0: &Node) -> (r: Result<Value, String>)
        ensures
            match ev_fun_def(c0@) {
                Ok(v) => r is Ok && r->Ok_0@ == v,
                Err(m) => r is Err && r->Err_0@ == m,
            },
    {
        proof {
            crate::node::lemma_node_view(*c0);
        }
        if c0.children.len() < 2 {
            return Err(String::from_str("Invalid element"));
        }
        let args = &c0.children[0];
        proof {
            crate::node::lemma_node_view(*args);
        }
        let ghost argsv = args@.children;
        let mut params: Vec<String> = Vec::new();
        let mut k: usize = 0;
        proof {
            assert(params@.map_values(|p: String| p@) =~= Seq::<Seq<char>>::empty());
            if params_of(argsv, 0) is Some {
                assert(Seq::<Seq<char>>::empty() + params_of(argsv, 0)->Some_0 =~= params_of(
                    argsv,
                    0,
                )->Some_0);
            }
        }
        while k < args.children.len()
            invariant
                k <= args.children@.len(),
                argsv == args@.children,
                c0@.children.len() == c0.children@.len(),
                c0.children@.len() >= 2,
                c0@.children[0] == args@,
                c0@.children[1] == c0.children@[1]@,
                *args == c0.children@[0],
                argsv.len() == args.children@.len(),
                forall|j: int| 0 <= j < argsv.len() ==> argsv[j] == args.children@[j]@,
                params@.len() == k,
                params_of(argsv, k as int) is Some ==> params_of(argsv, 0) == Some(
                    params@.map_values(|p: String| p@) + params_of(argsv, k as int)->Some_0,
                ),
                params_of(argsv, k as int) is None ==> params_of(argsv, 0) is None,
                forall|j: int| 0 <= j < k ==> argsv[j].kind is Ident,
            decreases args.children@.len() - k,
        {
            let arg = &args.children[k];
            match &arg.kind {
                NodeKind::Ident(s) => {
                    let ghost pre = params@;
                    params.push(s.clone());
                    proof {
                        assert(params@.map_values(|p: String| p@) =~= pre.map_values(
                            |p: String| p@,
                        ).push(s@));
                        if params_of(argsv, k + 1) is Some {
                            assert((pre.map_values(|p: String| p@) + (seq![s@] + params_of(
                                argsv,
                                k + 1,
                            )->Some_0)) =~= (params@.map_values(|p: String| p@) + params_of(
                                argsv,
                                k + 1,
                            )->Some_0));
                        }
                    }
                },
                _ => {
                    proof {
                        assert(argsv[k as int] == args.children@[k as int]@);
                        assert(!(argsv[k as int].kind is Ident));
                        assert(params_of(argsv, k as int) is None);
                        assert(params_of(argsv, 0) is None);
                    }
                    return Err(String::from_str("Invalid argument in function declaration"));
                },
            }
            k = k + 1;
        }
        proof {
            crate::node::lemma_node_view(*c0);
            crate::node::lemma_node_view(*args);
            assert(params_of(argsv, k as int) == Some(Seq::<Seq<char>>::empty()));
            assert(params@.map_values(|p: String| p@) + Seq::<Seq<char>>::empty()
                =~= params@.map_values(|p: String| p@));
        }
        let body = c0.children[1].clone();
        let r = Value::Func(params, body);
        proof {
            assert(r@ == ev_fun_def(c0@)->Ok_0);
        }
        Ok(r)
    }

    /// Evaluate an operand of an operator or comparison.
    fn proc_operand(&self, c: &Node) -> (r: Result<Value, String>)
        ensures
            match ev_operand(self.stack(), c@) {
                Ok(v) => r is Ok && r->Ok_0@ == v,
                Err(m) => r is Err && r->Err_0@ == m,
            },
        decreases c, 0int, 2int,
    {
        match &c.kind {
            NodeKind::Block => self.process_inner_block(c),
            NodeKind::Num(v) => Ok(Value::Number(*v)),
            NodeKind::StrLit(s) => Ok(Value::Str(s.clone())),
            NodeKind::BoolLit(b) => Ok(Value::Bool(*b)),
            NodeKind::Empty => Ok(Value::Nil),
            NodeKind::Ident(s) => match self.get_value(s) {
                Some(v) => Ok(v),
                None => Err(String::from_str("Attempted to access an undefined variable")),
            },
            _ => Err(String::from_str("Invalid element")),
        }
    }

    /// Evaluate an arithmetic operator node: both operands, then the rule.
    fn proc_operator(&self, opn: &Node, op: OpKind) -> (r: Result<Value, String>)
        ensures
            match ev_operator(self.stack(), opn@, op) {
                Ok(v) => r is Ok && r->Ok_0@ == v,
                Err(m) => r is Err && r->Err_0@ == m,
            },
        decreases opn, 0int, 3int,
    {
        proof {
            crate::node::lemma_node_view(*opn);
        }
        if opn.children.len() < 2 {
            return Err(String::from_str("Invalid element"));
        }
        let lhs = match self.proc_operand(&opn.children[0]) {
            Ok(v) => v,
            Err(e) => {
                return Err(e);
            },
        };
        let rhs = match self.proc_operand(&opn.children[1]) {
            Ok(v) => v,
            Err(e) => {
                return Err(e);
            },
        };
        match op {
            OpKind::Div => Ok(div_op(lhs, rhs)),
            OpKind::Times => Ok(mul_op(lhs, rhs)),
            OpKind::Plus => Ok(add_op(lhs, rhs)),
            OpKind::Minus => Ok(sub_op(lhs, rhs)),
            OpKind::Modulo => Ok(modulo_op(lhs, rhs)),
        }
    }

    /// Evaluate a comparison node: both operands, then the rule.
    fn proc_compare(&self, opn: &Node, cmp: CmpKind) -> (r: Result<Value, String>)
        ensures
            match ev_compare(self.stack(), opn@, cmp) {
                Ok(v) => r is Ok && r->Ok_0@ == v,
                Err(m) => r is Err && r->Err_0@ == m,
            },
        decreases opn, 0int, 3int,
    {
        proof {
            crate::node::lemma_node_view(*opn);
        }
        if opn.children.len() < 2 {
            return Err(String::from_str("Invalid element"));
        }
        let lhs = match self.proc_operand(&opn.children[0]) {
            Ok(v) => v,
            Err(e) => {
                return Err(e);
            },
        };
        let rhs = match self.proc_operand(&opn.children[1]) {
            Ok(v) => v,
            Err(e) => {
                return Err(e);
            },
        };
        match cmp {
            CmpKind::Equal => Ok(eq_op(lhs, rhs)),
            CmpKind::NotEqual => Ok(neq_op(lhs, rhs)),
            CmpKind::Less => Ok(le_op(lhs, rhs)),
            CmpKind::LessEqual => Ok(leq_op(lhs, rhs)),
            CmpKind::Greater => Ok(ge_op(lhs, rhs)),
            CmpKind::GreaterEqual => Ok(geq_op(lhs, rhs)),
            CmpKind::And => Ok(and_op(lhs, rhs)),
            CmpKind::Or => Ok(or_op(lhs, rhs)),
        }
    }

    /// Evaluate a block in value position.
    fn process_inner_block(&self, n: &Node) -> (r: Result<Value, String>)
        ensures
            match ev_inner(self.stack(), n@) {
                Ok(v) => r is Ok && r->Ok_0@ == v,
                Err(m) => r is Err && r->Err_0@ == m,
            },
        decreases n, 0int, 0int,
    {
        proof {
            crate::node::lemma_node_view(*n);
        }
        if n.children.len() < 1 {
            return Ok(Value::Nil);
        }
        let c0 = &n.children[0];
        match &c0.kind {
            NodeKind::FuncLit => self.proc_fun_def(c0),
            NodeKind::Oper(op) => self.proc_operator(c0, *op),
            NodeKind::Compare(cmp) => self.proc_compare(c0, *cmp),
            NodeKind::Block => self.process_inner_block(c0),
            _ => Ok(Value::Nil),
        }
    }

    /// Declare a binding in the innermost scope.
    pub fn var_def(&mut self, is_const: bool, name: &Node, value: &Node) -> (r: Result<
        (),
        String,
    >)
        ensures
            ({
                let res = vd(stack_of(old(self).scopes@), is_const, name@, value@);
                &&& stack_of(final(self).scopes@) == res.stack
                &&& match r {
                    Ok(_) => res.err is None,
                    Err(e) => res.err == Some(e@),
                }
            }),
        decreases value, 0int, 4int,
    {
        let ghost st0 = stack_of(self.scopes@);
        if self.scopes.len() == 0 {
            return Err(
                String::from_str("No scopes available. Consider adding a scope to your program"),
            );
        }
        let name_s: &String = match &name.kind {
            NodeKind::Ident(s) => s,
            _ => {
                return Err(String::from_str("Found an invalid identifier in variable declaration"));
            },
        };
        let ti = self.scopes.len() - 1;
        proof {
            assert(st0.last() == binds_of(self.scopes@[ti as int]@));
        }
        if is_defined(&self.scopes[ti], name_s) {
            let msg = String::from_str("Attempted to redefine variable `").concat(
                name_s.as_str(),
            ).concat("` that is already present in the current scope");
            proof {
                assert(msg@ =~= redef_msg(name_s@));
            }
            return Err(msg);
        }
        let v = match self.proc_value(value) {
            Ok(v) => v,
            Err(e) => {
                return Err(e);
            },
        };
        let elem = StackElement {
            name: name_s.clone(),
            value: v,
            typ: if is_const {
                VariableType::Constant
            } else {
                VariableType::Mutable
            },
        };
        let ghost elemv = elem@;
        let ghost oldframes = self.scopes@;
        let mut top = match self.scopes.pop() {
            Some(f) => f,
            None => Vec::new(),
        };
        let ghost topv0 = top@;
        top.push(elem);
        self.scopes.push(top);
        proof {
            lemma_binds_of_push(topv0, elem);
            assert(st0[st0.len() - 1] == binds_of(oldframes[oldframes.len() - 1]@));
            assert(binds_of(topv0) == st0.last());
            assert(stack_of(self.scopes@) =~= st0.update(
                st0.len() - 1,
                st0.last().push(elemv),
            ));
        }
        Ok(())
    }

    /// Reassign a binding of the innermost scope.
    pub fn var_edit(&mut self, name: &Node, new_val: &Node) -> (r: Result<(), String>)
        ensures
            ({
                let res = ve(stack_of(old(self).scopes@), name@, new_val@);
                &&& stack_of(final(self).scopes@) == res.stack
                &&& match r {
                    Ok(_) => res.err is None,
                    Err(e) => res.err == Some(e@),
                }
            }),
        decreases new_val, 0int, 4int,
    {
        let ghost st0 = stack_of(self.scopes@);
        if self.scopes.len() == 0 {
            return Err(
                String::from_str("No scopes available. Consider adding a scope to your program"),
            );
        }
        let name_s: &String = match &name.kind {
            NodeKind::Ident(s) => s,
            _ => {
                return Err(String::from_str("Found an invalid identifier in variable edition"));
            },
        };
        let ti = self.scopes.len() - 1;
        proof {
            assert(st0.last() == binds_of(self.scopes@[ti as int]@));
            lemma_frame_idx(st0.last(), name_s@, 0);
        }
        let idx = match find_in_frame(&self.scopes[ti], name_s) {
            Some(i) => i,
            None => {
                return Err(String::from_str("Attempted to redefine an undefined variable"));
            },
        };
        let frame = &self.scopes[ti];
        let constant = match frame[idx].typ {
            VariableType::Constant => true,
            VariableType::Mutable => false,
        };
        if constant {
            return Err(String::from_str("Attempted to redefine a constant"));
        }
        let v = match self.proc_value(new_val) {
            Ok(v) => v,
            Err(e) => {
                return Err(e);
            },
        };
        let elem = StackElement { name: name_s.clone(), value: v, typ: VariableType::Mutable };
        let ghost elemv = elem@;
        let mut top = match self.scopes.pop() {
            Some(f) => f,
            None => Vec::new(),
        };
        top[idx] = elem;
        self.scopes.push(top);
        proof {
            assert(binds_of(top@) =~= st0.last().update(idx as int, elemv));
            assert(stack_of(self.scopes@) =~= st0.update(
                st0.len() - 1,
                st0.last().update(idx as int, elemv),
            ));
        }
        Ok(())
    }

    /// Evaluate the children of a node as statements, in order, stopping at
    /// the first semantic error. A scope child pushes a fresh mapping and
    /// pops it whatever happens inside.
    pub fn process_node(&mut self, node: &Node) -> (r: Result<(), String>)
        ensures
            ({
                let res = ev_children(stack_of(old(self).scopes@), node@, 0);
                &&& stack_of(final(self).scopes@) == res.stack
                &&& match r {
                    Ok(_) => res.err is None,
                    Err(e) => res.err == Some(e@),
                }
            }),
        decreases node, 1int, 0int,
    {
        let ghost nv = node@;
        let ghost st0 = stack_of(self.scopes@);
        proof {
            crate::node::lemma_node_view(*node);
        }
        let mut k: usize = 0;
        while k < node.children.len()
            invariant
                k <= node.children@.len(),
                st0 == stack_of(old(self).scopes@),
                nv == node@,
                nv.children.len() == node.children@.len(),
                forall|j: int|
                    0 <= j < nv.children.len() ==> nv.children[j] == node.children@[j]@,
                ev_children(st0, nv, 0) == ev_children(stack_of(self.scopes@), nv, k as int),
            decreases node.children@.len() - k,
        {
            let instruction = &node.children[k];
            let ghost cur = stack_of(self.scopes@);
            proof {
                crate::node::lemma_node_view(*instruction);
            }
            match &instruction.kind {
                NodeKind::Scope => {
                    self.add_scope();
                    let res = self.process_node(instruction);
                    self.remove_scope();
                    proof {
                        let childv = nv.children[k as int];
                        assert(instruction@ == childv);
                        assert(childv.kind is Scope);
                        let rr = ev_children(
                            cur.push(Seq::<StackElementV>::empty()),
                            childv,
                            0,
                        );
                        assert(stack_of(self.scopes@) == pop_frame(rr.stack));
                        assert(ev_stmt(cur, childv) == (StRes {
                            stack: pop_frame(rr.stack),
                            err: rr.err,
                        }));
                    }
                    match res {
                        Err(e) => {
                            return Err(e);
                        },
                        Ok(_) => {},
                    }
                },
                NodeKind::Block => {
                    if self.scopes.len() == 0 {
                        return Err(
                            String::from_str(
                                "No scopes available. Consider adding a scope to your program",
                            ),
                        );
                    }
                    let res = self.process_node(instruction);
                    match res {
                        Err(e) => {
                            return Err(e);
                        },
                        Ok(_) => {},
                    }
                },
                NodeKind::Assign(a) => {
                    if self.scopes.len() == 0 {
                        return Err(
                            String::from_str(
                                "No scopes available. Consider adding a scope to your program",
                            ),
                        );
                    }
                    if instruction.children.len() < 2 {
                        return Err(String::from_str("Invalid element"));
                    }
                    let res = if matches!(a, AssignKind::Reassign) {
                        self.var_edit(&instruction.children[0], &instruction.children[1])
                    } else {
                        self.var_def(
                            matches!(a, AssignKind::DeclareConst),
                            &instruction.children[0],
                            &instruction.children[1],
                        )
                    };
                    match res {
                        Err(e) => {
                            return Err(e);
                        },
                        Ok(_) => {},
                    }
                },
                _ => {
                    if self.scopes.len() == 0 {
                        return Err(
                            String::from_str(
                                "No scopes available. Consider adding a scope to your program",
                            ),
                        );
                    }
                },
            }
            k = k + 1;
        }
        Ok(())
    }

    /// Run a whole program: walk its tree against an initially empty scope
    /// stack and report the first semantic error, if any.
    pub fn run(ast: Node) -> (r: Result<(), String>)
        ensures
            match run_spec(ast@) {
                None => r is Ok,
                Some(m) => r is Err && r->Err_0@ == m,
            },
    {
        let mut interpreter = Interpreter::new();
        interpreter.process_node(&ast)
    }

    /// Evaluate a value expression.
    pub fn proc_value(&self, n: &Node) -> (r: Result<Value, String>)
        ensures
            match ev_value(self.stack(), n@) {
                Ok(v) => r is Ok && r->Ok_0@ == v,
                Err(m) => r is Err && r->Err_0@ == m,
            },
        decreases n, 0int, 1int,
    {
        match &n.kind {
            NodeKind::Num(v) => Ok(Value::Number(*v)),
            NodeKind::StrLit(s) => Ok(Value::Str(s.clone())),
            NodeKind::BoolLit(b) => Ok(Value::Bool(*b)),
            NodeKind::Block => self.process_inner_block(n),
            NodeKind::Ident(s) => match self.get_value(s) {
                Some(v) => Ok(v),
                None => Err(String::from_str("Attempted to access an undefined variable")),
            },
            _ => Ok(Value::Nil),
        }
    }
}

} // verus!
