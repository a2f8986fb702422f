//! Runtime values and the lexical scope model: a scope is one ordered list
//! of bindings, and the evaluator keeps a stack of scopes, innermost last.

use vstd::prelude::*;
use crate::node::{node_view, Node, NodeV};
use crate::lexer::clone_strings;

verus! {

broadcast use vstd::std_specs::vec::axiom_vec_index_decreases;

/// Whether a binding may be reassigned.
#[derive(Clone, Copy, PartialEq, Eq, Structural, Debug)]
pub enum VariableType {
    Constant,
    Mutable,
}

/// A runtime value. Values are immutable; reassignment replaces the
/// binding, never the value in place.
#[derive(Debug, PartialEq)]
pub enum Value {
    Number(i64),
    Nil,
    Bool(bool),
    Str(String),
    List(Vec<Value>),
    Func(Vec<String>, Node),
}

pub ghost enum ValueV {
    Number(i64),
    Nil,
    Bool(bool),
    Str(Seq<char>),
    List(Seq<ValueV>),
    Func(Seq<Seq<char>>, NodeV),
}

pub open spec fn value_view(v: Value) -> ValueV
    decreases v,
{
    match v {
        Value::Number(n) => ValueV::Number(n),
        Value::Nil => ValueV::Nil,
        Value::Bool(b) => ValueV::Bool(b),
        Value::Str(s) => ValueV::Str(s@),
        Value::List(items) => ValueV::List(values_view(items, 0)),
        Value::Func(params, body) => ValueV::Func(
            params@.map_values(|p: String| p@),
            node_view(body),
        ),
    }
}

pub open spec fn values_view(v: Vec<Value>, k: int) -> Seq<ValueV>
    decreases v, v@.len() - k,
{
    if k < 0 || k >= v@.len() {
        Seq::empty()
    } else {
        seq![value_view(v@[k])] + values_view(v, k + 1)
    }
}

impl View for Value {
    type V = ValueV;

    open spec fn view(&self) -> ValueV {
        value_view(*self)
    }
}

pub proof fn lemma_values_view(v: Vec<Value>, k: int)
    requires
        0 <= k <= v@.len(),
    ensures
        values_view(v, k).len() == v@.len() - k,
        forall|j: int|
            0 <= j < v@.len() - k ==> values_view(v, k)[j] == value_view(v@[k + j]),
    decreases v@.len() - k,
{
    if k < v@.len() {
        lemma_values_view(v, k + 1);
        assert forall|j: int| 0 <= j < v@.len() - k implies values_view(v, k)[j] == value_view(
            v@[k + j],
        ) by {
            if j > 0 {
                assert(values_view(v, k)[j] == values_view(v, k + 1)[j - 1]);
            }
        }
    }
}

impl Clone for Value {
    /// Deep copy; the view carries over unchanged.
    fn clone(&self) -> (r: Value)
        ensures
            r@ == self@,
        decreases self,
    {
        match self {
            Value::Number(n) => Value::Number(*n),
            Value::Nil => Value::Nil,
            Value::Bool(b) => Value::Bool(*b),
            Value::Str(s) => Value::Str(s.clone()),
            Value::List(items) => {
                let mut out: Vec<Value> = Vec::new();
                let mut i: usize = 0;
                while i < items.len()
                    invariant
                        *self == Value::List(*items),
                        i <= items@.len(),
                        out@.len() == i,
                        forall|k: int| 0 <= k < i ==> out@[k]@ == items@[k]@,
                    decreases items@.len() - i,
                {
                    proof {
                        assert(decreases_to!(*self => (*self)->List_0));
                        vstd::std_specs::vec::axiom_vec_index_decreases((*self)->List_0, i as int);
                        assert((*self)->List_0 == *items);
                    }
                    out.push(items[i].clone());
                    i = i + 1;
                }
                proof {
                    lemma_values_view(out, 0);
                    lemma_values_view(*items, 0);
                    assert(values_view(out, 0) =~= values_view(*items, 0));
                }
                Value::List(out)
            },
            Value::Func(params, body) => {
                let r = Value::Func(clone_strings(params), body.clone());
                proof {
                    assert(r@ == self@);
                }
                r
            },
        }
    }
}

/// One binding: a name, its value, and whether it is constant.
#[derive(Debug)]
pub struct StackElement {
    pub name: String,
    pub value: Value,
    pub typ: VariableType,
}

pub ghost struct StackElementV {
    pub name: Seq<char>,
    pub value: ValueV,
    pub typ: VariableType,
}

impl View for StackElement {
    type V = StackElementV;

    open spec fn view(&self) -> StackElementV {
        StackElementV { name: self.name@, value: self.value@, typ: self.typ }
    }
}

impl Clone for StackElement {
    fn clone(&self) -> (r: StackElement)
        ensures
            r@ == self@,
    {
        StackElement { name: self.name.clone(), value: self.value.clone(), typ: self.typ }
    }
}

/// The views of one scope's bindings, in insertion order.
pub open spec fn binds_of(f: Seq<StackElement>) -> Seq<StackElementV> {
    f.map_values(|e: StackElement| e@)
}

/// The views of the whole scope stack, outermost first.
pub open spec fn stack_of(s: Seq<Vec<StackElement>>) -> Seq<Seq<StackElementV>> {
    s.map_values(|f: Vec<StackElement>| binds_of(f@))
}

/// Index of the first binding of `name` in one scope, `-1` if there is
/// none.
pub open spec fn frame_idx(f: Seq<StackElementV>, name: Seq<char>, k: int) -> int
    decreases f.len() - k,
{
    if k < 0 || k >= f.len() {
        -1
    } else if f[k].name == name {
        k
    } else {
        frame_idx(f, name, k + 1)
    }
}

/// Whether one scope holds a binding of `name`.
pub open spec fn frame_has(f: Seq<StackElementV>, name: Seq<char>) -> bool {
    frame_idx(f, name, 0) >= 0
}

pub proof fn lemma_frame_idx(f: Seq<StackElementV>, name: Seq<char>, k: int)
    requires
        0 <= k <= f.len(),
    ensures
        ({
            let i = frame_idx(f, name, k);
            &&& i == -1 || (k <= i < f.len() && f[i].name == name)
            &&& i == -1 ==> forall|j: int| k <= j < f.len() ==> f[j].name != name
            &&& i >= 0 ==> forall|j: int| k <= j < i ==> f[j].name != name
        }),
    decreases f.len() - k,
{
    if k < f.len() && f[k].name != name {
        lemma_frame_idx(f, name, k + 1);
    }
}

/// The binding a name resolves to: the innermost scope that holds it wins.
pub open spec fn stack_lookup(st: Seq<Seq<StackElementV>>, name: Seq<char>) -> Option<
    StackElementV,
>
    decreases st.len(),
{
    if st.len() == 0 {
        None
    } else {
        let top = st.last();
        let i = frame_idx(top, name, 0);
        if i >= 0 {
            Some(top[i])
        } else {
            stack_lookup(st.drop_last(), name)
        }
    }
}

/// The stack after leaving a scope.
pub open spec fn pop_frame(st: Seq<Seq<StackElementV>>) -> Seq<Seq<StackElementV>> {
    if st.len() > 0 {
        st.drop_last()
    } else {
        st
    }
}

pub proof fn lemma_binds_of_push(f: Seq<StackElement>, e: StackElement)
    ensures
        binds_of(f.push(e)) == binds_of(f).push(e@),
{
    assert(binds_of(f.push(e)) =~= binds_of(f).push(e@));
}

pub proof fn lemma_stack_of_push(s: Seq<Vec<StackElement>>, f: Vec<StackElement>)
    ensures
        stack_of(s.push(f)) == stack_of(s).push(binds_of(f@)),
{
    assert(stack_of(s.push(f)) =~= stack_of(s).push(binds_of(f@)));
}

} // verus!
