//! The syntax tree model: a node is a tagged kind together with its ordered
//! children. Trees are built by the parser and never mutated afterwards.

use vstd::prelude::*;

verus! {

broadcast use vstd::std_specs::vec::axiom_vec_index_decreases;

#[derive(Clone, Copy, PartialEq, Eq, Structural, Debug)]
pub enum OpKind {
    Plus,
    Minus,
    Times,
    Div,
    Modulo,
}

#[derive(Clone, Copy, PartialEq, Eq, Structural, Debug)]
pub enum CmpKind {
    Less,
    LessEqual,
    Greater,
    GreaterEqual,
    Equal,
    NotEqual,
    And,
    Or,
}

#[derive(Clone, Copy, PartialEq, Eq, Structural, Debug)]
pub enum AssignKind {
    Declare,
    DeclareConst,
    Reassign,
}

/// What a syntax node is: a lexically transparent block, an explicit scope,
/// a placeholder for a missing or malformed construct, a literal, an
/// identifier reference, an arithmetic operator, a comparison, a
/// conditional, a declaration or reassignment, or a function literal.
#[derive(Debug, PartialEq)]
pub enum NodeKind {
    Block,
    Scope,
    Empty,
    Ident(String),
    Num(i64),
    StrLit(String),
    BoolLit(bool),
    Oper(OpKind),
    Compare(CmpKind),
    Cond,
    Assign(AssignKind),
    FuncLit,
}

#[derive(Debug, PartialEq)]
pub struct Node {
    pub kind: NodeKind,
    pub children: Vec<Node>,
}

pub ghost enum NodeKindV {
    Block,
    Scope,
    Empty,
    Ident(Seq<char>),
    Num(i64),
    StrLit(Seq<char>),
    BoolLit(bool),
    Oper(OpKind),
    Compare(CmpKind),
    Cond,
    Assign(AssignKind),
    FuncLit,
}

pub ghost struct NodeV {
    pub kind: NodeKindV,
    pub children: Seq<NodeV>,
}

pub open spec fn kind_view(k: NodeKind) -> NodeKindV {
    match k {
        NodeKind::Block => NodeKindV::Block,
        NodeKind::Scope => NodeKindV::Scope,
        NodeKind::Empty => NodeKindV::Empty,
        NodeKind::Ident(s) => NodeKindV::Ident(s@),
        NodeKind::Num(n) => NodeKindV::Num(n),
        NodeKind::StrLit(s) => NodeKindV::StrLit(s@),
        NodeKind::BoolLit(b) => NodeKindV::BoolLit(b),
        NodeKind::Oper(o) => NodeKindV::Oper(o),
        NodeKind::Compare(c) => NodeKindV::Compare(c),
        NodeKind::Cond => NodeKindV::Cond,
        NodeKind::Assign(a) => NodeKindV::Assign(a),
        NodeKind::FuncLit => NodeKindV::FuncLit,
    }
}

pub open spec fn node_view(n: Node) -> NodeV
    decreases n,
{
    NodeV { kind: kind_view(n.kind), children: children_view(n.children, 0) }
}

pub open spec fn children_view(v: Vec<Node>, k: int) -> Seq<NodeV>
    decreases v, v@.len() - k,
{
    if k < 0 || k >= v@.len() {
        Seq::empty()
    } else {
        seq![node_view(v@[k])] + children_view(v, k + 1)
    }
}

impl View for Node {
    type V = NodeV;

    open spec fn view(&self) -> NodeV {
        node_view(*self)
    }
}

pub proof fn lemma_children_view(v: Vec<Node>, k: int)
    requires
        0 <= k <= v@.len(),
    ensures
        children_view(v, k).len() == v@.len() - k,
        forall|j: int|
            0 <= j < v@.len() - k ==> children_view(v, k)[j] == node_view(v@[k + j]),
    decreases v@.len() - k,
{
    if k < v@.len() {
        lemma_children_view(v, k + 1);
        assert forall|j: int| 0 <= j < v@.len() - k implies children_view(v, k)[j] == node_view(
            v@[k + j],
        ) by {
            if j > 0 {
                assert(children_view(v, k)[j] == children_view(v, k + 1)[j - 1]);
            }
        }
    }
}

/// The views of a sequence of nodes.
pub open spec fn nodes_of(s: Seq<Node>) -> Seq<NodeV> {
    s.map_values(|n: Node| n@)
}

pub proof fn lemma_nodes_of_push(s: Seq<Node>, n: Node)
    ensures
        nodes_of(s.push(n)) == nodes_of(s).push(n@),
        nodes_of(s.push(n)) == nodes_of(s) + seq![n@],
{
    assert(nodes_of(s.push(n)) =~= nodes_of(s).push(n@));
    assert(nodes_of(s.push(n)) =~= nodes_of(s) + seq![n@]);
}

/// The view of a node lists the views of its children, in order.
pub proof fn lemma_node_view(n: Node)
    ensures
        n@.kind == kind_view(n.kind),
        n@.children.len() == n.children@.len(),
        forall|i: int| 0 <= i < n.children@.len() ==> n@.children[i] == n.children@[i]@,
{
    lemma_children_view(n.children, 0);
}

impl Node {
    /// A childless node of the given kind.
    pub fn new(kind: NodeKind) -> (n: Node)
        ensures
            n@ == (NodeV { kind: kind_view(kind), children: Seq::<NodeV>::empty() }),
    {
        let n = Node { kind, children: Vec::new() };
        proof {
            lemma_node_view(n);
            assert(n@.children =~= Seq::<NodeV>::empty());
        }
        n
    }

    /// Append one child.
    pub fn add_children(&mut self, child: Node)
        ensures
            final(self)@.kind == old(self)@.kind,
            final(self)@.children == old(self)@.children.push(child@),
    {
        let ghost pre = *self;
        self.children.push(child);
        proof {
            lemma_node_view(pre);
            lemma_node_view(*self);
            assert(self@.children =~= pre@.children.push(child@));
        }
    }
}

impl Clone for NodeKind {
    fn clone(&self) -> (r: NodeKind)
        ensures
            r == *self,
    {
        match self {
            NodeKind::Block => NodeKind::Block,
            NodeKind::Scope => NodeKind::Scope,
            NodeKind::Empty => NodeKind::Empty,
            NodeKind::Ident(s) => NodeKind::Ident(s.clone()),
            NodeKind::Num(n) => NodeKind::Num(*n),
            NodeKind::StrLit(s) => NodeKind::StrLit(s.clone()),
            NodeKind::BoolLit(b) => NodeKind::BoolLit(*b),
            NodeKind::Oper(o) => NodeKind::Oper(*o),
            NodeKind::Compare(c) => NodeKind::Compare(*c),
            NodeKind::Cond => NodeKind::Cond,
            NodeKind::Assign(a) => NodeKind::Assign(*a),
            NodeKind::FuncLit => NodeKind::FuncLit,
        }
    }
}

impl Clone for Node {
    /// Deep copy; the view carries over unchanged.
    fn clone(&self) -> (r: Node)
        ensures
            r@ == self@,
        decreases self,
    {
        let kind = self.kind.clone();
        let mut children: Vec<Node> = Vec::new();
        let mut i: usize = 0;
        while i < self.children.len()
            invariant
                i <= self.children@.len(),
                children@.len() == i,
                forall|k: int| 0 <= k < i ==> children@[k]@ == self.children@[k]@,
            decreases self.children@.len() - i,
        {
            children.push(self.children[i].clone());
            i = i + 1;
        }
        let r = Node { kind, children };
        proof {
            lemma_node_view(r);
            lemma_node_view(*self);
            assert(r@.children =~= self@.children);
        }
        r
    }
}

} // verus!
