//! Syntax trees of the query language.

use vstd::prelude::*;

verus! {

/// A comparison operator between a field and a literal value.
#[derive(Debug, Clone, Copy, PartialEq, Eq, Structural)]
pub enum CompareOp {
    Eq,
    Contains,
    Smaller,
    SmallerEq,
    Greater,
    GreaterEq,
}

/// One end of a range.
#[derive(Debug, PartialEq, Eq)]
pub enum Bound {
    Inclusive(String),
    Exclusive(String),
    Unbounded,
}

/// The mathematical value of a [`Bound`].
pub enum BoundModel {
    Inclusive(Seq<char>),
    Exclusive(Seq<char>),
    Unbounded,
}

impl View for Bound {
    type V = BoundModel;

    open spec fn view(&self) -> BoundModel {
        match self {
            Bound::Inclusive(s) => BoundModel::Inclusive(s@),
            Bound::Exclusive(s) => BoundModel::Exclusive(s@),
            Bound::Unbounded => BoundModel::Unbounded,
        }
    }
}

/// A node of a query's syntax tree.
#[derive(Debug, PartialEq, Eq)]
pub enum Node {
    And(Box<Node>, Box<Node>),
    Or(Box<Node>, Box<Node>),
    Not(Box<Node>),
    Word(String),
    Field(String, String),
    Compare(String, CompareOp, String),
    Range(String, Bound, Bound),
    Function(String, Vec<String>),
    Modified(Box<Node>, Vec<String>),
    Regex(String),
    Group(Box<Node>),
}

/// The mathematical value of a [`Node`].
pub enum NodeModel {
    And(Box<NodeModel>, Box<NodeModel>),
    Or(Box<NodeModel>, Box<NodeModel>),
    Not(Box<NodeModel>),
    Word(Seq<char>),
    Field(Seq<char>, Seq<char>),
    Compare(Seq<char>, CompareOp, Seq<char>),
    Range(Seq<char>, BoundModel, BoundModel),
    Function(Seq<char>, Seq<Seq<char>>),
    Modified(Box<NodeModel>, Seq<Seq<char>>),
    Regex(Seq<char>),
    Group(Box<NodeModel>),
}

/// The texts of a list of strings.
pub open spec fn texts(v: Seq<String>) -> Seq<Seq<char>> {
    Seq::new(v.len(), |i: int| v[i]@)
}

/// The value of a syntax tree.
pub open spec fn node_model(n: Node) -> NodeModel
    decreases n,
{
    match n {
        Node::And(a, b) => NodeModel::And(Box::new(node_model(*a)), Box::new(node_model(*b))),
        Node::Or(a, b) => NodeModel::Or(Box::new(node_model(*a)), Box::new(node_model(*b))),
        Node::Not(a) => NodeModel::Not(Box::new(node_model(*a))),
        Node::Word(s) => NodeModel::Word(s@),
        Node::Field(name, term) => NodeModel::Field(name@, term@),
        Node::Compare(field, op, value) => NodeModel::Compare(field@, op, value@),
        Node::Range(field, low, high) => NodeModel::Range(field@, low@, high@),
        Node::Function(name, args) => NodeModel::Function(name@, texts(args@)),
        Node::Modified(inner, mods) => NodeModel::Modified(
            Box::new(node_model(*inner)),
            texts(mods@),
        ),
        Node::Regex(s) => NodeModel::Regex(s@),
        Node::Group(a) => NodeModel::Group(Box::new(node_model(*a))),
    }
}

impl View for Node {
    type V = NodeModel;

    open spec fn view(&self) -> NodeModel {
        node_model(*self)
    }
}

impl Clone for Bound {
    fn clone(&self) -> (r: Bound)
        ensures
            r@ == self@,
    {
        match self {
            Bound::Inclusive(s) => Bound::Inclusive(s.clone()),
            Bound::Exclusive(s) => Bound::Exclusive(s.clone()),
            Bound::Unbounded => Bound::Unbounded,
        }
    }
}

/// A copy of a list of strings.
pub fn copy_strings(v: &Vec<String>) -> (r: Vec<String>)
    ensures
        texts(r@) == texts(v@),
{
    let mut out: Vec<String> = Vec::new();
    let mut i: usize = 0;
    while i < v.len()
        invariant
            i <= v.len(),
            out.len() == i,
            forall|k: int| 0 <= k < i ==> out[k]@ == v[k]@,
        decreases v.len() - i,
    {
        out.push(v[i].clone());
        i = i + 1;
    }
    assert(texts(out@) =~= texts(v@));
    out
}

/// A copy of a syntax tree.
pub fn copy_node(n: &Node) -> (r: Node)
    ensures
        r@ == n@,
    decreases *n,
{
    match n {
        Node::And(a, b) => Node::And(Box::new(copy_node(a)), Box::new(copy_node(b))),
        Node::Or(a, b) => Node::Or(Box::new(copy_node(a)), Box::new(copy_node(b))),
        Node::Not(a) => Node::Not(Box::new(copy_node(a))),
        Node::Word(s) => Node::Word(s.clone()),
        Node::Field(name, term) => Node::Field(name.clone(), term.clone()),
        Node::Compare(field, op, value) => Node::Compare(field.clone(), *op, value.clone()),
        Node::Range(field, low, high) => Node::Range(field.clone(), low.clone(), high.clone()),
        Node::Function(name, args) => Node::Function(name.clone(), copy_strings(args)),
        Node::Modified(inner, mods) => Node::Modified(
            Box::new(copy_node(inner)),
            copy_strings(mods),
        ),
        Node::Regex(s) => Node::Regex(s.clone()),
        Node::Group(a) => Node::Group(Box::new(copy_node(a))),
    }
}

impl Clone for Node {
    fn clone(&self) -> (r: Node)
        ensures
            r@ == self@,
    {
        copy_node(self)
    }
}

} // verus!
