//! Syntax trees: atoms and parenthesized forms.
use crate::number::is_float_literal;
use vstd::prelude::*;

verus! {

/// A terminal of the syntax: a name, or a numeric literal kept as written.
#[derive(Debug)]
pub enum Node {
    Symbol(String),
    Number(String),
}

/// A syntax node: a terminal or a parenthesized form with its children in
/// source order.
#[derive(Debug)]
pub enum AstNode {
    Leaf(Node),
    Body(Vec<AstNode>),
}

/// The mathematical content of a [`Node`].
pub enum Atom {
    Symbol(Seq<char>),
    Number(Seq<char>),
}

/// The mathematical content of an [`AstNode`].
pub enum Tree {
    Leaf(Atom),
    Body(Seq<Tree>),
}

/// A number atom holds a floating-point literal.
pub open spec fn atom_numeric(atom: Atom) -> bool {
    atom matches Atom::Number(text) ==> is_float_literal(text)
}

/// Every number leaf of `tree` holds a floating-point literal.
pub open spec fn tree_numeric(tree: Tree) -> bool
    decreases tree,
{
    match tree {
        Tree::Leaf(atom) => atom_numeric(atom),
        Tree::Body(children) => forall|i: int|
            0 <= i < children.len() ==> tree_numeric(#[trigger] children[i]),
    }
}

/// Every number leaf of every tree of `forest` holds a floating-point
/// literal.
pub open spec fn forest_numeric(forest: Seq<Tree>) -> bool {
    forall|i: int| 0 <= i < forest.len() ==> tree_numeric(#[trigger] forest[i])
}

impl View for Node {
    type V = Atom;

    open spec fn view(&self) -> Atom {
        match self {
            Node::Symbol(name) => Atom::Symbol(name@),
            Node::Number(text) => Atom::Number(text@),
        }
    }
}

/// The tree that `node` denotes.
pub open spec fn tree_of(node: AstNode) -> Tree
    decreases node,
{
    match node {
        AstNode::Leaf(n) => Tree::Leaf(n@),
        AstNode::Body(children) => Tree::Body(
            Seq::new(
                children@.len(),
                |i: int|
                    if 0 <= i < children@.len() {
                        tree_of(children@[i])
                    } else {
                        Tree::Body(Seq::empty())
                    },
            ),
        ),
    }
}

/// The trees that the nodes of `nodes` denote, in order.
pub open spec fn forest_of(nodes: Seq<AstNode>) -> Seq<Tree> {
    Seq::new(nodes.len(), |i: int| tree_of(nodes[i]))
}

impl View for AstNode {
    type V = Tree;

    open spec fn view(&self) -> Tree {
        tree_of(*self)
    }
}

/// The view of a form is the form of its children's views.
pub proof fn lemma_body_view(children: Vec<AstNode>)
    ensures
        AstNode::Body(children)@ == Tree::Body(forest_of(children@)),
{
    assert(tree_of(AstNode::Body(children))->Body_0 =~= forest_of(children@));
}

impl Node {
    /// The name of a symbol.
    pub fn unwrap_symbol(&self) -> (name: &String)
        requires
            self is Symbol,
        ensures
            self@ == Atom::Symbol(name@),
    {
        match self {
            Node::Symbol(name) => name,
            Node::Number(_) => vstd::pervasive::unreached(),
        }
    }
}

impl AstNode {
    /// Appends `child` to a form.
    pub fn push(&mut self, child: AstNode)
        requires
            *old(self) is Body,
        ensures
            final(self)@ == Tree::Body(old(self)@->Body_0.push(child@)),
    {
        match self {
            AstNode::Body(children) => {
                proof {
                    lemma_body_view(*children);
                }
                let ghost before = children@;
                children.push(child);
                proof {
                    lemma_body_view(*children);
                    assert(forest_of(children@) =~= forest_of(before).push(child@));
                }
            },
            AstNode::Leaf(_) => {},
        }
    }

    /// The terminal of a leaf.
    pub fn unwrap_leaf(&self) -> (node: &Node)
        requires
            self is Leaf,
        ensures
            self@ == Tree::Leaf(node@),
    {
        match self {
            AstNode::Leaf(node) => node,
            AstNode::Body(_) => vstd::pervasive::unreached(),
        }
    }

    /// The children of a form.
    pub fn unwrap_body(&self) -> (children: &Vec<AstNode>)
        requires
            self is Body,
        ensures
            self@ == Tree::Body(forest_of(children@)),
    {
        match self {
            AstNode::Body(children) => {
                proof {
                    lemma_body_view(*children);
                }
                children
            },
            AstNode::Leaf(_) => vstd::pervasive::unreached(),
        }
    }
}

} // verus!
