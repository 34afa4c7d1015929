//! The mathematical model of the syntax tree and of the tree under
//! construction.

use vstd::prelude::*;
use crate::ast::{Ast, Node, NodeVal};
use crate::tokens::Tok;

verus! {

/// A node value: as `NodeVal`, with a string as its characters.
pub enum Val {
    Int(i32),
    Float(u64),
    Str(Seq<char>),
    Bool(bool),
    Sym(usize),
}

/// A tree: as `Node`, with the children as a sequence.
pub struct Tree {
    pub token: Tok,
    pub id: usize,
    pub children: Seq<Tree>,
    pub val: Option<Val>,
}

/// The tree under construction: the node stack, the names of the symbol
/// table by id, and the id given to the node made last.
pub struct AstView {
    pub stack: Seq<Tree>,
    pub names: Seq<Seq<char>>,
    pub counter: usize,
}

impl View for NodeVal {
    type V = Val;

    open spec fn view(&self) -> Val {
        match *self {
            NodeVal::Int(i) => Val::Int(i),
            NodeVal::Float(bits) => Val::Float(bits),
            NodeVal::String(s) => Val::Str(s@),
            NodeVal::Bool(b) => Val::Bool(b),
            NodeVal::Sym(s) => Val::Sym(s),
        }
    }
}

/// The model of an optional node value.
pub open spec fn val_view(val: Option<NodeVal>) -> Option<Val> {
    match val {
        Some(v) => Some(v@),
        None => None,
    }
}

/// The models of the nodes of a sequence.
pub open spec fn trees(nodes: Seq<Node>) -> Seq<Tree> {
    Seq::new(nodes.len(), |i: int| nodes[i]@)
}

impl Node {
    /// The tree that this node is the root of.
    pub open spec fn tree(&self) -> Tree
        decreases self,
    {
        Tree {
            token: self.token,
            id: self.id,
            children: Seq::new(
                self.children@.len(),
                |i: int|
                    if 0 <= i < self.children@.len() {
                        self.children@[i].tree()
                    } else {
                        arbitrary()
                    },
            ),
            val: val_view(self.val),
        }
    }
}

impl View for Node {
    type V = Tree;

    open spec fn view(&self) -> Tree {
        self.tree()
    }
}

impl View for Ast {
    type V = AstView;

    open spec fn view(&self) -> AstView {
        AstView {
            stack: trees(self.node_stack@),
            names: self.names(),
            counter: self.node_counter,
        }
    }
}

/// A node's model is made of its own fields and the models of its children.
pub proof fn lemma_node_view(n: Node)
    ensures
        n@ == (Tree {
            token: n.token,
            id: n.id,
            children: trees(n.children@),
            val: val_view(n.val),
        }),
{
    assert(n@.children.len() == n.children@.len());
    assert forall|i: int| 0 <= i < n.children@.len() implies n@.children[i] == trees(
        n.children@,
    )[i] by {}
    assert(n@.children =~= trees(n.children@));
}

/// The models of a sequence with one more node.
pub proof fn lemma_trees_push(nodes: Seq<Node>, n: Node)
    ensures
        trees(nodes.push(n)) == trees(nodes).push(n@),
{
    assert(trees(nodes.push(n)) =~= trees(nodes).push(n@));
}

/// The models of a sequence without its last node.
pub proof fn lemma_trees_drop_last(nodes: Seq<Node>)
    requires
        nodes.len() > 0,
    ensures
        trees(nodes.drop_last()) == trees(nodes).drop_last(),
        trees(nodes).last() == nodes.last()@,
{
    assert(trees(nodes.drop_last()) =~= trees(nodes).drop_last());
}

/// The models of two sequences joined.
pub proof fn lemma_trees_concat(front: Seq<Node>, back: Seq<Node>)
    ensures
        trees(front + back) == trees(front) + trees(back),
{
    assert(trees(front + back) =~= trees(front) + trees(back));
}

impl Tree {
    /// A childless tree.
    pub open spec fn leaf(token: Tok, id: usize, val: Option<Val>) -> Tree {
        Tree { token, id, children: Seq::empty(), val }
    }

    /// Whether the root carries a literal: any value but a symbol.
    pub open spec fn is_const(self) -> bool {
        match self.val {
            Some(Val::Sym(_)) | None => false,
            _ => true,
        }
    }
}

impl AstView {
    /// The state after making a childless node with the next id and pushing
    /// it.
    pub open spec fn push_leaf(self, token: Tok, val: Option<Val>) -> AstView {
        AstView {
            stack: self.stack.push(Tree::leaf(token, (self.counter + 1) as usize, val)),
            counter: (self.counter + 1) as usize,
            ..self
        }
    }

    /// The state with the top `n` nodes taken off the stack.
    pub open spec fn popped(self, n: int) -> AstView {
        AstView { stack: self.stack.take(self.stack.len() - n), ..self }
    }

    /// The state with one more node on the stack.
    pub open spec fn pushed(self, tree: Tree) -> AstView {
        AstView { stack: self.stack.push(tree), ..self }
    }

    /// The node that lies `depth` below the top of the stack.
    pub open spec fn peek(self, depth: int) -> Tree {
        self.stack[self.stack.len() - 1 - depth]
    }
}

} // verus!
