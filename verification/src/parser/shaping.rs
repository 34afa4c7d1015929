//! The tree shapings, one function for each.

use vstd::prelude::*;
use crate::ast::{Ast, Node};
use crate::parser::{operated, reduced, wrapped, Shaping};
use crate::tokens::Tok;
use crate::tree::{
    lemma_node_view, lemma_trees_concat, lemma_trees_drop_last, lemma_trees_push, AstView, Tree,
};

verus! {

/// Takes the top node off the stack.
fn pop_node(ast: &mut Ast) -> (node: Node)
    requires
        old(ast)@.stack.len() >= 1,
    ensures
        node@ == old(ast)@.peek(0),
        final(ast)@ == old(ast)@.popped(1),
        final(ast).symbol_table == old(ast).symbol_table,
        final(ast).node_counter == old(ast).node_counter,
{
    proof {
        lemma_trees_drop_last(ast.node_stack@);
        assert(ast.node_stack@.drop_last() =~= ast.node_stack@.take(ast.node_stack@.len() - 1));
        assert(ast@.stack.drop_last() =~= ast@.stack.take(ast@.stack.len() - 1));
    }
    ast.node_stack.pop().unwrap()
}

/// Puts a node on the stack.
fn push_back(ast: &mut Ast, node: Node)
    ensures
        final(ast)@ == old(ast)@.pushed(node@),
        final(ast).symbol_table == old(ast).symbol_table,
        final(ast).node_counter == old(ast).node_counter,
{
    proof {
        lemma_trees_push(ast.node_stack@, node);
    }
    ast.node_stack.push(node);
}

/// Makes `child` the next child of `parent`.
fn adopt(parent: &mut Node, child: Node)
    ensures
        final(parent)@ == (Tree { children: old(parent)@.children.push(child@), ..old(parent)@ }),
{
    proof {
        lemma_node_view(*parent);
        lemma_trees_push(parent.children@, child);
    }
    parent.children.push(child);
    proof {
        lemma_node_view(*parent);
    }
}

/// Moves the children of `from` behind those of `parent`.
fn adopt_all(parent: &mut Node, from: Node)
    ensures
        final(parent)@ == (Tree {
            children: old(parent)@.children + from@.children,
            ..old(parent)@
        }),
{
    let mut from = from;
    proof {
        lemma_node_view(*parent);
        lemma_node_view(from);
        lemma_trees_concat(parent.children@, from.children@);
    }
    parent.children.append(&mut from.children);
    proof {
        lemma_node_view(*parent);
    }
}

proof fn lemma_popped_twice(ast: AstView, a: int, b: int)
    requires
        0 <= a,
        0 <= b,
        a + b <= ast.stack.len(),
    ensures
        ast.popped(a).popped(b) == ast.popped(a + b),
        b < ast.stack.len() - a ==> ast.popped(a).peek(b) == ast.peek(a + b),
{
    assert(ast.popped(a).popped(b).stack =~= ast.popped(a + b).stack);
}

impl Ast {
    /// List append: the element below the list becomes the list's next
    /// child.
    pub fn shape_append(&mut self)
        requires
            old(self)@.stack.len() >= 2,
        ensures
            final(self)@ == reduced(old(self)@, Shaping::Append),
    {
        let mut list = pop_node(self);
        let elem = pop_node(self);
        adopt(&mut list, elem);
        push_back(self, list);
        proof {
            lemma_popped_twice(old(self)@, 1, 1);
        }
    }

    /// A fresh node of the given kind over the top node.
    pub fn shape_single(&mut self, kind: Tok)
        requires
            old(self)@.stack.len() >= 1,
            old(self)@.counter < usize::MAX,
        ensures
            final(self)@ == wrapped(old(self)@, kind),
    {
        let elem = pop_node(self);
        let mut list = self.new_node(kind, None);
        proof {
            assert(self@.stack == old(self)@.popped(1).stack);
        }
        adopt(&mut list, elem);
        assert(list@.children =~= seq![elem@]);
        push_back(self, list);
    }

    /// A function declaration from name, parameter list and body.
    pub fn shape_func_decl(&mut self)
        requires
            old(self)@.stack.len() >= 3,
        ensures
            final(self)@ == reduced(old(self)@, Shaping::FuncDecl),
    {
        let stmts = pop_node(self);
        let var_list = pop_node(self);
        let mut var = pop_node(self);
        proof {
            lemma_popped_twice(old(self)@, 1, 1);
            lemma_popped_twice(old(self)@, 2, 1);
        }
        adopt_all(&mut var, stmts);
        adopt(&mut var, var_list);
        proof {
            lemma_node_view(var);
        }
        var.token = Tok::FuncDecl;
        proof {
            lemma_node_view(var);
        }
        push_back(self, var);
    }

    /// An assignment from variable, assignment node and expression.
    pub fn shape_var_decl(&mut self)
        requires
            old(self)@.stack.len() >= 3,
        ensures
            final(self)@ == reduced(old(self)@, Shaping::VarDecl),
    {
        let expr = pop_node(self);
        let mut eq = pop_node(self);
        let var = pop_node(self);
        proof {
            lemma_popped_twice(old(self)@, 1, 1);
            lemma_popped_twice(old(self)@, 2, 1);
            lemma_node_view(eq);
            lemma_node_view(var);
        }
        eq.val = var.val;
        proof {
            lemma_node_view(eq);
        }
        adopt(&mut eq, expr);
        push_back(self, eq);
    }

    /// A call from name and argument list.
    pub fn shape_call(&mut self)
        requires
            old(self)@.stack.len() >= 2,
        ensures
            final(self)@ == reduced(old(self)@, Shaping::Call),
    {
        let expr_list = pop_node(self);
        let mut var = pop_node(self);
        proof {
            lemma_popped_twice(old(self)@, 1, 1);
            lemma_node_view(var);
        }
        var.token = Tok::FuncCall;
        proof {
            lemma_node_view(var);
        }
        adopt_all(&mut var, expr_list);
        push_back(self, var);
    }

    /// An operator applied to two operands: folded if both are literals.
    pub fn shape_binop(&mut self)
        requires
            old(self)@.stack.len() >= 3,
            old(self)@.counter < usize::MAX,
        ensures
            final(self)@ == operated(old(self)@),
    {
        let right_expr = pop_node(self);
        let mut op = pop_node(self);
        let left_expr = pop_node(self);
        proof {
            lemma_popped_twice(old(self)@, 1, 1);
            lemma_popped_twice(old(self)@, 2, 1);
            lemma_node_view(left_expr);
            lemma_node_view(right_expr);
            lemma_node_view(op);
        }
        if left_expr.has_const_val() && right_expr.has_const_val() {
            self.synthesize_expr(op.token, left_expr.val.unwrap(), right_expr.val.unwrap());
        } else {
            adopt(&mut op, right_expr);
            adopt(&mut op, left_expr);
            push_back(self, op);
        }
    }
}

} // verus!
