//! The walk over the finished tree: for every node the pre-hook, then the
//! children in reverse of stored order, then the post-hook.

use vstd::prelude::*;
use crate::ast::{Ast, Node, NodeVal};
use crate::generator::{
    bodies_done, body_of, closed, decl_lines, func_bodies, inline_code, inline_done,
    lemma_append_nothing, post_lines, resolvable, shaped, well_shaped, GenState, Generator,
};
use crate::ir::Line;
use crate::tokens::Tok;
use crate::tree::{lemma_node_view, trees};

verus! {

/// Why a tree was not generated.
#[derive(Debug, Clone, Copy, PartialEq, Eq, Structural)]
pub enum GenError {
    /// The node stack holds no root.
    EmptyTree,
    /// Some node lacks an operand that its instruction needs, or an operand
    /// carries a value that no instruction can express.
    Malformed,
}

/// Generating one more child: the child's lines and bodies follow those of
/// the children before it.
pub proof fn lemma_emit_step(
    base: GenState,
    lines: Seq<Line>,
    bodies: Seq<Seq<Line>>,
    more_lines: Seq<Line>,
    more_bodies: Seq<Seq<Line>>,
)
    requires
        base.contexts_ok(),
    ensures
        base.append(lines).register(bodies).append(more_lines).register(more_bodies)
            == base.append(lines + more_lines).register(bodies + more_bodies),
{
    let one = base.append(lines).register(bodies).append(more_lines).register(more_bodies);
    let other = base.append(lines + more_lines).register(bodies + more_bodies);
    assert(one.code =~= other.code);
    if base.open.len() > 0 {
        let f = base.open.last();
        assert((base.funcs[f] + lines) + more_lines =~= base.funcs[f] + (lines + more_lines));
    }
    assert(one.funcs =~= other.funcs);
}

/// Generating a function declaration: the body that was opened, filled and
/// closed stands in the table before the bodies that were declared inside
/// it, and the enclosing context is as before.
pub proof fn lemma_decl_emission(
    st: GenState,
    label: usize,
    lines: Seq<Line>,
    bodies: Seq<Seq<Line>>,
)
    requires
        st.contexts_ok(),
    ensures
        st.enter().append(seq![Line::Label(label)]).append(lines).register(
            bodies,
        ).close_innermost() == st.register(
            seq![closed(seq![Line::Label(label)] + lines)] + bodies,
        ),
{
    let fresh = st.funcs.len() as int;
    let opened = st.enter().append(seq![Line::Label(label)]);
    let filled = opened.append(lines).register(bodies);
    let done = filled.close_innermost();
    let body = seq![Line::Label(label)] + lines;
    let want = st.register(seq![closed(body)] + bodies);
    assert(opened.open.last() == fresh);
    assert(opened.funcs[fresh] =~= seq![Line::Label(label)]);
    assert(filled.innermost() =~= body);
    assert(done.funcs[fresh] =~= closed(body));
    assert(done.open =~= want.open);
    assert(done.funcs =~= want.funcs);
    assert(done.code =~= want.code);
}

impl Node {
    /// Whether the node can stand as an operand.
    fn is_resolvable(&self) -> (ok: bool)
        ensures
            ok == resolvable(self@),
    {
        proof {
            lemma_node_view(*self);
        }
        match self.token {
            Tok::FuncCall => return true,
            _ => {},
        }
        match &self.val {
            Some(NodeVal::Float(_)) | Some(NodeVal::Bool(_)) => false,
            _ => true,
        }
    }

    /// Whether the node itself has the shape that its post-hook needs.
    fn is_shaped(&self) -> (ok: bool)
        ensures
            ok == shaped(self@),
    {
        proof {
            lemma_node_view(*self);
        }
        match self.token {
            Tok::Plus | Tok::Minus => self.children.len() >= 2 && self.children[0].is_resolvable()
                && self.children[1].is_resolvable(),
            Tok::Eq => match &self.val {
                Some(NodeVal::Sym(_)) => self.children.len() >= 1
                    && self.children[0].is_resolvable(),
                _ => true,
            },
            Tok::ReturnKW => self.children.len() >= 1 && self.children[0].is_resolvable(),
            Tok::FuncCall => {
                let n: usize = self.children.len();
                let mut i: usize = 0;
                while i < n
                    invariant
                        i <= n,
                        n == self.children@.len(),
                        self.token == Tok::FuncCall,
                        self@.token == Tok::FuncCall,
                        self@.children == trees(self.children@),
                        forall|k: int| 0 <= k < i ==> resolvable(self@.children[k]),
                    decreases n - i,
                {
                    assert(self@.children[i as int] == self.children@[i as int]@);
                    if !self.children[i].is_resolvable() {
                        return false;
                    }
                    i += 1;
                }
                true
            },
            _ => true,
        }
    }

    /// Whether every node of this tree has the shape that generation needs:
    /// an operator has two operands, an assignment to a symbol and a return
    /// have one, and no operand carries a `Float` or a `Bool`.
    pub fn is_well_shaped(&self) -> (ok: bool)
        ensures
            ok == well_shaped(self@),
        decreases self,
    {
        proof {
            lemma_node_view(*self);
        }
        if !self.is_shaped() {
            return false;
        }
        let n: usize = self.children.len();
        let mut i: usize = 0;
        while i < n
            invariant
                i <= n,
                n == self.children@.len(),
                self@.children == trees(self.children@),
                forall|k: int| 0 <= k < i ==> well_shaped(#[trigger] self@.children[k]),
            decreases n - i,
        {
            assert(self@.children[i as int] == self.children@[i as int]@);
            if !self.children[i].is_well_shaped() {
                return false;
            }
            i += 1;
        }
        true
    }

    /// Generates this subtree: the lines that it contributes go to the
    /// context that is innermost on entry, the bodies of the functions that
    /// it declares go to the end of the function table.
    pub fn traverse(&self, generator: &mut Generator)
        requires
            well_shaped(self@),
            old(generator)@.wf(),
        ensures
            final(generator)@ == old(generator)@.emit(self@),
            final(generator)@.wf(),
        decreases self,
    {
        proof {
            lemma_node_view(*self);
        }
        self.enter_node(generator);
        let ghost base = generator@;
        let mut i: usize = self.children.len();
        proof {
            lemma_append_nothing(base);
            assert(base.register(Seq::empty()).funcs =~= base.funcs);
        }
        while i > 0
            invariant
                i <= self.children@.len(),
                well_shaped(self@),
                self@.children == trees(self.children@),
                base.contexts_ok(),
                generator@ == base.append(inline_done(self@, i as int)).register(
                    bodies_done(self@, i as int),
                ),
                generator@.wf(),
            decreases i,
        {
            i -= 1;
            assert(self@.children[i as int] == self.children@[i as int]@);
            self.children[i].traverse(generator);
            proof {
                lemma_emit_step(
                    base,
                    inline_done(self@, i + 1),
                    bodies_done(self@, i + 1),
                    inline_code(self@.children[i as int]),
                    func_bodies(self@.children[i as int]),
                );
            }
        }
        self.leave_node(generator);
        proof {
            let start = old(generator)@;
            let lines = inline_done(self@, 0);
            let bodies = bodies_done(self@, 0);
            if self.token == Tok::FuncDecl {
                let bound = start.append(decl_lines(self@));
                lemma_decl_emission(bound, self.id, lines, bodies);
                assert(body_of(self@) == closed(seq![Line::Label(self.id)] + lines));
            } else {
                lemma_emit_step(start, lines, bodies, post_lines(self@), Seq::empty());
                assert(bodies + Seq::<Seq<Line>>::empty() =~= bodies);
            }
        }
    }

    /// The pre-hook: a function declaration opens its body.
    fn enter_node(&self, generator: &mut Generator)
        requires
            old(generator)@.wf(),
        ensures
            final(generator)@.wf(),
            final(generator)@ == if self.token == Tok::FuncDecl {
                old(generator)@.append(decl_lines(self@)).enter().append(
                    seq![Line::Label(self.id)],
                )
            } else {
                old(generator)@
            },
    {
        match self.token {
            Tok::FuncDecl => {
                generator.gen_func_enter(self);
            },
            _ => {},
        }
    }

    /// The post-hook, by node kind.
    fn leave_node(&self, generator: &mut Generator)
        requires
            old(generator)@.wf(),
            shaped(self@),
            self.token == Tok::FuncDecl ==> old(generator)@.open.len() > 0,
        ensures
            final(generator)@.wf(),
            final(generator)@ == if self.token == Tok::FuncDecl {
                old(generator)@.close_innermost()
            } else {
                old(generator)@.append(post_lines(self@))
            },
    {
        proof {
            lemma_node_view(*self);
        }
        match self.token {
            Tok::Plus | Tok::Minus => generator.gen_expr(self),
            Tok::Eq => generator.gen_decl(self),
            Tok::ReturnKW => generator.gen_return(self),
            Tok::FuncDecl => generator.gen_func_leave(),
            Tok::FuncCall => generator.gen_func_call(self),
            Tok::VarList => generator.gen_var_list(self),
            _ => {
                proof {
                    lemma_append_nothing(generator@);
                }
            },
        }
    }
}

impl Ast {
    /// Generates the program whose root is the bottom of the node stack.
    /// Fails, leaving the generator as it was, if there is no root or if the
    /// tree is not well shaped.
    pub fn traverse(&self, generator: &mut Generator) -> (done: Result<(), GenError>)
        requires
            old(generator)@.wf(),
        ensures
            final(generator)@.wf(),
            match done {
                Ok(_) => {
                    &&& self@.stack.len() > 0
                    &&& well_shaped(self@.stack[0])
                    &&& final(generator)@ == old(generator)@.emit(self@.stack[0])
                },
                Err(GenError::EmptyTree) => {
                    &&& self@.stack.len() == 0
                    &&& final(generator)@ == old(generator)@
                },
                Err(GenError::Malformed) => {
                    &&& self@.stack.len() > 0
                    &&& !well_shaped(self@.stack[0])
                    &&& final(generator)@ == old(generator)@
                },
            },
    {
        if self.node_stack.len() == 0 {
            return Err(GenError::EmptyTree);
        }
        if !self.node_stack[0].is_well_shaped() {
            return Err(GenError::Malformed);
        }
        self.node_stack[0].traverse(generator);
        Ok(())
    }
}

} // verus!
