//! The generator: what every kind of node emits, into the top-level stream
//! or into the body of the innermost open function.

use vstd::prelude::*;
use crate::ast::{Node, NodeVal};
use crate::ir::{lines, FnID, IRline, IRop, IRval, LabelID, Line, Operand};
use crate::tokens::Tok;
use crate::tree::{lemma_node_view, trees, Tree, Val};

verus! {

/// The body of one declared function.
#[derive(Debug)]
pub struct FuncDef {
    pub code: Vec<IRline>,
}

/// The generator's state. `func_stack` holds the indices of the functions
/// whose bodies are being emitted, innermost last.
#[derive(Debug)]
pub struct Generator {
    pub code: Vec<IRline>,
    pub funcs: Vec<FuncDef>,
    pub func_stack: Vec<FnID>,
}

/// The generator's state as sequences.
pub struct GenState {
    /// The top-level stream.
    pub code: Seq<Line>,
    /// The function table: one body per declared function.
    pub funcs: Seq<Seq<Line>>,
    /// The open function contexts, innermost last.
    pub open: Seq<int>,
}

impl View for Generator {
    type V = GenState;

    open spec fn view(&self) -> GenState {
        GenState {
            code: lines(self.code@),
            funcs: Seq::new(self.funcs@.len(), |i: int| lines(self.funcs@[i].code@)),
            open: self.func_stack@.map_values(|f: FnID| f as int),
        }
    }
}

/// Some function body holds `Label(id)`.
pub open spec fn has_label(funcs: Seq<Seq<Line>>, id: usize) -> bool {
    exists|f: int, k: int|
        0 <= f < funcs.len() && 0 <= k < funcs[f].len() && #[trigger] funcs[f][k] == Line::Label(
            id,
        )
}

/// The line holds a function reference at most as the source of a `Load`,
/// and then it names a function whose entry label exists.
pub open spec fn fn_ref_labelled(funcs: Seq<Seq<Line>>, line: Line) -> bool {
    &&& line.tidy()
    &&& match line {
        Line::Load(Operand::Fn(id), _) => has_label(funcs, id),
        _ => true,
    }
}

/// No line of the sequence holds a function reference.
pub open spec fn plain(lines: Seq<Line>) -> bool {
    forall|k: int|
        0 <= k < lines.len() ==> (#[trigger] lines[k]).tidy() && !(lines[k] matches Line::Load(
            Operand::Fn(_),
            _,
        ))
}

impl GenState {
    /// Every open context is a function of the table, and the contexts were
    /// opened in table order.
    pub open spec fn contexts_ok(self) -> bool {
        &&& forall|i: int|
            0 <= i < self.open.len() ==> 0 <= (#[trigger] self.open[i]) < self.funcs.len()
        &&& forall|i: int, j: int|
            0 <= i < j < self.open.len() ==> (#[trigger] self.open[i]) < (#[trigger] self.open[j])
    }

    /// Every load of a function reference, anywhere, names a labelled
    /// function.
    pub open spec fn refs_ok(self) -> bool {
        &&& forall|k: int|
            0 <= k < self.code.len() ==> fn_ref_labelled(self.funcs, #[trigger] self.code[k])
        &&& forall|f: int, k: int|
            0 <= f < self.funcs.len() && 0 <= k < self.funcs[f].len() ==> fn_ref_labelled(
                self.funcs,
                #[trigger] self.funcs[f][k],
            )
    }

    /// Every function that is not open ends with a `Return`.
    pub open spec fn closed_ok(self) -> bool {
        forall|f: int|
            0 <= f < self.funcs.len() && !self.open.contains(f) ==> {
                &&& (#[trigger] self.funcs[f]).len() > 0
                &&& self.funcs[f].last().is_return()
            }
    }

    /// The invariant that generation keeps.
    pub open spec fn wf(self) -> bool {
        &&& self.contexts_ok()
        &&& self.refs_ok()
        &&& self.closed_ok()
    }

    /// The state after emitting `lines` into the innermost open function,
    /// or into the top-level stream if no function is open.
    pub open spec fn append(self, lines: Seq<Line>) -> GenState {
        if self.open.len() == 0 {
            GenState { code: self.code + lines, ..self }
        } else {
            let f = self.open.last();
            GenState { funcs: self.funcs.update(f, self.funcs[f] + lines), ..self }
        }
    }

    /// The state after adding finished function bodies to the table.
    pub open spec fn register(self, bodies: Seq<Seq<Line>>) -> GenState {
        GenState { funcs: self.funcs + bodies, ..self }
    }

    /// The state after opening a new, empty function context.
    pub open spec fn enter(self) -> GenState {
        GenState {
            funcs: self.funcs.push(Seq::empty()),
            open: self.open.push(self.funcs.len() as int),
            ..self
        }
    }

    /// The state after closing the innermost context.
    pub open spec fn leave(self) -> GenState {
        GenState { open: self.open.drop_last(), ..self }
    }
}

/// The state in which generation starts: the top-level stream binds symbol 0
/// to the builtin `print`, whose body is the first function of the table.
pub open spec fn initial_state() -> GenState {
    GenState {
        code: seq![Line::Load(Operand::Fn(0), Operand::Sym(0))],
        funcs: seq![seq![Line::Label(0), Line::Print(Operand::Arg), Line::Return(Operand::Nil)]],
        open: Seq::empty(),
    }
}

/// Growing a body at its end, or the table at its end, keeps every label.
pub proof fn lemma_has_label_grows(
    before: Seq<Seq<Line>>,
    after: Seq<Seq<Line>>,
    id: usize,
)
    requires
        has_label(before, id),
        before.len() <= after.len(),
        forall|f: int|
            0 <= f < before.len() ==> (#[trigger] before[f]).len() <= after[f].len()
                && after[f].subrange(0, before[f].len() as int) == before[f],
    ensures
        has_label(after, id),
{
    let (f, k) = choose|f: int, k: int|
        0 <= f < before.len() && 0 <= k < before[f].len() && #[trigger] before[f][k]
            == Line::Label(id);
    assert(before[f].len() <= after[f].len());
    assert(after[f].subrange(0, before[f].len() as int)[k] == after[f][k]);
    assert(after[f][k] == Line::Label(id));
}

/// Emitting lines that load no function reference keeps the invariant.
pub proof fn lemma_append_plain_wf(st: GenState, lines: Seq<Line>)
    requires
        st.wf(),
        plain(lines),
    ensures
        st.append(lines).wf(),
{
    let after = st.append(lines);
    assert forall|f: int| 0 <= f < st.funcs.len() implies (#[trigger] st.funcs[f]).len()
        <= after.funcs[f].len() && after.funcs[f].subrange(0, st.funcs[f].len() as int)
        == st.funcs[f] by {
        assert(after.funcs[f].subrange(0, st.funcs[f].len() as int) =~= st.funcs[f]);
    }
    assert forall|line: Line| fn_ref_labelled(st.funcs, line) implies fn_ref_labelled(
        after.funcs,
        line,
    ) by {
        match line {
            Line::Load(Operand::Fn(id), _) => {
                lemma_has_label_grows(st.funcs, after.funcs, id);
            },
            _ => {},
        }
    }
    assert forall|k: int| 0 <= k < after.code.len() implies fn_ref_labelled(
        after.funcs,
        #[trigger] after.code[k],
    ) by {
        if k < st.code.len() {
            assert(after.code[k] == st.code[k]);
            assert(fn_ref_labelled(st.funcs, st.code[k]));
        } else {
            assert(after.code[k] == lines[k - st.code.len()]);
        }
    }
    assert forall|f: int, k: int|
        0 <= f < after.funcs.len() && 0 <= k < after.funcs[f].len() implies fn_ref_labelled(
        after.funcs,
        #[trigger] after.funcs[f][k],
    ) by {
        if k < st.funcs[f].len() {
            assert(after.funcs[f].subrange(0, st.funcs[f].len() as int)[k] == after.funcs[f][k]);
            assert(fn_ref_labelled(st.funcs, st.funcs[f][k]));
        } else {
            assert(after.funcs[f][k] == lines[k - st.funcs[f].len()]);
        }
    }
    assert forall|f: int|
        0 <= f < after.funcs.len() && !after.open.contains(f) implies {
        &&& (#[trigger] after.funcs[f]).len() > 0
        &&& after.funcs[f].last().is_return()
    } by {
        assert(st.funcs[f].len() > 0);
        if st.open.len() > 0 && f == st.open.last() {
            assert(st.open[st.open.len() - 1] == f);
            assert(st.open.contains(f));
        }
        assert(after.funcs[f] == st.funcs[f]);
    }
}


/// The operator of an operator node.
pub open spec fn ir_op_of(tok: Tok) -> IRop {
    if tok == Tok::Minus {
        IRop::Minus
    } else {
        IRop::Plus
    }
}

/// Whether a node can stand as an operand: a call, or a node without a
/// value, or one whose value the instructions can express.
pub open spec fn resolvable(n: Tree) -> bool {
    n.token == Tok::FuncCall || !(n.val matches Some(Val::Float(_)) || n.val matches Some(
        Val::Bool(_),
    ))
}

/// The operand that stands for a node: the temporary of a call or of a node
/// without a value, else the node's literal or symbol.
pub open spec fn resolved(n: Tree) -> Operand {
    if n.token == Tok::FuncCall {
        Operand::Temp(n.id)
    } else {
        match n.val {
            None => Operand::Temp(n.id),
            Some(Val::Int(i)) => Operand::Int(i),
            Some(Val::Sym(s)) => Operand::Sym(s),
            Some(Val::Str(s)) => Operand::Text(s),
            Some(_) => Operand::Nil,
        }
    }
}

/// The pushes of a call's arguments: one per child among the first `upto`,
/// in stored order.
pub open spec fn arg_loads(args: Seq<Tree>, upto: int) -> Seq<Line> {
    Seq::new(upto as nat, |k: int| Line::Load(resolved(args[k]), Operand::Arg))
}

/// What one parameter contributes to a prologue.
pub open spec fn param_load(param: Tree) -> Seq<Line> {
    match param.val {
        Some(Val::Sym(s)) => seq![Line::Load(Operand::Arg, Operand::Sym(s))],
        _ => Seq::empty(),
    }
}

/// The pops of a prologue for the parameters stored at `from` and after,
/// last stored first.
pub open spec fn param_loads(params: Seq<Tree>, from: int) -> Seq<Line>
    decreases params.len() - from,
{
    if from < 0 || from >= params.len() {
        Seq::empty()
    } else {
        param_loads(params, from + 1) + param_load(params[from])
    }
}

/// The call instruction of a call node.
pub open spec fn call_line(n: Tree) -> Seq<Line> {
    match n.val {
        Some(Val::Sym(s)) => seq![Line::Call(Operand::Temp(n.id), Operand::Sym(s))],
        _ => Seq::empty(),
    }
}

/// What the post-hook emits for a node other than a function declaration.
pub open spec fn post_lines(n: Tree) -> Seq<Line> {
    match n.token {
        Tok::Plus | Tok::Minus => seq![
            Line::Op(
                Operand::Temp(n.id),
                ir_op_of(n.token),
                resolved(n.children[1]),
                resolved(n.children[0]),
            ),
        ],
        Tok::Eq => match n.val {
            Some(Val::Sym(s)) => seq![Line::Load(resolved(n.children[0]), Operand::Sym(s))],
            _ => Seq::empty(),
        },
        Tok::ReturnKW => seq![Line::Return(resolved(n.children[0]))],
        Tok::FuncCall => arg_loads(n.children, n.children.len() as int) + call_line(n),
        Tok::VarList => param_loads(n.children, 0),
        _ => Seq::empty(),
    }
}

/// What the post-hook needs of a node's own shape.
pub open spec fn shaped(n: Tree) -> bool {
    match n.token {
        Tok::Plus | Tok::Minus => n.children.len() >= 2 && resolvable(n.children[0])
            && resolvable(n.children[1]),
        Tok::Eq => n.val matches Some(Val::Sym(_)) ==> n.children.len() >= 1 && resolvable(
            n.children[0],
        ),
        Tok::ReturnKW => n.children.len() >= 1 && resolvable(n.children[0]),
        Tok::FuncCall => forall|k: int| 0 <= k < n.children.len() ==> resolvable(n.children[k]),
        _ => true,
    }
}

/// Every node of the tree has the shape that generation needs.
pub open spec fn well_shaped(n: Tree) -> bool
    decreases n,
{
    &&& shaped(n)
    &&& forall|k: int| 0 <= k < n.children.len() ==> well_shaped(#[trigger] n.children[k])
}

/// What the pre-hook of a function declaration emits into the enclosing
/// context: the binding of the declared name to the function.
pub open spec fn decl_lines(n: Tree) -> Seq<Line> {
    match n.val {
        Some(Val::Sym(s)) => seq![Line::Load(Operand::Fn(n.id), Operand::Sym(s))],
        _ => Seq::empty(),
    }
}

/// A body with its closing `Return(Nil)`, unless it ends with a `Return`.
pub open spec fn closed(body: Seq<Line>) -> Seq<Line> {
    if body.len() > 0 && body.last().is_return() {
        body
    } else {
        body.push(Line::Return(Operand::Nil))
    }
}

/// The lines that a node contributes to the context that encloses it.
pub open spec fn inline_code(n: Tree) -> Seq<Line>
    decreases n, n.children.len() + 1,
{
    if n.token == Tok::FuncDecl {
        decl_lines(n)
    } else {
        inline_done(n, 0) + post_lines(n)
    }
}

/// The lines that the children stored at `from` and after contribute, last
/// stored (first in the source) first.
pub open spec fn inline_done(n: Tree, from: int) -> Seq<Line>
    decreases n, n.children.len() - from,
{
    if from < 0 || from >= n.children.len() {
        Seq::empty()
    } else {
        inline_done(n, from + 1) + inline_code(n.children[from])
    }
}

/// The body of a declared function: entry label, prologue and statements,
/// and the closing return.
pub open spec fn body_of(n: Tree) -> Seq<Line> {
    closed(seq![Line::Label(n.id)] + inline_done(n, 0))
}

/// The function bodies that a node's subtree adds to the table, in the order
/// in which they are registered.
pub open spec fn func_bodies(n: Tree) -> Seq<Seq<Line>>
    decreases n, n.children.len() + 1,
{
    if n.token == Tok::FuncDecl {
        seq![body_of(n)] + bodies_done(n, 0)
    } else {
        bodies_done(n, 0)
    }
}

/// The function bodies that the children stored at `from` and after add.
pub open spec fn bodies_done(n: Tree, from: int) -> Seq<Seq<Line>>
    decreases n, n.children.len() - from,
{
    if from < 0 || from >= n.children.len() {
        Seq::empty()
    } else {
        bodies_done(n, from + 1) + func_bodies(n.children[from])
    }
}

impl GenState {
    /// The state after generating the subtree of `n`.
    pub open spec fn emit(self, n: Tree) -> GenState {
        self.append(inline_code(n)).register(func_bodies(n))
    }
}

/// The values of a stream with one more instruction.
pub proof fn lemma_lines_push(code: Seq<IRline>, line: IRline)
    ensures
        lines(code.push(line)) == lines(code).push(line@),
{
    assert(lines(code.push(line)) =~= lines(code).push(line@));
}

impl Generator {
    /// Emits `line` into the innermost open function, or into the top-level
    /// stream if none is open.
    fn push_line(&mut self, line: IRline)
        requires
            old(self)@.contexts_ok(),
        ensures
            final(self)@ == old(self)@.append(seq![line@]),
    {
        if self.func_stack.is_empty() {
            proof {
                lemma_lines_push(self.code@, line);
            }
            self.code.push(line);
            assert(self@.code =~= old(self)@.code + seq![line@]);
            assert(self@.funcs =~= old(self)@.funcs);
        } else {
            let top: usize = self.func_stack[self.func_stack.len() - 1];
            assert(top == old(self)@.open[old(self)@.open.len() - 1]);
            let ghost before = self.funcs@;
            proof {
                lemma_lines_push(before[top as int].code@, line);
            }
            self.funcs[top].code.push(line);
            assert(self.funcs@.len() == before.len());
            assert(self.funcs@[top as int].code@ == before[top as int].code@.push(line));
            assert(forall|j: int|
                0 <= j < before.len() && j != top ==> self.funcs@[j] == before[j]);
            assert(lines(before[top as int].code@).push(line@) =~= lines(before[top as int].code@)
                + seq![line@]);
            assert(self@.funcs =~= old(self)@.funcs.update(
                top as int,
                old(self)@.funcs[top as int] + seq![line@],
            ));
        }
    }

    fn push_label(&mut self, label: LabelID)
        requires
            old(self)@.contexts_ok(),
        ensures
            final(self)@ == old(self)@.append(seq![Line::Label(label)]),
    {
        self.push_line(IRline::Label(label));
    }

    /// A generator in the starting state: the builtin `print` is declared and
    /// no function is open.
    pub fn init() -> (generator: Generator)
        ensures
            generator@ == initial_state(),
            generator@.wf(),
    {
        let mut generator = Generator {
            code: Vec::new(),
            funcs: Vec::new(),
            func_stack: Vec::new(),
        };
        assert(generator@.funcs =~= Seq::<Seq<Line>>::empty());
        assert(generator@.code =~= Seq::<Line>::empty());
        generator.init_code();
        generator
    }

    fn init_code(&mut self)
        requires
            old(self)@.code.len() == 0,
            old(self)@.funcs.len() == 0,
            old(self)@.open.len() == 0,
        ensures
            final(self)@ == initial_state(),
            final(self)@.wf(),
    {
        self.create_print_func();
    }

    /// Declares the builtin `print(argument)`: symbol 0 is bound to function
    /// 0, whose body pops one argument, prints it and returns.
    fn create_print_func(&mut self)
        requires
            old(self)@.code.len() == 0,
            old(self)@.funcs.len() == 0,
            old(self)@.open.len() == 0,
        ensures
            final(self)@ == initial_state(),
            final(self)@.wf(),
    {
        self.push_line(IRline::Load(IRval::Fn(0), IRval::Sym(0)));
        let ghost bound = self@;
        self.func_stack.push(self.funcs.len());
        self.funcs.push(FuncDef { code: Vec::new() });
        assert(lines(self.funcs@[0].code@) =~= Seq::<Line>::empty());
        assert(self@.funcs =~= seq![Seq::<Line>::empty()]);
        assert(self@.open =~= seq![0int]);
        assert(self@.code == bound.code);
        self.push_label(0);
        self.push_line(IRline::Print(IRval::Arg));
        self.push_line(IRline::Return(IRval::Nil));
        let ghost filled = self@;
        self.func_stack.pop();
        proof {
            let st = self@;
            let want = initial_state();
            assert(st.code == filled.code);
            assert(st.funcs =~= filled.funcs);
            assert(st.code =~= want.code);
            assert(st.funcs[0] =~= want.funcs[0]);
            assert(st.funcs =~= want.funcs);
            assert(st.open =~= want.open);
            assert(want.funcs[0][0] == Line::Label(0));
            assert(has_label(want.funcs, 0));
        }
    }

    /// Emits the operation of an operator node: the node's temporary
    /// receives the operator applied to the left and the right operand.
    pub fn gen_expr(&mut self, expr_node: &Node)
        requires
            old(self)@.wf(),
            expr_node.token == Tok::Plus || expr_node.token == Tok::Minus,
            shaped(expr_node@),
        ensures
            final(self)@ == old(self)@.append(post_lines(expr_node@)),
            final(self)@.wf(),
    {
        proof {
            lemma_node_view(*expr_node);
        }
        let left_val = Generator::node_val_to_ir_val(&expr_node.children[1]);
        let right_val = Generator::node_val_to_ir_val(&expr_node.children[0]);
        let ir_op = Generator::tok_op_to_ir_op(expr_node.token);
        let op_line = IRline::Op(IRval::Temp(expr_node.id), ir_op, left_val, right_val);
        proof {
            assert(post_lines(expr_node@) =~= seq![op_line@]);
            lemma_append_plain_wf(self@, seq![op_line@]);
        }
        self.push_line(op_line);
    }

    /// Emits the return of a return node's operand.
    pub fn gen_return(&mut self, return_node: &Node)
        requires
            old(self)@.wf(),
            return_node.token == Tok::ReturnKW,
            shaped(return_node@),
        ensures
            final(self)@ == old(self)@.append(post_lines(return_node@)),
            final(self)@.wf(),
    {
        proof {
            lemma_node_view(*return_node);
        }
        let return_line = IRline::Return(Generator::node_val_to_ir_val(&return_node.children[0]));
        proof {
            lemma_append_plain_wf(self@, seq![return_line@]);
        }
        self.push_line(return_line);
    }

    /// Emits the store of an assignment: the operand goes into the declared
    /// symbol. A node without a symbol emits nothing.
    pub fn gen_decl(&mut self, decl_node: &Node)
        requires
            old(self)@.wf(),
            decl_node.token == Tok::Eq,
            shaped(decl_node@),
        ensures
            final(self)@ == old(self)@.append(post_lines(decl_node@)),
            final(self)@.wf(),
    {
        proof {
            lemma_node_view(*decl_node);
        }
        if let Some(NodeVal::Sym(sym_id)) = decl_node.val {
            let child_node = &decl_node.children[0];
            let ir_val = Generator::node_val_to_ir_val(child_node);
            let load_line = IRline::Load(ir_val, IRval::Sym(sym_id));
            proof {
                lemma_append_plain_wf(self@, seq![load_line@]);
            }
            self.push_line(load_line);
        } else {
            proof {
                lemma_append_nothing(self@);
            }
        }
    }

    /// Opens the body of a declared function: the enclosing context binds
    /// the declared symbol to the function, a new context is opened, and the
    /// entry label is its first instruction.
    pub fn gen_func_enter(&mut self, func_decl: &Node)
        requires
            old(self)@.wf(),
        ensures
            final(self)@ == old(self)@.append(decl_lines(func_decl@)).enter().append(
                seq![Line::Label(func_decl.id)],
            ),
            final(self)@.wf(),
    {
        proof {
            lemma_node_view(*func_decl);
        }
        if let Some(NodeVal::Sym(sym_id)) = func_decl.val {
            self.push_line(IRline::Load(IRval::Fn(func_decl.id), IRval::Sym(sym_id)));
        } else {
            proof {
                lemma_append_nothing(self@);
            }
        }
        let ghost bound = self@;
        self.func_stack.push(self.funcs.len());
        self.funcs.push(FuncDef { code: Vec::new() });
        proof {
            assert(lines(self.funcs@[bound.funcs.len() as int].code@) =~= Seq::<Line>::empty());
            assert(self@.funcs =~= bound.funcs.push(Seq::empty()));
            assert(self@.open =~= bound.open.push(bound.funcs.len() as int));
            assert(self@.code == bound.code);
            assert(self@ == bound.enter());
            lemma_enter_wf(old(self)@, func_decl.id, decl_lines(func_decl@));
        }
        self.push_label(func_decl.id);
    }

    /// Emits a call: every argument child, in stored order, is pushed on
    /// the argument channel; then the callee is called and the node's
    /// temporary named as the result slot.
    pub fn gen_func_call(&mut self, func_call: &Node)
        requires
            old(self)@.wf(),
            func_call.token == Tok::FuncCall,
            shaped(func_call@),
        ensures
            final(self)@ == old(self)@.append(post_lines(func_call@)),
            final(self)@.wf(),
    {
        let n: usize = func_call.children.len();
        let mut i: usize = 0;
        let ghost args = func_call@.children;
        proof {
            lemma_node_view(*func_call);
            lemma_append_nothing(self@);
            assert(arg_loads(args, 0) =~= Seq::empty());
        }
        while i < n
            invariant
                i <= n,
                n == func_call.children@.len(),
                args == func_call@.children,
                args == trees(func_call.children@),
                shaped(func_call@),
                func_call.token == Tok::FuncCall,
                func_call@.token == Tok::FuncCall,
                old(self)@.wf(),
                self@ == old(self)@.append(arg_loads(args, i as int)),
                self@.wf(),
            decreases n - i,
        {
            assert(args[i as int] == func_call.children@[i as int]@);
            assert(resolvable(args[i as int]));
            let arg = Generator::node_val_to_ir_val(&func_call.children[i]);
            let line = IRline::Load(arg, IRval::Arg);
            proof {
                lemma_append_plain_wf(self@, seq![line@]);
                lemma_append_twice(old(self)@, arg_loads(args, i as int), seq![line@]);
                assert(arg_loads(args, i as int) + seq![line@] =~= arg_loads(args, i + 1));
            }
            self.push_line(line);
            i += 1;
        }
        if let Some(NodeVal::Sym(sym_id)) = func_call.val {
            let line = IRline::Call(IRval::Temp(func_call.id), IRval::Sym(sym_id));
            proof {
                lemma_append_plain_wf(self@, seq![line@]);
                lemma_append_twice(old(self)@, arg_loads(args, n as int), seq![line@]);
            }
            self.push_line(line);
        } else {
            assert(arg_loads(args, n as int) + call_line(func_call@) =~= arg_loads(args, n as int));
        }
    }

    /// Emits a function prologue: every parameter, in reverse of stored
    /// order, is popped from the argument channel into its symbol.
    pub fn gen_var_list(&mut self, var_list: &Node)
        requires
            old(self)@.wf(),
            var_list.token == Tok::VarList,
        ensures
            final(self)@ == old(self)@.append(post_lines(var_list@)),
            final(self)@.wf(),
    {
        let mut i: usize = var_list.children.len();
        let ghost params = var_list@.children;
        proof {
            lemma_node_view(*var_list);
            lemma_append_nothing(self@);
        }
        while i > 0
            invariant
                i <= var_list.children@.len(),
                params == trees(var_list.children@),
                old(self)@.wf(),
                self@ == old(self)@.append(param_loads(params, i as int)),
                self@.wf(),
            decreases i,
        {
            i -= 1;
            proof {
                lemma_node_view(var_list.children@[i as int]);
                lemma_append_twice(
                    old(self)@,
                    param_loads(params, i + 1),
                    param_load(params[i as int]),
                );
            }
            if let Some(NodeVal::Sym(sym_id)) = var_list.children[i].val {
                let line = IRline::Load(IRval::Arg, IRval::Sym(sym_id));
                proof {
                    lemma_append_plain_wf(self@, seq![line@]);
                }
                self.push_line(line);
            } else {
                proof {
                    lemma_append_nothing(self@);
                }
            }
        }
    }

    /// Closes the innermost function: unless its body already ends with a
    /// `Return`, a `Return(Nil)` is added; then its context is left.
    pub fn gen_func_leave(&mut self)
        requires
            old(self)@.wf(),
            old(self)@.open.len() > 0,
        ensures
            final(self)@ == old(self)@.close_innermost(),
            final(self)@.wf(),
    {
        let top: usize = self.func_stack[self.func_stack.len() - 1];
        assert(self@.open[self@.open.len() - 1] == top as int);
        let body = &self.funcs[top].code;
        assert(lines(body@) == self@.innermost());
        let ends_with_return: bool = body.len() > 0 && match &body[body.len() - 1] {
            IRline::Return(_) => true,
            _ => false,
        };
        if !ends_with_return {
            proof {
                lemma_append_plain_wf(self@, seq![Line::Return(Operand::Nil)]);
            }
            self.push_line(IRline::Return(IRval::Nil));
        }
        let ghost closing = self@;
        proof {
            if ends_with_return {
            } else {
                let st = old(self)@;
                assert(closing.innermost() =~= st.innermost().push(Line::Return(Operand::Nil)));
            }
            lemma_leave_wf(closing);
        }
        self.func_stack.pop();
        assert(self@.open =~= closing.open.drop_last());
        assert(self@.funcs =~= closing.funcs);
        assert(self@ == closing.leave());
    }

    /// Emits the `End` that halts the run.
    pub fn gen_end(&mut self)
        requires
            old(self)@.wf(),
        ensures
            final(self)@ == old(self)@.append(seq![Line::End]),
            final(self)@.wf(),
    {
        proof {
            lemma_append_plain_wf(self@, seq![Line::End]);
        }
        self.push_line(IRline::End);
    }

    fn node_val_to_ir_val(node: &Node) -> (val: IRval)
        requires
            resolvable(node@),
        ensures
            val@ == resolved(node@),
            !(val@ is Fn),
    {
        proof {
            lemma_node_view(*node);
        }
        match node.token {
            Tok::FuncCall => return IRval::Temp(node.id),
            _ => {},
        }
        match &node.val {
            None => IRval::Temp(node.id),
            Some(val) => match val {
                NodeVal::Int(i) => IRval::Int(*i),
                NodeVal::Sym(s) => IRval::Sym(*s),
                NodeVal::String(s) => IRval::String(s.clone()),
                _ => IRval::Nil,
            },
        }
    }

    fn tok_op_to_ir_op(tok_op: Tok) -> (op: IRop)
        requires
            tok_op == Tok::Plus || tok_op == Tok::Minus,
        ensures
            op == ir_op_of(tok_op),
    {
        match tok_op {
            Tok::Minus => IRop::Minus,
            _ => IRop::Plus,
        }
    }
}

impl GenState {
    /// The body of the innermost open function.
    pub open spec fn innermost(self) -> Seq<Line> {
        self.funcs[self.open.last()]
    }

    /// The state after closing the innermost function: its body gets a
    /// `Return(Nil)` unless it ends with a `Return`, and its context is left.
    pub open spec fn close_innermost(self) -> GenState {
        if self.innermost().len() > 0 && self.innermost().last().is_return() {
            self.leave()
        } else {
            self.append(seq![Line::Return(Operand::Nil)]).leave()
        }
    }
}

/// Emitting nothing changes nothing.
pub proof fn lemma_append_nothing(st: GenState)
    requires
        st.contexts_ok(),
    ensures
        st.append(Seq::empty()) == st,
{
    let after = st.append(Seq::empty());
    assert(after.code =~= st.code);
    if st.open.len() > 0 {
        let f = st.open.last();
        assert(st.funcs[f] + Seq::<Line>::empty() =~= st.funcs[f]);
    }
    assert(after.funcs =~= st.funcs);
}

/// Emitting two runs of lines is emitting their concatenation.
pub proof fn lemma_append_twice(st: GenState, first: Seq<Line>, second: Seq<Line>)
    requires
        st.contexts_ok(),
    ensures
        st.append(first).append(second) == st.append(first + second),
{
    let one = st.append(first).append(second);
    let other = st.append(first + second);
    assert(one.code =~= other.code);
    if st.open.len() > 0 {
        let f = st.open.last();
        assert((st.funcs[f] + first) + second =~= st.funcs[f] + (first + second));
    }
    assert(one.funcs =~= other.funcs);
}

/// Opening a declared function keeps the invariant: the binding that the
/// enclosing context receives names the label that opens the new body.
pub proof fn lemma_enter_wf(st: GenState, id: usize, binding: Seq<Line>)
    requires
        st.wf(),
        forall|k: int|
            0 <= k < binding.len() ==> (#[trigger] binding[k]).tidy() && (binding[k] matches Line::Load(
                Operand::Fn(f),
                _,
            ) ==> f == id),
    ensures
        st.append(binding).enter().contexts_ok(),
        st.append(binding).enter().append(seq![Line::Label(id)]).wf(),
{
    let bound = st.append(binding);
    let entered = bound.enter();
    let after = entered.append(seq![Line::Label(id)]);
    let fresh = st.funcs.len() as int;
    assert(entered.open.last() == fresh);
    assert forall|i: int| 0 <= i < entered.open.len() implies 0 <= (#[trigger] entered.open[i])
        < entered.funcs.len() by {
        if i < st.open.len() {
            assert(entered.open[i] == st.open[i]);
        }
    }
    assert forall|i: int, j: int| 0 <= i < j < entered.open.len() implies (
    #[trigger] entered.open[i]) < (#[trigger] entered.open[j]) by {
        assert(entered.open[i] == st.open[i]);
        if j < st.open.len() {
            assert(entered.open[j] == st.open[j]);
        }
    }
    assert(after.funcs[fresh] =~= seq![Line::Label(id)]);
    assert(after.funcs[fresh][0] == Line::Label(id));
    assert(has_label(after.funcs, id));
    assert forall|f: int| 0 <= f < st.funcs.len() implies (#[trigger] st.funcs[f]).len()
        <= after.funcs[f].len() && after.funcs[f].subrange(0, st.funcs[f].len() as int)
        == st.funcs[f] by {
        assert(after.funcs[f].subrange(0, st.funcs[f].len() as int) =~= st.funcs[f]);
    }
    assert forall|line: Line| fn_ref_labelled(st.funcs, line) implies fn_ref_labelled(
        after.funcs,
        line,
    ) by {
        match line {
            Line::Load(Operand::Fn(x), _) => {
                lemma_has_label_grows(st.funcs, after.funcs, x);
            },
            _ => {},
        }
    }
    assert forall|k: int| 0 <= k < after.code.len() implies fn_ref_labelled(
        after.funcs,
        #[trigger] after.code[k],
    ) by {
        if k < st.code.len() {
            assert(after.code[k] == st.code[k]);
            assert(fn_ref_labelled(st.funcs, st.code[k]));
        } else {
            assert(after.code[k] == binding[k - st.code.len()]);
        }
    }
    assert forall|f: int, k: int|
        0 <= f < after.funcs.len() && 0 <= k < after.funcs[f].len() implies fn_ref_labelled(
        after.funcs,
        #[trigger] after.funcs[f][k],
    ) by {
        if f < st.funcs.len() {
            if k < st.funcs[f].len() {
                assert(after.funcs[f].subrange(0, st.funcs[f].len() as int)[k]
                    == after.funcs[f][k]);
                assert(fn_ref_labelled(st.funcs, st.funcs[f][k]));
            } else {
                assert(after.funcs[f][k] == binding[k - st.funcs[f].len()]);
            }
        }
    }
    assert forall|f: int|
        0 <= f < after.funcs.len() && !after.open.contains(f) implies {
        &&& (#[trigger] after.funcs[f]).len() > 0
        &&& after.funcs[f].last().is_return()
    } by {
        if f == fresh {
            assert(after.open[after.open.len() - 1] == f);
        } else {
            if st.open.contains(f) {
                let i = choose|i: int| 0 <= i < st.open.len() && st.open[i] == f;
                assert(after.open[i] == f);
            }
            assert(st.funcs[f].len() > 0);
            if st.open.len() > 0 && f == st.open.last() {
                assert(st.open[st.open.len() - 1] == f);
            }
            assert(after.funcs[f] == st.funcs[f]);
        }
    }
}

/// Leaving a context whose body ends with a `Return` keeps the invariant.
pub proof fn lemma_leave_wf(st: GenState)
    requires
        st.wf(),
        st.open.len() > 0,
        st.innermost().len() > 0,
        st.innermost().last().is_return(),
    ensures
        st.leave().wf(),
{
    let after = st.leave();
    let top = st.open.last();
    assert forall|f: int|
        0 <= f < after.funcs.len() && !after.open.contains(f) implies {
        &&& (#[trigger] after.funcs[f]).len() > 0
        &&& after.funcs[f].last().is_return()
    } by {
        if f != top {
            if st.open.contains(f) {
                let i = choose|i: int| 0 <= i < st.open.len() && st.open[i] == f;
                assert(after.open[i] == f);
            }
        }
    }
}

} // verus!
