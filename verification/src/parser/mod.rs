//! The parser driver: it takes the answers of a parse table, builds a leaf
//! for every shifted token and shapes the tree at every reduction.

use vstd::prelude::*;
use crate::ast::{folded, intern, wrap_i32, Ast, NodeVal};
use crate::tokens::{keyword_check, keyword_of, Tok};
use crate::tree::{AstView, Tree, Val};

pub mod grammar;
pub mod shaping;

verus! {

pub type ProdID = usize;

/// What the parse table answers for the current state and token.
#[derive(Debug, Clone, Copy, PartialEq, Eq, Structural)]
pub enum Action {
    Accept,
    Reduce(ProdID),
    Shift,
    Error,
}

/// How far a run of answers brought the driver.
#[derive(Debug, Clone, Copy, PartialEq, Eq, Structural)]
pub enum Outcome {
    /// The token was shifted; the next token is due.
    Shifted,
    /// The table accepted the input.
    Accepted,
    /// All answers were reductions; the table has to be asked again for the
    /// same token.
    Pending,
}

/// Why parsing stopped. Every error is fatal for the compilation.
#[derive(Debug, Clone, Copy, PartialEq, Eq, Structural)]
pub enum ParseError {
    /// The parse table answered `Error`.
    Syntax,
    /// The table named a production that was never installed.
    UnknownProduction,
    /// A reduction needs more nodes than the stack holds.
    StackUnderflow,
    /// No node id is left.
    NodeLimit,
    /// An identifier, integer or string token came without its text.
    MissingAttribute,
    /// The text of an integer token is no decimal number of 32 bits.
    BadInteger,
    /// The table answered `Shift` when no token was at hand.
    ShiftWithoutToken,
}

/// The tree shaping that a production asks for when it is reduced.
#[derive(Debug, Clone, Copy, PartialEq, Eq, Structural)]
pub enum Shaping {
    /// Pops a list and, below it, an element; the element becomes the next
    /// child of the list.
    Append,
    /// Pops one element; a fresh node of the given kind gets it as its only
    /// child.
    Single(Tok),
    /// Pushes a fresh childless node of the given kind.
    Empty(Tok),
    /// Pops body, parameter list and name; the name node becomes the
    /// declaration, with the body's children and then the parameter list as
    /// its children.
    FuncDecl,
    /// Pops expression, assignment node and variable; the assignment node
    /// takes the variable's value and the expression as its child.
    VarDecl,
    /// Pops argument list and name; the name node becomes the call, with the
    /// arguments as its children.
    Call,
    /// Pops right operand, operator and left operand; two literals are
    /// folded, else the operator node takes the operands as its children.
    BinOp,
    /// Pops an expression; a fresh return node gets it as its only child.
    Return,
}

/// One production of the grammar with its tree shaping.
#[derive(Debug)]
pub struct Production {
    pub head: Tok,
    pub body: Vec<Tok>,
    pub action: Option<Shaping>,
}

/// A production with its body as a sequence.
pub struct ProductionView {
    pub head: Tok,
    pub body: Seq<Tok>,
    pub action: Option<Shaping>,
}

impl View for Production {
    type V = ProductionView;

    open spec fn view(&self) -> ProductionView {
        ProductionView { head: self.head, body: self.body@, action: self.action }
    }
}

/// The driver: the productions in the order of their ids.
#[derive(Debug)]
pub struct Parser {
    pub productions: Vec<Production>,
}

impl View for Parser {
    type V = Seq<ProductionView>;

    open spec fn view(&self) -> Seq<ProductionView> {
        Seq::new(self.productions@.len(), |i: int| self.productions@[i]@)
    }
}

impl Shaping {
    /// The number of nodes that the shaping takes off the stack.
    pub open spec fn arity(self) -> int {
        match self {
            Shaping::Append => 2,
            Shaping::Single(_) => 1,
            Shaping::Empty(_) => 0,
            Shaping::FuncDecl => 3,
            Shaping::VarDecl => 3,
            Shaping::Call => 2,
            Shaping::BinOp => 3,
            Shaping::Return => 1,
        }
    }

    /// Whether the shaping may make a fresh node.
    pub open spec fn allocates(self) -> bool {
        match self {
            Shaping::Single(_) | Shaping::Empty(_) | Shaping::BinOp | Shaping::Return => true,
            _ => false,
        }
    }
}

/// A fresh node of the given kind, with the next id, over one child.
pub open spec fn wrapped(ast: AstView, kind: Tok) -> AstView {
    let id = (ast.counter + 1) as usize;
    AstView {
        counter: id,
        ..ast.popped(1).pushed(
            Tree { token: kind, id, children: seq![ast.peek(0)], val: None },
        )
    }
}

/// The operator reduction: two literal operands are folded into one `Int`
/// literal (or into nothing, where folding is not defined for them); else
/// the operator node takes the right and then the left operand as children.
pub open spec fn operated(ast: AstView) -> AstView {
    let right = ast.peek(0);
    let op = ast.peek(1);
    let left = ast.peek(2);
    if left.is_const() && right.is_const() {
        match folded(op.token, left.val.unwrap(), right.val.unwrap()) {
            Some(v) => ast.popped(3).push_leaf(Tok::Int, Some(Val::Int(v))),
            None => ast.popped(3),
        }
    } else {
        ast.popped(3).pushed(Tree { children: op.children.push(right).push(left), ..op })
    }
}

/// The tree under construction after a shaping, on a stack that holds at
/// least the nodes that the shaping takes.
pub open spec fn reduced(ast: AstView, shaping: Shaping) -> AstView {
    match shaping {
        Shaping::Append => {
            let list = ast.peek(0);
            let elem = ast.peek(1);
            ast.popped(2).pushed(Tree { children: list.children.push(elem), ..list })
        },
        Shaping::Single(kind) => wrapped(ast, kind),
        Shaping::Empty(kind) => ast.push_leaf(kind, None),
        Shaping::FuncDecl => {
            let body = ast.peek(0);
            let params = ast.peek(1);
            let name = ast.peek(2);
            ast.popped(3).pushed(
                Tree {
                    token: Tok::FuncDecl,
                    children: (name.children + body.children).push(params),
                    ..name
                },
            )
        },
        Shaping::VarDecl => {
            let expr = ast.peek(0);
            let eq = ast.peek(1);
            let var = ast.peek(2);
            ast.popped(3).pushed(Tree { val: var.val, children: eq.children.push(expr), ..eq })
        },
        Shaping::Call => {
            let args = ast.peek(0);
            let name = ast.peek(1);
            ast.popped(2).pushed(
                Tree { token: Tok::FuncCall, children: name.children + args.children, ..name },
            )
        },
        Shaping::BinOp => operated(ast),
        Shaping::Return => wrapped(ast, Tok::ReturnKW),
    }
}


/// Whether the character is a decimal digit.
pub open spec fn is_digit(c: char) -> bool {
    '0' <= c <= '9'
}

/// The number that a run of decimal digits denotes.
pub open spec fn decimal_value(text: Seq<char>) -> int
    decreases text.len(),
{
    if text.len() == 0 {
        0
    } else {
        10 * decimal_value(text.drop_last()) + (text.last() as int - '0' as int)
    }
}

/// The value of an integer token's text: defined for one or more decimal
/// digits that denote a number of at most `i32::MAX`.
pub open spec fn int_of(text: Seq<char>) -> Option<i32> {
    if text.len() > 0 && (forall|i: int| 0 <= i < text.len() ==> is_digit(#[trigger] text[i]))
        && decimal_value(text) <= i32::MAX {
        Some(decimal_value(text) as i32)
    } else {
        None
    }
}

/// The characters of an optional text.
pub open spec fn attr_view(attr: Option<&str>) -> Option<Seq<char>> {
    match attr {
        Some(text) => Some(text@),
        None => None,
    }
}

/// The kind under which a token reaches the parse table: an identifier
/// whose text is a keyword is that keyword.
pub open spec fn reclassified(raw: Tok, attr: Option<Seq<char>>) -> Tok {
    match (raw, attr) {
        (Tok::Var, Some(text)) => match keyword_of(text) {
            Some(keyword) => keyword,
            None => Tok::Var,
        },
        _ => raw,
    }
}

/// The tree under construction after a shift. Punctuation and keywords
/// leave no node; a string or integer token becomes a literal, an
/// identifier a symbol that is interned on the way; any other kind becomes
/// a node without a value. On an error nothing has changed.
pub open spec fn shifted(ast: AstView, tok: Tok, attr: Option<Seq<char>>) -> Result<
    AstView,
    ParseError,
> {
    if tok.is_non_semantic() {
        Ok(ast)
    } else if ast.counter == usize::MAX {
        Err(ParseError::NodeLimit)
    } else {
        match tok {
            Tok::String => match attr {
                Some(text) => Ok(ast.push_leaf(Tok::String, Some(Val::Str(text)))),
                None => Err(ParseError::MissingAttribute),
            },
            Tok::Int => match attr {
                Some(text) => match int_of(text) {
                    Some(v) => Ok(ast.push_leaf(Tok::Int, Some(Val::Int(v)))),
                    None => Err(ParseError::BadInteger),
                },
                None => Err(ParseError::MissingAttribute),
            },
            Tok::Var => match attr {
                Some(text) => {
                    let (names, id) = intern(ast.names, text);
                    Ok(
                        (AstView { names, ..ast }).push_leaf(
                            Tok::Var,
                            Some(Val::Sym(id as usize)),
                        ),
                    )
                },
                None => Err(ParseError::MissingAttribute),
            },
            _ => Ok(ast.push_leaf(tok, None)),
        }
    }
}

/// The tree under construction after the reduction of production `pid`. A
/// production without a shaping changes nothing. On an error nothing has
/// changed.
pub open spec fn reduction(grammar: Seq<ProductionView>, ast: AstView, pid: ProdID) -> Result<
    AstView,
    ParseError,
> {
    if pid >= grammar.len() {
        Err(ParseError::UnknownProduction)
    } else {
        match grammar[pid as int].action {
            None => Ok(ast),
            Some(shaping) => if ast.stack.len() < shaping.arity() {
                Err(ParseError::StackUnderflow)
            } else if shaping.allocates() && ast.counter == usize::MAX {
                Err(ParseError::NodeLimit)
            } else {
                Ok(reduced(ast, shaping))
            },
        }
    }
}

/// The tree under construction and the outcome after the driver has taken
/// the table's answers in order: every `Reduce` is carried out, and the
/// first `Shift`, `Accept`, `Error` or failing step ends the run.
pub open spec fn drained(
    grammar: Seq<ProductionView>,
    ast: AstView,
    answers: Seq<Action>,
    tid: Option<Tok>,
    attr: Option<Seq<char>>,
) -> (AstView, Result<Outcome, ParseError>)
    decreases answers.len(),
{
    if answers.len() == 0 {
        (ast, Ok(Outcome::Pending))
    } else {
        match answers[0] {
            Action::Accept => (ast, Ok(Outcome::Accepted)),
            Action::Error => (ast, Err(ParseError::Syntax)),
            Action::Shift => match tid {
                None => (ast, Err(ParseError::ShiftWithoutToken)),
                Some(tok) => match shifted(ast, tok, attr) {
                    Ok(next) => (next, Ok(Outcome::Shifted)),
                    Err(e) => (ast, Err(e)),
                },
            },
            Action::Reduce(pid) => match reduction(grammar, ast, pid) {
                Ok(next) => drained(grammar, next, answers.drop_first(), tid, attr),
                Err(e) => (ast, Err(e)),
            },
        }
    }
}

/// The end of the input: the answers for the synthetic `End` token are
/// taken, and then, unless that failed, the answers that are given without
/// a token.
pub open spec fn drained_end(
    grammar: Seq<ProductionView>,
    ast: AstView,
    end_answers: Seq<Action>,
    flush_answers: Seq<Action>,
) -> (AstView, Result<Outcome, ParseError>) {
    let (at_end, first) = drained(grammar, ast, end_answers, Some(Tok::End), None);
    match first {
        Err(e) => (at_end, Err(e)),
        Ok(_) => drained(grammar, at_end, flush_answers, None, None),
    }
}

/// The folded tree: one `Int` literal with the given id on top of `below`.
pub open spec fn folded_onto(below: AstView, id: usize, value: i32) -> AstView {
    AstView {
        stack: below.stack.push(Tree::leaf(Tok::Int, id, Some(Val::Int(value)))),
        names: below.names,
        counter: id,
    }
}

/// Parsing `a + b` or `a - b`, for any two integer literals, leaves a single
/// `Int` literal that holds the wrapped result, and no operator node: the
/// three shifts and the operator reduction add exactly that node to the
/// stack.
pub proof fn lemma_literal_pair_folds(
    grammar: Seq<ProductionView>,
    ast: AstView,
    pid: ProdID,
    op: Tok,
    left: Seq<char>,
    right: Seq<char>,
)
    requires
        op == Tok::Plus || op == Tok::Minus,
        int_of(left) is Some,
        int_of(right) is Some,
        pid < grammar.len(),
        grammar[pid as int].action == Some(Shaping::BinOp),
        ast.counter + 4 <= usize::MAX,
    ensures
        ({
            let a = int_of(left)->Some_0;
            let b = int_of(right)->Some_0;
            let result = if op == Tok::Plus {
                wrap_i32(a + b)
            } else {
                wrap_i32(a - b)
            };
            let first = shifted(ast, Tok::Int, Some(left));
            let second = shifted(first->Ok_0, op, None);
            let third = shifted(second->Ok_0, Tok::Int, Some(right));
            &&& first is Ok
            &&& second is Ok
            &&& third is Ok
            &&& reduction(grammar, third->Ok_0, pid) == Ok::<AstView, ParseError>(
                folded_onto(ast, (ast.counter + 4) as usize, result),
            )
        }),
{
    let first = shifted(ast, Tok::Int, Some(left))->Ok_0;
    let second = shifted(first, op, None)->Ok_0;
    let third = shifted(second, Tok::Int, Some(right))->Ok_0;
    assert(third.stack.len() == ast.stack.len() + 3);
    assert(third.peek(0) == Tree::leaf(
        Tok::Int,
        (ast.counter + 3) as usize,
        Some(Val::Int(int_of(right)->Some_0)),
    ));
    assert(third.peek(1) == Tree::leaf(op, (ast.counter + 2) as usize, None));
    assert(third.peek(2) == Tree::leaf(
        Tok::Int,
        (ast.counter + 1) as usize,
        Some(Val::Int(int_of(left)->Some_0)),
    ));
    assert(third.popped(3).stack =~= ast.stack);
}

/// A longer run of digits denotes no smaller number.
pub proof fn lemma_decimal_monotone(text: Seq<char>, n: int)
    requires
        0 <= n <= text.len(),
        forall|i: int| 0 <= i < text.len() ==> is_digit(#[trigger] text[i]),
    ensures
        0 <= decimal_value(text.take(n)) <= decimal_value(text),
    decreases text.len() - n,
{
    if n == text.len() {
        assert(text.take(n) =~= text);
        lemma_decimal_nonnegative(text);
    } else {
        lemma_decimal_monotone(text, n + 1);
        assert(text.take(n + 1).drop_last() =~= text.take(n));
        assert(is_digit(text[n]));
        lemma_decimal_nonnegative(text.take(n));
    }
}

/// A run of digits denotes no negative number.
pub proof fn lemma_decimal_nonnegative(text: Seq<char>)
    requires
        forall|i: int| 0 <= i < text.len() ==> is_digit(#[trigger] text[i]),
    ensures
        0 <= decimal_value(text),
    decreases text.len(),
{
    if text.len() > 0 {
        lemma_decimal_nonnegative(text.drop_last());
        assert(is_digit(text[text.len() - 1]));
    }
}

/// The value of an integer token's text.
pub fn parse_int(text: &str) -> (value: Option<i32>)
    ensures
        value == int_of(text@),
{
    let n: usize = text.unicode_len();
    if n == 0 {
        return None;
    }
    let mut acc: u32 = 0;
    let mut i: usize = 0;
    assert(text@.take(0) =~= Seq::<char>::empty());
    while i < n
        invariant
            i <= n,
            n == text@.len(),
            forall|k: int| 0 <= k < i ==> is_digit(#[trigger] text@[k]),
            acc as int == decimal_value(text@.take(i as int)),
            acc <= i32::MAX,
        decreases n - i,
    {
        let c: char = text.get_char(i);
        if c < '0' || c > '9' {
            assert(!is_digit(text@[i as int]));
            return None;
        }
        let digit: u32 = (c as u32) - ('0' as u32);
        proof {
            assert(text@.take(i + 1).drop_last() =~= text@.take(i as int));
            assert(text@.take(i + 1).last() == c);
        }
        if acc > (i32::MAX as u32 - digit) / 10 {
            proof {
                assert(10 * acc + digit > i32::MAX);
                if forall|k: int| 0 <= k < text@.len() ==> is_digit(#[trigger] text@[k]) {
                    lemma_decimal_monotone(text@, i + 1);
                }
            }
            return None;
        }
        acc = acc * 10 + digit;
        i += 1;
    }
    assert(text@.take(n as int) =~= text@);
    Some(acc as i32)
}

impl Parser {
    /// A driver without productions.
    pub fn new() -> (parser: Parser)
        ensures
            parser@ == Seq::<ProductionView>::empty(),
    {
        let parser = Parser { productions: Vec::new() };
        assert(parser@ =~= Seq::<ProductionView>::empty());
        parser
    }

    /// Registers a production under the next production id.
    pub fn install_prod(&mut self, head: Tok, body: &Vec<Tok>, action: Option<Shaping>)
        ensures
            final(self)@ == old(self)@.push(ProductionView { head, body: body@, action }),
    {
        let mut copy: Vec<Tok> = Vec::new();
        let mut i: usize = 0;
        while i < body.len()
            invariant
                i <= body@.len(),
                copy@ == body@.take(i as int),
            decreases body@.len() - i,
        {
            copy.push(body[i]);
            assert(copy@ =~= body@.take(i + 1));
            i += 1;
        }
        assert(body@.take(body@.len() as int) =~= body@);
        self.productions.push(Production { head, body: copy, action });
        assert(self@ =~= old(self)@.push(ProductionView { head, body: body@, action }));
    }

    /// Reclassifies a raw token before it is handed to the parse table: an
    /// identifier whose text is a keyword becomes that keyword.
    pub fn process_raw_tid(&self, raw_tid: Tok, attr: Option<&str>) -> (tok: Tok)
        ensures
            tok == reclassified(raw_tid, attr_view(attr)),
    {
        match raw_tid {
            Tok::Var => {
                if let Some(text) = attr {
                    if let Some(keyword) = keyword_check(text) {
                        return keyword;
                    }
                }
                Tok::Var
            },
            _ => raw_tid,
        }
    }

    /// Builds the leaf of a shifted token.
    pub fn shift_node(&self, tok: Tok, attr: Option<&str>, ast: &mut Ast) -> (done: Result<
        (),
        ParseError,
    >)
        requires
            old(ast).wf(),
        ensures
            final(ast).wf(),
            match shifted(old(ast)@, tok, attr_view(attr)) {
                Ok(next) => done is Ok && final(ast)@ == next,
                Err(e) => done == Err::<(), ParseError>(e) && final(ast)@ == old(ast)@,
            },
    {
        if tok.non_semantic_token() {
            return Ok(());
        }
        if ast.node_counter == usize::MAX {
            return Err(ParseError::NodeLimit);
        }
        match tok {
            Tok::String => match attr {
                Some(text) => {
                    ast.push_node(Tok::String, Some(NodeVal::String(text.to_owned())));
                    Ok(())
                },
                None => Err(ParseError::MissingAttribute),
            },
            Tok::Int => match attr {
                Some(text) => match parse_int(text) {
                    Some(v) => {
                        ast.push_node(Tok::Int, Some(NodeVal::Int(v)));
                        Ok(())
                    },
                    None => Err(ParseError::BadInteger),
                },
                None => Err(ParseError::MissingAttribute),
            },
            Tok::Var => match attr {
                Some(text) => {
                    let sym_id = ast.get_sym_id(text);
                    ast.push_node(Tok::Var, Some(NodeVal::Sym(sym_id)));
                    Ok(())
                },
                None => Err(ParseError::MissingAttribute),
            },
            _ => {
                ast.push_node(tok, None);
                Ok(())
            },
        }
    }

    /// Carries out the shaping of production `pid`, if it has one.
    pub fn reduce_node(&self, pid: ProdID, ast: &mut Ast) -> (done: Result<(), ParseError>)
        requires
            old(ast).wf(),
        ensures
            final(ast).wf(),
            match reduction(self@, old(ast)@, pid) {
                Ok(next) => done is Ok && final(ast)@ == next,
                Err(e) => done == Err::<(), ParseError>(e) && final(ast)@ == old(ast)@,
            },
    {
        if pid >= self.productions.len() {
            return Err(ParseError::UnknownProduction);
        }
        assert(self@[pid as int] == self.productions@[pid as int]@);
        match self.productions[pid].action {
            None => Ok(()),
            Some(shaping) => {
                let depth: usize = ast.node_stack.len();
                assert(depth == ast@.stack.len());
                let needed: usize = match shaping {
                    Shaping::Append => 2,
                    Shaping::Single(_) => 1,
                    Shaping::Empty(_) => 0,
                    Shaping::FuncDecl => 3,
                    Shaping::VarDecl => 3,
                    Shaping::Call => 2,
                    Shaping::BinOp => 3,
                    Shaping::Return => 1,
                };
                if depth < needed {
                    return Err(ParseError::StackUnderflow);
                }
                let allocates: bool = match shaping {
                    Shaping::Single(_) | Shaping::Empty(_) | Shaping::BinOp | Shaping::Return => {
                        true
                    },
                    _ => false,
                };
                if allocates && ast.node_counter == usize::MAX {
                    return Err(ParseError::NodeLimit);
                }
                match shaping {
                    Shaping::Append => ast.shape_append(),
                    Shaping::Single(kind) => ast.shape_single(kind),
                    Shaping::Empty(kind) => ast.push_node(kind, None),
                    Shaping::FuncDecl => ast.shape_func_decl(),
                    Shaping::VarDecl => ast.shape_var_decl(),
                    Shaping::Call => ast.shape_call(),
                    Shaping::BinOp => ast.shape_binop(),
                    Shaping::Return => ast.shape_single(Tok::ReturnKW),
                }
                Ok(())
            },
        }
    }

    /// Takes the table's answers for one token, which is reclassified
    /// first.
    pub fn parse(
        &self,
        answers: &Vec<Action>,
        raw_tid: Tok,
        attr: Option<&str>,
        ast: &mut Ast,
    ) -> (outcome: Result<Outcome, ParseError>)
        requires
            old(ast).wf(),
        ensures
            final(ast).wf(),
            (final(ast)@, outcome) == drained(
                self@,
                old(ast)@,
                answers@,
                Some(reclassified(raw_tid, attr_view(attr))),
                attr_view(attr),
            ),
    {
        self.parse_until_shift(answers, Some(self.process_raw_tid(raw_tid, attr)), attr, ast)
    }

    /// Takes the table's answers in order: every `Reduce` is carried out;
    /// the first `Shift` builds the token's leaf and ends the run, as do
    /// `Accept`, `Error` and any step that fails.
    pub fn parse_until_shift(
        &self,
        answers: &Vec<Action>,
        tid: Option<Tok>,
        attr: Option<&str>,
        ast: &mut Ast,
    ) -> (outcome: Result<Outcome, ParseError>)
        requires
            old(ast).wf(),
        ensures
            final(ast).wf(),
            (final(ast)@, outcome) == drained(self@, old(ast)@, answers@, tid, attr_view(attr)),
    {
        let n: usize = answers.len();
        let mut i: usize = 0;
        assert(answers@.skip(0) =~= answers@);
        while i < n
            invariant
                i <= n,
                n == answers@.len(),
                ast.wf(),
                drained(self@, old(ast)@, answers@, tid, attr_view(attr)) == drained(
                    self@,
                    ast@,
                    answers@.skip(i as int),
                    tid,
                    attr_view(attr),
                ),
            decreases n - i,
        {
            proof {
                assert(answers@.skip(i as int)[0] == answers@[i as int]);
                assert(answers@.skip(i as int).drop_first() =~= answers@.skip(i + 1));
            }
            match answers[i] {
                Action::Accept => {
                    return Ok(Outcome::Accepted);
                },
                Action::Error => {
                    return Err(ParseError::Syntax);
                },
                Action::Shift => {
                    match tid {
                        None => {
                            return Err(ParseError::ShiftWithoutToken);
                        },
                        Some(tok) => {
                            return match self.shift_node(tok, attr, ast) {
                                Ok(_) => Ok(Outcome::Shifted),
                                Err(e) => Err(e),
                            };
                        },
                    }
                },
                Action::Reduce(pid) => {
                    match self.reduce_node(pid, ast) {
                        Ok(_) => {},
                        Err(e) => {
                            return Err(e);
                        },
                    }
                },
            }
            i += 1;
        }
        Ok(Outcome::Pending)
    }

    /// Ends the input: takes the table's answers for the synthetic `End`
    /// token, which drains the remaining reductions, and then the answers
    /// that the table gives without a token, which flush the final accept.
    pub fn parse_end(
        &self,
        end_answers: &Vec<Action>,
        flush_answers: &Vec<Action>,
        ast: &mut Ast,
    ) -> (outcome: Result<Outcome, ParseError>)
        requires
            old(ast).wf(),
        ensures
            final(ast).wf(),
            (final(ast)@, outcome) == drained_end(
                self@,
                old(ast)@,
                end_answers@,
                flush_answers@,
            ),
    {
        match self.parse_until_shift(end_answers, Some(Tok::End), None, ast) {
            Err(e) => Err(e),
            Ok(_) => self.parse_until_shift(flush_answers, None, None, ast),
        }
    }
}

} // verus!
