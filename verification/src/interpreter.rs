//! The interpreter: a fetch-execute loop over the executable stream, with a
//! stack of call frames, one shared argument channel and a string table.

use vstd::prelude::*;
use crate::ast::wrap_i32;
use crate::generator::Generator;
use crate::ir::{lines, IRline, IRop, IRval, Line, Operand, StrID, SymID, TempID};

verus! {

/// One activation: where to resume, and the bindings local to it.
#[derive(Debug)]
pub struct StackFrame {
    pub return_loc: usize,
    pub temps: Vec<(TempID, IRval)>,
    pub syms: Vec<(SymID, IRval)>,
}

/// The machine. `stack[0]` is the permanent frame of the top level.
#[derive(Debug)]
pub struct Interpreter {
    pub args: Vec<IRval>,
    pub position: usize,
    pub stack: Vec<StackFrame>,
    pub strings: Vec<String>,
}

/// What an instruction writes to the output.
#[derive(Debug, PartialEq)]
pub enum Output {
    Nil,
    Int(i32),
    Text(String),
    /// The report of a call of a value that is no function.
    NotCallable,
}

/// What one instruction did, besides changing the machine.
#[derive(Debug, PartialEq)]
pub enum Step {
    /// The run goes on.
    Next,
    /// The run goes on; this was written.
    Wrote(Output),
    /// `End` was reached.
    Halted,
}

/// Why a run was terminated.
#[derive(Debug, Clone, Copy, PartialEq, Eq, Structural)]
pub enum Fault {
    /// No frame on the stack binds the symbol.
    UnboundSymbol(SymID),
    /// The current frame does not bind the temporary.
    UnboundTemp(TempID),
    /// The argument channel was read when it was empty.
    NoArgument,
    /// The destination of a `Load` is no symbol, temporary or argument
    /// channel.
    BadDestination,
    /// A `Label` stands in the stream.
    LabelInStream,
    /// The position, or the address to return to, lies outside the stream.
    OutOfCode,
    /// A `Return` was met at the top level.
    ReturnAtTopLevel,
    /// The string table has no such entry.
    UnknownString(StrID),
}

/// How a bounded run ended.
#[derive(Debug, Clone, Copy, PartialEq, Eq, Structural)]
pub enum RunEnd {
    /// `End` was reached.
    Halted,
    /// The given number of instructions was executed and `End` was not
    /// reached.
    OutOfFuel,
    /// The run was terminated.
    Faulted(Fault),
}

/// What a bounded run wrote, in execution order, and how it ended.
#[derive(Debug)]
pub struct RunReport {
    pub outputs: Vec<Output>,
    pub end: RunEnd,
}

/// A frame with its bindings as sequences.
pub struct Frame {
    pub return_loc: usize,
    pub temps: Seq<(usize, Operand)>,
    pub syms: Seq<(usize, Operand)>,
}

/// The machine's state.
pub struct Machine {
    /// The argument channel; the last element was pushed last.
    pub args: Seq<Operand>,
    pub position: usize,
    /// The frames; the last is the current one.
    pub stack: Seq<Frame>,
    pub strings: Seq<Seq<char>>,
}

/// What an instruction writes, as a value.
pub enum OutputView {
    Nil,
    Int(i32),
    Text(Seq<char>),
    NotCallable,
}

/// What one instruction did, as a value.
pub enum StepView {
    Next,
    Wrote(OutputView),
    Halted,
}

impl View for Output {
    type V = OutputView;

    open spec fn view(&self) -> OutputView {
        match *self {
            Output::Nil => OutputView::Nil,
            Output::Int(i) => OutputView::Int(i),
            Output::Text(s) => OutputView::Text(s@),
            Output::NotCallable => OutputView::NotCallable,
        }
    }
}

impl View for Step {
    type V = StepView;

    open spec fn view(&self) -> StepView {
        match *self {
            Step::Next => StepView::Next,
            Step::Wrote(out) => StepView::Wrote(out@),
            Step::Halted => StepView::Halted,
        }
    }
}

/// The values of a list of bindings.
pub open spec fn bindings(list: Seq<(usize, IRval)>) -> Seq<(usize, Operand)> {
    Seq::new(list.len(), |i: int| (list[i].0, list[i].1@))
}

/// The values of a list of operands.
pub open spec fn operands(list: Seq<IRval>) -> Seq<Operand> {
    Seq::new(list.len(), |i: int| list[i]@)
}

/// The characters of a list of strings.
pub open spec fn texts(list: Seq<String>) -> Seq<Seq<char>> {
    Seq::new(list.len(), |i: int| list[i]@)
}

/// The values of a list of outputs.
pub open spec fn written(list: Seq<Output>) -> Seq<OutputView> {
    Seq::new(list.len(), |i: int| list[i]@)
}

/// The value of a resolved operand, or the fault.
pub open spec fn found_view(found: Result<IRval, Fault>) -> Result<Operand, Fault> {
    match found {
        Ok(val) => Ok(val@),
        Err(fault) => Err(fault),
    }
}

/// The value of what a step did, or the fault.
pub open spec fn did_view(did: Result<Step, Fault>) -> Result<StepView, Fault> {
    match did {
        Ok(step) => Ok(step@),
        Err(fault) => Err(fault),
    }
}

impl View for StackFrame {
    type V = Frame;

    open spec fn view(&self) -> Frame {
        Frame {
            return_loc: self.return_loc,
            temps: bindings(self.temps@),
            syms: bindings(self.syms@),
        }
    }
}

impl View for Interpreter {
    type V = Machine;

    open spec fn view(&self) -> Machine {
        Machine {
            args: operands(self.args@),
            position: self.position,
            stack: Seq::new(self.stack@.len(), |i: int| self.stack@[i]@),
            strings: texts(self.strings@),
        }
    }
}

/// The first index at or after `from` at which `id` is bound.
pub open spec fn key_index(bindings: Seq<(usize, Operand)>, id: usize, from: int) -> Option<int>
    decreases bindings.len() - from,
{
    if from < 0 || from >= bindings.len() {
        None
    } else if bindings[from].0 == id {
        Some(from)
    } else {
        key_index(bindings, id, from + 1)
    }
}

/// The value of the first binding of `id`.
pub open spec fn bound(bindings: Seq<(usize, Operand)>, id: usize) -> Option<Operand> {
    match key_index(bindings, id, 0) {
        Some(i) => Some(bindings[i].1),
        None => None,
    }
}

/// The bindings after an upsert: the first binding of `id` is overwritten,
/// or, if there is none, a binding is appended.
pub open spec fn upserted(bindings: Seq<(usize, Operand)>, id: usize, val: Operand) -> Seq<
    (usize, Operand),
> {
    match key_index(bindings, id, 0) {
        Some(i) => bindings.update(i, (id, val)),
        None => bindings.push((id, val)),
    }
}

/// The value of a symbol: that of the innermost frame that binds it.
pub open spec fn lookup_sym(stack: Seq<Frame>, id: usize) -> Option<Operand>
    decreases stack.len(),
{
    if stack.len() == 0 {
        None
    } else {
        match bound(stack.last().syms, id) {
            Some(val) => Some(val),
            None => lookup_sym(stack.drop_last(), id),
        }
    }
}

/// The value of a temporary: that which the current frame binds, whatever
/// the frames below hold.
pub open spec fn lookup_temp(stack: Seq<Frame>, id: usize) -> Option<Operand> {
    if stack.len() == 0 {
        None
    } else {
        bound(stack.last().temps, id)
    }
}

/// The result of an operation: defined on two `Int` operands, with
/// wrap-around.
pub open spec fn computed(op: IRop, left: Operand, right: Operand) -> Option<Operand> {
    match (left, right) {
        (Operand::Int(l), Operand::Int(r)) => match op {
            IRop::Plus => Some(Operand::Int(wrap_i32(l + r))),
            IRop::Minus => Some(Operand::Int(wrap_i32(l - r))),
        },
        _ => None,
    }
}

impl Machine {
    /// The machine has its permanent frame.
    pub open spec fn wf(self) -> bool {
        self.stack.len() >= 1
    }

    /// The current frame.
    pub open spec fn top(self) -> Frame {
        self.stack.last()
    }

    /// The machine with another current frame.
    pub open spec fn with_top(self, frame: Frame) -> Machine {
        Machine { stack: self.stack.update(self.stack.len() - 1, frame), ..self }
    }

    /// The machine after an upsert of a temporary in the current frame.
    pub open spec fn bind_temp(self, id: usize, val: Operand) -> Machine {
        self.with_top(Frame { temps: upserted(self.top().temps, id, val), ..self.top() })
    }

    /// The machine after an upsert of a symbol in the current frame.
    pub open spec fn bind_sym(self, id: usize, val: Operand) -> Machine {
        self.with_top(Frame { syms: upserted(self.top().syms, id, val), ..self.top() })
    }

    /// The machine at the next instruction.
    pub open spec fn advance(self) -> Machine {
        Machine { position: (self.position + 1) as usize, ..self }
    }

    /// Resolving an operand. A symbol or temporary is read; the argument
    /// channel is popped; a string literal becomes a new entry of the
    /// string table; any other value is itself.
    pub open spec fn resolve(self, val: Operand) -> (Machine, Result<Operand, Fault>) {
        match val {
            Operand::Arg => if self.args.len() == 0 {
                (self, Err(Fault::NoArgument))
            } else {
                (Machine { args: self.args.drop_last(), ..self }, Ok(self.args.last()))
            },
            Operand::Sym(id) => match lookup_sym(self.stack, id) {
                Some(found) => (self, Ok(found)),
                None => (self, Err(Fault::UnboundSymbol(id))),
            },
            Operand::Temp(id) => match lookup_temp(self.stack, id) {
                Some(found) => (self, Ok(found)),
                None => (self, Err(Fault::UnboundTemp(id))),
            },
            Operand::Text(s) => (
                Machine { strings: self.strings.push(s), ..self },
                Ok(Operand::StrID(self.strings.len() as usize)),
            ),
            _ => (self, Ok(val)),
        }
    }

    /// What a resolved value looks like on the output: nothing for a value
    /// that cannot be shown.
    pub open spec fn shown(self, val: Operand) -> Result<Option<OutputView>, Fault> {
        match val {
            Operand::Nil => Ok(Some(OutputView::Nil)),
            Operand::Int(i) => Ok(Some(OutputView::Int(i))),
            Operand::StrID(id) => if id < self.strings.len() {
                Ok(Some(OutputView::Text(self.strings[id as int])))
            } else {
                Err(Fault::UnknownString(id))
            },
            _ => Ok(None),
        }
    }

    /// `Op`: both operands are resolved, left first. Only on two `Int`
    /// operands is there a result, and only a temporary receives it.
    pub open spec fn op(self, dest: Operand, op: IRop, left: Operand, right: Operand) -> (
        Machine,
        Result<StepView, Fault>,
    ) {
        let (m1, l) = self.resolve(left);
        match l {
            Err(e) => (m1, Err(e)),
            Ok(lv) => {
                let (m2, r) = m1.resolve(right);
                match r {
                    Err(e) => (m2, Err(e)),
                    Ok(rv) => match (dest, computed(op, lv, rv)) {
                        (Operand::Temp(id), Some(result)) => (
                            m2.bind_temp(id, result).advance(),
                            Ok(StepView::Next),
                        ),
                        _ => (m2.advance(), Ok(StepView::Next)),
                    },
                }
            },
        }
    }

    /// `Load`: the source is resolved; the argument channel receives a
    /// push, a symbol or temporary an upsert in the current frame.
    pub open spec fn load(self, from: Operand, to: Operand) -> (Machine, Result<StepView, Fault>) {
        let (m1, r) = self.resolve(from);
        match r {
            Err(e) => (m1, Err(e)),
            Ok(val) => match to {
                Operand::Arg => (
                    Machine { args: m1.args.push(val), ..m1 }.advance(),
                    Ok(StepView::Next),
                ),
                Operand::Sym(id) => (m1.bind_sym(id, val).advance(), Ok(StepView::Next)),
                Operand::Temp(id) => (m1.bind_temp(id, val).advance(), Ok(StepView::Next)),
                _ => (m1, Err(Fault::BadDestination)),
            },
        }
    }

    /// `Call`: the callee is resolved. A function gets a new frame that
    /// remembers the position of the call, and the run goes on at the
    /// function's address. Any other value is reported and skipped.
    pub open spec fn call(self, callee: Operand) -> (Machine, Result<StepView, Fault>) {
        let (m1, r) = self.resolve(callee);
        match r {
            Err(e) => (m1, Err(e)),
            Ok(Operand::Fn(addr)) => (
                Machine {
                    stack: m1.stack.push(
                        Frame { return_loc: m1.position, temps: Seq::empty(), syms: Seq::empty() },
                    ),
                    position: addr,
                    ..m1
                },
                Ok(StepView::Next),
            ),
            Ok(_) => (m1.advance(), Ok(StepView::Wrote(OutputView::NotCallable))),
        }
    }

    /// `Return`: the value is resolved in the callee, the callee's frame is
    /// popped, and the run resumes behind the call. If the call names a
    /// temporary as its result slot, the caller's frame binds it to the
    /// value, behind its other temporaries.
    pub open spec fn return_call(self, code: Seq<Line>, val: Operand) -> (
        Machine,
        Result<StepView, Fault>,
    ) {
        let (m1, r) = self.resolve(val);
        match r {
            Err(e) => (m1, Err(e)),
            Ok(result) => if m1.stack.len() <= 1 {
                (m1, Err(Fault::ReturnAtTopLevel))
            } else if m1.top().return_loc >= code.len() {
                (m1, Err(Fault::OutOfCode))
            } else {
                let at = m1.top().return_loc;
                let back = Machine { stack: m1.stack.drop_last(), position: at, ..m1 };
                match code[at as int] {
                    Line::Call(Operand::Temp(id), _) => (
                        back.with_top(
                            Frame { temps: back.top().temps.push((id, result)), ..back.top() },
                        ).advance(),
                        Ok(StepView::Next),
                    ),
                    _ => (back.advance(), Ok(StepView::Next)),
                }
            },
        }
    }

    /// `Print`: the value is resolved and, if it can be shown, written.
    pub open spec fn print(self, val: Operand) -> (Machine, Result<StepView, Fault>) {
        let (m1, r) = self.resolve(val);
        match r {
            Err(e) => (m1, Err(e)),
            Ok(result) => match m1.shown(result) {
                Err(e) => (m1, Err(e)),
                Ok(Some(out)) => (m1.advance(), Ok(StepView::Wrote(out))),
                Ok(None) => (m1.advance(), Ok(StepView::Next)),
            },
        }
    }

    /// One fetch and execute.
    pub open spec fn step(self, code: Seq<Line>) -> (Machine, Result<StepView, Fault>) {
        if self.position >= code.len() {
            (self, Err(Fault::OutOfCode))
        } else {
            match code[self.position as int] {
                Line::Op(dest, op, left, right) => self.op(dest, op, left, right),
                Line::Load(from, to) => self.load(from, to),
                Line::Call(_, callee) => self.call(callee),
                Line::Return(val) => self.return_call(code, val),
                Line::Print(val) => self.print(val),
                Line::Jump(_) => (self.advance(), Ok(StepView::Next)),
                Line::JumpIf(_, _) => (self.advance(), Ok(StepView::Next)),
                Line::End => (self, Ok(StepView::Halted)),
                Line::Label(_) => (self, Err(Fault::LabelInStream)),
            }
        }
    }
}

/// The machine before the first instruction: one frame, nothing bound.
pub open spec fn start() -> Machine {
    Machine {
        args: Seq::empty(),
        position: 0,
        stack: seq![Frame { return_loc: 0, temps: Seq::empty(), syms: Seq::empty() }],
        strings: Seq::empty(),
    }
}


impl Machine {
    /// A run of at most `fuel` instructions: what the machine is then, what
    /// was written, and how the run ended.
    pub open spec fn run(self, code: Seq<Line>, fuel: nat) -> (Machine, Seq<OutputView>, RunEnd)
        decreases fuel,
    {
        if fuel == 0 {
            (self, Seq::empty(), RunEnd::OutOfFuel)
        } else {
            let (next, did) = self.step(code);
            match did {
                Err(fault) => (next, Seq::empty(), RunEnd::Faulted(fault)),
                Ok(StepView::Halted) => (next, Seq::empty(), RunEnd::Halted),
                Ok(StepView::Next) => next.run(code, (fuel - 1) as nat),
                Ok(StepView::Wrote(out)) => {
                    let (last, outs, end) = next.run(code, (fuel - 1) as nat);
                    (last, seq![out] + outs, end)
                },
            }
        }
    }
}

/// One table is the beginning of another.
pub open spec fn extends(longer: Seq<Seq<char>>, shorter: Seq<Seq<char>>) -> bool {
    &&& shorter.len() <= longer.len()
    &&& forall|i: int| 0 <= i < shorter.len() ==> longer[i] == shorter[i]
}

/// Resolving an operand changes neither the frames nor the position, and
/// leaves every entry of the string table as it is.
pub proof fn lemma_resolve_keeps(m: Machine, val: Operand)
    ensures
        m.resolve(val).0.stack == m.stack,
        m.resolve(val).0.position == m.position,
        extends(m.resolve(val).0.strings, m.strings),
{
}

/// Frames are pushed and popped one at a time, the permanent frame stays,
/// and no step touches a frame that lies below both the frame that was
/// current before it and the frame that is current after it.
pub proof fn lemma_stack_discipline(m: Machine, code: Seq<Line>)
    requires
        m.wf(),
    ensures
        m.step(code).0.wf(),
        m.stack.len() - 1 <= m.step(code).0.stack.len() <= m.stack.len() + 1,
        forall|i: int|
            0 <= i < m.stack.len() - 1 && i < m.step(code).0.stack.len() - 1 ==> m.step(
                code,
            ).0.stack[i] == m.stack[i],
{
    if m.position < code.len() {
        match code[m.position as int] {
            Line::Op(dest, op, left, right) => {
                lemma_resolve_keeps(m, left);
                lemma_resolve_keeps(m.resolve(left).0, right);
            },
            Line::Load(from, to) => {
                lemma_resolve_keeps(m, from);
            },
            Line::Call(_, callee) => {
                lemma_resolve_keeps(m, callee);
            },
            Line::Return(val) => {
                lemma_resolve_keeps(m, val);
            },
            Line::Print(val) => {
                lemma_resolve_keeps(m, val);
            },
            _ => {},
        }
    }
}

/// The string table only grows: a step leaves every entry as it is.
pub proof fn lemma_strings_append_only(m: Machine, code: Seq<Line>)
    ensures
        extends(m.step(code).0.strings, m.strings),
{
    if m.position < code.len() {
        match code[m.position as int] {
            Line::Op(dest, op, left, right) => {
                lemma_resolve_keeps(m, left);
                lemma_resolve_keeps(m.resolve(left).0, right);
            },
            Line::Load(from, to) => {
                lemma_resolve_keeps(m, from);
            },
            Line::Call(_, callee) => {
                lemma_resolve_keeps(m, callee);
            },
            Line::Return(val) => {
                lemma_resolve_keeps(m, val);
            },
            Line::Print(val) => {
                lemma_resolve_keeps(m, val);
            },
            _ => {},
        }
    }
}

/// A symbol that some frame binds, and that no frame above it binds, has the
/// value that this frame gives it: a callee reads the unshadowed variable of
/// any of its callers.
pub proof fn lemma_symbol_seen_from_callee(stack: Seq<Frame>, depth: int, id: usize)
    requires
        0 <= depth < stack.len(),
        bound(stack[depth].syms, id) is Some,
        forall|above: int| depth < above < stack.len() ==> bound(stack[above].syms, id) is None,
    ensures
        lookup_sym(stack, id) == bound(stack[depth].syms, id),
    decreases stack.len(),
{
    if depth < stack.len() - 1 {
        assert(bound(stack[stack.len() - 1].syms, id) is None);
        lemma_symbol_seen_from_callee(stack.drop_last(), depth, id);
    }
}

/// A temporary is looked up in the current frame alone: whatever the
/// callers have computed, the callee sees none of it.
pub proof fn lemma_temp_hidden_from_callee(callers: Seq<Frame>, callee: Frame, id: usize)
    ensures
        lookup_temp(callers.push(callee), id) == bound(callee.temps, id),
{
}

/// Right after a call of a function, no temporary is bound, and every
/// symbol has the value that it had for the caller.
pub proof fn lemma_call_scopes(m: Machine, callee: Operand, id: usize)
    requires
        m.resolve(callee).1 matches Ok(Operand::Fn(_)),
    ensures
        lookup_temp(m.call(callee).0.stack, id) is None,
        lookup_sym(m.call(callee).0.stack, id) == lookup_sym(m.resolve(callee).0.stack, id),
{
    let before = m.resolve(callee).0.stack;
    let after = m.call(callee).0.stack;
    assert(after.drop_last() =~= before);
}

/// The index of the first binding of `id`.
fn find_binding(list: &Vec<(usize, IRval)>, id: usize) -> (found: Option<usize>)
    ensures
        match found {
            Some(i) => i < list@.len() && key_index(bindings(list@), id, 0) == Some(i as int),
            None => key_index(bindings(list@), id, 0) is None,
        },
{
    let n: usize = list.len();
    let mut i: usize = 0;
    while i < n
        invariant
            i <= n,
            n == list@.len(),
            key_index(bindings(list@), id, 0) == key_index(bindings(list@), id, i as int),
        decreases n - i,
    {
        if list[i].0 == id {
            return Some(i);
        }
        i += 1;
    }
    None
}

/// Overwrites the first binding of `id`, or appends one.
fn upsert(list: &mut Vec<(usize, IRval)>, id: usize, val: IRval)
    ensures
        bindings(final(list)@) == upserted(bindings(old(list)@), id, val@),
{
    match find_binding(list, id) {
        Some(i) => {
            list[i] = (id, val);
            assert(list@ =~= old(list)@.update(i as int, (id, val)));
            assert(bindings(list@) =~= bindings(old(list)@).update(i as int, (id, val@)));
        },
        None => {
            list.push((id, val));
            assert(bindings(list@) =~= bindings(old(list)@).push((id, val@)));
        },
    }
}

impl Interpreter {
    /// A machine before the first instruction.
    pub fn init() -> (machine: Interpreter)
        ensures
            machine@ == start(),
            machine@.wf(),
    {
        let machine = Interpreter {
            position: 0,
            stack: Interpreter::init_stack(),
            args: Vec::new(),
            strings: Vec::new(),
        };
        assert(machine@.stack =~= start().stack);
        assert(machine@.args =~= start().args);
        assert(machine@.strings =~= start().strings);
        machine
    }

    fn init_stack() -> (stack: Vec<StackFrame>)
        ensures
            stack@.len() == 1,
            stack@[0]@ == (Frame { return_loc: 0, temps: Seq::empty(), syms: Seq::empty() }),
    {
        let mut stack: Vec<StackFrame> = Vec::new();
        let global_frame = StackFrame { temps: Vec::new(), syms: Vec::new(), return_loc: 0 };
        assert(global_frame@.temps =~= Seq::empty());
        assert(global_frame@.syms =~= Seq::empty());
        stack.push(global_frame);
        stack
    }

    /// Runs at most `fuel` instructions of the generator's stream, from the
    /// machine's position on, and reports what was written and how the run
    /// ended.
    pub fn run(&mut self, generator: &Generator, fuel: usize) -> (report: RunReport)
        requires
            old(self)@.wf(),
        ensures
            final(self)@.wf(),
            (final(self)@, written(report.outputs@), report.end) == old(self)@.run(
                generator@.code,
                fuel as nat,
            ),
    {
        let mut outputs: Vec<Output> = Vec::new();
        let mut left: usize = fuel;
        let ghost code = generator@.code;
        assert(written(outputs@) + old(self)@.run(code, fuel as nat).1 =~= old(self)@.run(
            code,
            fuel as nat,
        ).1);
        while left > 0
            invariant
                self@.wf(),
                code == lines(generator.code@),
                old(self)@.run(code, fuel as nat).0 == self@.run(code, left as nat).0,
                old(self)@.run(code, fuel as nat).1 == written(outputs@) + self@.run(
                    code,
                    left as nat,
                ).1,
                old(self)@.run(code, fuel as nat).2 == self@.run(code, left as nat).2,
            decreases left,
        {
            let ghost before = self@;
            let ghost rest = before.step(code).0.run(code, (left - 1) as nat);
            match self.step(&generator.code) {
                Err(fault) => {
                    assert(written(outputs@) + Seq::<OutputView>::empty() =~= written(outputs@));
                    return RunReport { outputs, end: RunEnd::Faulted(fault) };
                },
                Ok(Step::Halted) => {
                    assert(written(outputs@) + Seq::<OutputView>::empty() =~= written(outputs@));
                    return RunReport { outputs, end: RunEnd::Halted };
                },
                Ok(Step::Next) => {},
                Ok(Step::Wrote(out)) => {
                    assert(written(outputs@.push(out)) =~= written(outputs@).push(out@));
                    assert(written(outputs@).push(out@) + rest.1 =~= written(outputs@) + (
                    seq![out@] + rest.1));
                    outputs.push(out);
                },
            }
            left -= 1;
        }
        assert(written(outputs@) + Seq::<OutputView>::empty() =~= written(outputs@));
        RunReport { outputs, end: RunEnd::OutOfFuel }
    }

    /// Fetches and executes one instruction.
    pub fn step(&mut self, code: &Vec<IRline>) -> (did: Result<Step, Fault>)
        requires
            old(self)@.wf(),
        ensures
            final(self)@.wf(),
            (final(self)@, did_view(did)) == old(self)@.step(lines(code@)),
    {
        if self.position >= code.len() {
            return Err(Fault::OutOfCode);
        }
        assert(lines(code@)[self.position as int] == code@[self.position as int]@);
        match &code[self.position] {
            IRline::Op(result, op, left, right) => self.op(result, *op, left, right),
            IRline::Load(val, to) => self.load(val, to),
            IRline::Call(_, caller) => self.call(caller),
            IRline::Return(val) => self.return_call(code, val),
            IRline::Print(val) => self.print(val),
            IRline::Jump(_) => {
                self.next();
                Ok(Step::Next)
            },
            IRline::JumpIf(_, _) => {
                self.next();
                Ok(Step::Next)
            },
            IRline::End => Ok(Step::Halted),
            IRline::Label(_) => Err(Fault::LabelInStream),
        }
    }

    fn return_call(&mut self, code: &Vec<IRline>, val: &IRval) -> (did: Result<Step, Fault>)
        requires
            old(self)@.wf(),
        ensures
            final(self)@.wf(),
            (final(self)@, did_view(did)) == old(self)@.return_call(lines(code@), val@),
    {
        let copy_val = match self.get_copy_val(val) {
            Ok(v) => v,
            Err(e) => {
                return Err(e);
            },
        };
        let ghost m1 = self@;
        let depth: usize = self.stack.len();
        if depth <= 1 {
            return Err(Fault::ReturnAtTopLevel);
        }
        let at: usize = self.stack[depth - 1].return_loc;
        assert(at == m1.top().return_loc);
        if at >= code.len() {
            return Err(Fault::OutOfCode);
        }
        assert(lines(code@)[at as int] == code@[at as int]@);
        self.position = at;
        self.stack.pop();
        let ghost back = self@;
        assert(back.stack =~= m1.stack.drop_last());
        if let IRline::Call(IRval::Temp(id), _) = &code[at] {
            let top_stack: usize = self.stack.len() - 1;
            let ghost before = self.stack@[top_stack as int].temps@;
            self.stack[top_stack].temps.push((*id, copy_val));
            assert(bindings(before.push((*id, copy_val))) =~= bindings(before).push(
                (*id, copy_val@),
            ));
            assert(self@.stack =~= back.stack.update(
                back.stack.len() - 1,
                Frame { temps: back.top().temps.push((*id, copy_val@)), ..back.top() },
            ));
        }
        self.next();
        Ok(Step::Next)
    }

    fn call(&mut self, caller: &IRval) -> (did: Result<Step, Fault>)
        requires
            old(self)@.wf(),
            old(self).position < usize::MAX,
        ensures
            final(self)@.wf(),
            (final(self)@, did_view(did)) == old(self)@.call(caller@),
    {
        let inner_val = match self.get_copy_val(caller) {
            Ok(v) => v,
            Err(e) => {
                return Err(e);
            },
        };
        if let IRval::Fn(fn_id) = inner_val {
            let new_stack = StackFrame {
                temps: Vec::new(),
                syms: Vec::new(),
                return_loc: self.position,
            };
            assert(new_stack@.temps =~= Seq::empty());
            assert(new_stack@.syms =~= Seq::empty());
            let ghost m1 = self@;
            self.stack.push(new_stack);
            self.position = fn_id;
            assert(self@.stack =~= m1.stack.push(
                Frame { return_loc: m1.position, temps: Seq::empty(), syms: Seq::empty() },
            ));
            Ok(Step::Next)
        } else {
            self.next();
            Ok(Step::Wrote(Output::NotCallable))
        }
    }

    fn print(&mut self, val: &IRval) -> (did: Result<Step, Fault>)
        requires
            old(self)@.wf(),
            old(self).position < usize::MAX,
        ensures
            final(self)@.wf(),
            (final(self)@, did_view(did)) == old(self)@.print(val@),
    {
        let inner_val = match self.get_copy_val(val) {
            Ok(v) => v,
            Err(e) => {
                return Err(e);
            },
        };
        let out: Option<Output> = match inner_val {
            IRval::Nil => Some(Output::Nil),
            IRval::Int(i) => Some(Output::Int(i)),
            IRval::StrID(str_id) => {
                if str_id >= self.strings.len() {
                    return Err(Fault::UnknownString(str_id));
                }
                Some(Output::Text(self.strings[str_id].clone()))
            },
            _ => None,
        };
        self.next();
        match out {
            Some(out) => Ok(Step::Wrote(out)),
            None => Ok(Step::Next),
        }
    }

    /// The entry of the string table.
    pub fn get_str(&self, str_id: StrID) -> (text: &str)
        requires
            str_id < self@.strings.len(),
        ensures
            text@ == self@.strings[str_id as int],
    {
        self.strings[str_id].as_str()
    }

    fn next(&mut self)
        requires
            old(self).position < usize::MAX,
        ensures
            final(self)@ == old(self)@.advance(),
    {
        self.position += 1;
    }

    fn load(&mut self, from: &IRval, to: &IRval) -> (did: Result<Step, Fault>)
        requires
            old(self)@.wf(),
            old(self).position < usize::MAX,
        ensures
            final(self)@.wf(),
            (final(self)@, did_view(did)) == old(self)@.load(from@, to@),
    {
        let copy_val = match self.get_copy_val(from) {
            Ok(v) => v,
            Err(e) => {
                return Err(e);
            },
        };
        match to {
            IRval::Arg => {
                assert(operands(self.args@.push(copy_val)) =~= operands(self.args@).push(
                    copy_val@,
                ));
                self.args.push(copy_val);
            },
            IRval::Sym(sym_id) => {
                self.bind_sym(*sym_id, copy_val);
            },
            IRval::Temp(temp_id) => {
                self.bind_temp(*temp_id, copy_val);
            },
            _ => {
                return Err(Fault::BadDestination);
            },
        }
        self.next();
        Ok(Step::Next)
    }

    /// Upserts a symbol in the current frame.
    fn bind_sym(&mut self, sym_id: SymID, val: IRval)
        requires
            old(self)@.wf(),
        ensures
            final(self)@ == old(self)@.bind_sym(sym_id, val@),
    {
        let top_stack: usize = self.stack.len() - 1;
        upsert(&mut self.stack[top_stack].syms, sym_id, val);
        assert(self@.stack =~= old(self)@.bind_sym(sym_id, val@).stack);
    }

    /// Upserts a temporary in the current frame.
    fn bind_temp(&mut self, temp_id: TempID, val: IRval)
        requires
            old(self)@.wf(),
        ensures
            final(self)@ == old(self)@.bind_temp(temp_id, val@),
    {
        let top_stack: usize = self.stack.len() - 1;
        upsert(&mut self.stack[top_stack].temps, temp_id, val);
        assert(self@.stack =~= old(self)@.bind_temp(temp_id, val@).stack);
    }

    fn op(&mut self, result: &IRval, op: IRop, left: &IRval, right: &IRval) -> (did: Result<
        Step,
        Fault,
    >)
        requires
            old(self)@.wf(),
            old(self).position < usize::MAX,
        ensures
            final(self)@.wf(),
            (final(self)@, did_view(did)) == old(self)@.op(result@, op, left@, right@),
    {
        let left_val = match self.get_copy_val(left) {
            Ok(v) => v,
            Err(e) => {
                return Err(e);
            },
        };
        let right_val = match self.get_copy_val(right) {
            Ok(v) => v,
            Err(e) => {
                return Err(e);
            },
        };
        match (left_val, right_val) {
            (IRval::Int(left_int), IRval::Int(right_int)) => {
                let result_val = match op {
                    IRop::Minus => IRval::Int(left_int.wrapping_sub(right_int)),
                    IRop::Plus => IRval::Int(left_int.wrapping_add(right_int)),
                };
                match result {
                    IRval::Temp(temp_id) => {
                        self.bind_temp(*temp_id, result_val);
                    },
                    _ => {},
                }
            },
            _ => {},
        }
        self.next();
        Ok(Step::Next)
    }

    /// Finds the value that an operand stands for. Reading a symbol or a
    /// temporary changes nothing; reading the argument channel pops it; a
    /// string literal is put into the string table.
    fn get_copy_val(&mut self, val: &IRval) -> (found: Result<IRval, Fault>)
        requires
            old(self)@.wf(),
        ensures
            final(self)@.wf(),
            final(self).position == old(self).position,
            (final(self)@, found_view(found)) == old(self)@.resolve(val@),
    {
        match val {
            IRval::Arg => match self.pop_arg() {
                Some(v) => Ok(v),
                None => Err(Fault::NoArgument),
            },
            IRval::Sym(sym_id) => match self.get_sym_val(*sym_id) {
                Some(v) => Ok(v),
                None => Err(Fault::UnboundSymbol(*sym_id)),
            },
            IRval::Temp(temp_id) => match self.get_temp_val(*temp_id) {
                Some(v) => Ok(v),
                None => Err(Fault::UnboundTemp(*temp_id)),
            },
            IRval::String(s) => Ok(self.new_string(s.clone())),
            _ => Ok(val.clone()),
        }
    }

    fn new_string(&mut self, s: String) -> (id: IRval)
        ensures
            final(self)@ == (Machine { strings: old(self)@.strings.push(s@), ..old(self)@ }),
            id == IRval::StrID(old(self)@.strings.len() as usize),
    {
        let str_id: usize = self.strings.len();
        assert(texts(self.strings@.push(s)) =~= texts(self.strings@).push(s@));
        self.strings.push(s);
        assert(self@.stack =~= old(self)@.stack);
        IRval::StrID(str_id)
    }

    fn pop_arg(&mut self) -> (arg: Option<IRval>)
        ensures
            old(self)@.args.len() == 0 ==> arg is None && final(self)@ == old(self)@,
            old(self)@.args.len() > 0 ==> arg is Some && arg->Some_0@ == old(self)@.args.last()
                && final(self)@ == (Machine { args: old(self)@.args.drop_last(), ..old(self)@ }),
    {
        let ghost before = self.args@;
        let arg = self.args.pop();
        assert(self@.stack =~= old(self)@.stack);
        proof {
            if before.len() > 0 {
                assert(operands(before.drop_last()) =~= operands(before).drop_last());
            } else {
                assert(self@.args =~= old(self)@.args);
            }
        }
        arg
    }

    /// The value of a symbol, searched from the innermost frame outwards.
    fn get_sym_val(&self, sym_id: SymID) -> (found: Option<IRval>)
        ensures
            match lookup_sym(self@.stack, sym_id) {
                Some(val) => found is Some && found->Some_0@ == val,
                None => found is None,
            },
    {
        let mut depth: usize = self.stack.len();
        assert(self@.stack.take(depth as int) =~= self@.stack);
        while depth > 0
            invariant
                depth <= self.stack@.len(),
                lookup_sym(self@.stack, sym_id) == lookup_sym(
                    self@.stack.take(depth as int),
                    sym_id,
                ),
            decreases depth,
        {
            depth -= 1;
            let frame = &self.stack[depth];
            proof {
                let upto = self@.stack.take(depth + 1);
                assert(upto.last() == frame@);
                assert(upto.drop_last() =~= self@.stack.take(depth as int));
            }
            match find_binding(&frame.syms, sym_id) {
                Some(i) => {
                    return Some(frame.syms[i].1.clone());
                },
                None => {},
            }
        }
        None
    }

    /// The value of a temporary in the current frame.
    fn get_temp_val(&self, temp_id: TempID) -> (found: Option<IRval>)
        requires
            self@.wf(),
        ensures
            match lookup_temp(self@.stack, temp_id) {
                Some(val) => found is Some && found->Some_0@ == val,
                None => found is None,
            },
    {
        let frame = &self.stack[self.stack.len() - 1];
        assert(self@.stack.last() == frame@);
        match find_binding(&frame.temps, temp_id) {
            Some(i) => Some(frame.temps[i].1.clone()),
            None => None,
        }
    }
}

} // verus!
