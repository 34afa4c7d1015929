//! The intermediate representation: values, operators and instruction lines.

use vstd::prelude::*;

verus! {

pub type SymID = usize;

pub type TempID = usize;

pub type FnID = usize;

pub type StrID = usize;

pub type LabelID = usize;

/// An operand or result slot of an instruction.
#[derive(Debug, PartialEq)]
pub enum IRval {
    Nil,
    Int(i32),
    /// A string literal, carried inline until it is first resolved.
    String(String),
    /// An entry of the interpreter's string table.
    StrID(StrID),
    Sym(SymID),
    /// The result of the node with this id.
    Temp(TempID),
    /// The shared argument channel.
    Arg,
    /// A function: before backpatching the id of the declaring node,
    /// afterwards the address of the first body instruction.
    Fn(FnID),
}

#[derive(Debug, Clone, Copy, PartialEq, Eq, Structural)]
pub enum IRop {
    Plus,
    Minus,
}

/// One instruction.
#[derive(Debug, PartialEq)]
pub enum IRline {
    /// `Op(dest, operator, left, right)`
    Op(IRval, IRop, IRval, IRval),
    /// `Load(source, destination)`
    Load(IRval, IRval),
    Label(LabelID),
    Jump(LabelID),
    JumpIf(LabelID, IRval),
    /// `Call(result, callee)`
    Call(IRval, IRval),
    Return(IRval),
    Print(IRval),
    End,
}

impl Clone for IRval {
    fn clone(&self) -> (copy: IRval)
        ensures
            copy == *self,
    {
        match self {
            IRval::Nil => IRval::Nil,
            IRval::Int(i) => IRval::Int(*i),
            IRval::String(s) => IRval::String(s.clone()),
            IRval::StrID(id) => IRval::StrID(*id),
            IRval::Sym(id) => IRval::Sym(*id),
            IRval::Temp(id) => IRval::Temp(*id),
            IRval::Arg => IRval::Arg,
            IRval::Fn(id) => IRval::Fn(*id),
        }
    }
}

impl Clone for IRline {
    fn clone(&self) -> (copy: IRline)
        ensures
            copy == *self,
    {
        match self {
            IRline::Op(dest, op, left, right) => IRline::Op(
                dest.clone(),
                *op,
                left.clone(),
                right.clone(),
            ),
            IRline::Load(from, to) => IRline::Load(from.clone(), to.clone()),
            IRline::Label(id) => IRline::Label(*id),
            IRline::Jump(id) => IRline::Jump(*id),
            IRline::JumpIf(id, cond) => IRline::JumpIf(*id, cond.clone()),
            IRline::Call(result, callee) => IRline::Call(result.clone(), callee.clone()),
            IRline::Return(val) => IRline::Return(val.clone()),
            IRline::Print(val) => IRline::Print(val.clone()),
            IRline::End => IRline::End,
        }
    }
}

/// An operand as a value: as `IRval`, with a string as its characters.
pub enum Operand {
    Nil,
    Int(i32),
    Text(Seq<char>),
    StrID(StrID),
    Sym(SymID),
    Temp(TempID),
    Arg,
    Fn(FnID),
}

/// An instruction as a value: as `IRline`, over `Operand`.
pub enum Line {
    Op(Operand, IRop, Operand, Operand),
    Load(Operand, Operand),
    Label(LabelID),
    Jump(LabelID),
    JumpIf(LabelID, Operand),
    Call(Operand, Operand),
    Return(Operand),
    Print(Operand),
    End,
}

impl View for IRval {
    type V = Operand;

    open spec fn view(&self) -> Operand {
        match *self {
            IRval::Nil => Operand::Nil,
            IRval::Int(i) => Operand::Int(i),
            IRval::String(s) => Operand::Text(s@),
            IRval::StrID(id) => Operand::StrID(id),
            IRval::Sym(id) => Operand::Sym(id),
            IRval::Temp(id) => Operand::Temp(id),
            IRval::Arg => Operand::Arg,
            IRval::Fn(id) => Operand::Fn(id),
        }
    }
}

impl View for IRline {
    type V = Line;

    open spec fn view(&self) -> Line {
        match *self {
            IRline::Op(dest, op, left, right) => Line::Op(dest@, op, left@, right@),
            IRline::Load(from, to) => Line::Load(from@, to@),
            IRline::Label(id) => Line::Label(id),
            IRline::Jump(id) => Line::Jump(id),
            IRline::JumpIf(id, cond) => Line::JumpIf(id, cond@),
            IRline::Call(result, callee) => Line::Call(result@, callee@),
            IRline::Return(val) => Line::Return(val@),
            IRline::Print(val) => Line::Print(val@),
            IRline::End => Line::End,
        }
    }
}

/// The instructions of a stream as values.
pub open spec fn lines(code: Seq<IRline>) -> Seq<Line> {
    Seq::new(code.len(), |i: int| code[i]@)
}

impl Line {
    /// Whether the line is a `Label`.
    pub open spec fn is_label(self) -> bool {
        self is Label
    }

    /// Whether the line is a `Return`.
    pub open spec fn is_return(self) -> bool {
        self is Return
    }

    /// Whether function references stand nowhere in the line but as the
    /// source of a `Load`.
    pub open spec fn tidy(self) -> bool {
        match self {
            Line::Op(dest, _, left, right) => !(dest is Fn) && !(left is Fn) && !(right is Fn),
            Line::Load(_, to) => !(to is Fn),
            Line::JumpIf(_, cond) => !(cond is Fn),
            Line::Call(result, callee) => !(result is Fn) && !(callee is Fn),
            Line::Return(val) => !(val is Fn),
            Line::Print(val) => !(val is Fn),
            _ => true,
        }
    }
}

} // verus!
