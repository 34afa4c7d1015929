//! Run-time checks of the invariants that the contracts ask for, for callers
//! that have not proved them.

use vstd::prelude::*;
use crate::ast::{distinct_names, Ast};
use crate::generator::{fn_ref_labelled, has_label, Generator};
use crate::interpreter::Interpreter;
use crate::ir::{lines, IRline, IRval, Line};
use crate::tokens::str_eq;

verus! {

/// Whether the operand is a function reference.
fn is_fn(val: &IRval) -> (yes: bool)
    ensures
        yes == (val@ is Fn),
{
    match val {
        IRval::Fn(_) => true,
        _ => false,
    }
}

/// Whether function references stand nowhere in the line but as the source
/// of a `Load`.
fn is_tidy(line: &IRline) -> (yes: bool)
    ensures
        yes == line@.tidy(),
{
    match line {
        IRline::Op(dest, _, left, right) => !is_fn(dest) && !is_fn(left) && !is_fn(right),
        IRline::Load(_, to) => !is_fn(to),
        IRline::JumpIf(_, cond) => !is_fn(cond),
        IRline::Call(result, callee) => !is_fn(result) && !is_fn(callee),
        IRline::Return(val) => !is_fn(val),
        IRline::Print(val) => !is_fn(val),
        _ => true,
    }
}

/// Whether the body holds `Label(id)`.
fn body_has_label(body: &Vec<IRline>, id: usize) -> (yes: bool)
    ensures
        yes == lines(body@).contains(Line::Label(id)),
{
    let n: usize = body.len();
    let mut k: usize = 0;
    while k < n
        invariant
            k <= n,
            n == body@.len(),
            forall|j: int| 0 <= j < k ==> lines(body@)[j] != Line::Label(id),
        decreases n - k,
    {
        if let IRline::Label(found) = &body[k] {
            if *found == id {
                assert(lines(body@)[k as int] == Line::Label(id));
                return true;
            }
        }
        assert(lines(body@)[k as int] == body@[k as int]@);
        k += 1;
    }
    false
}

impl Ast {
    /// Whether the symbol table holds no name twice.
    pub fn is_wf(&self) -> (ok: bool)
        ensures
            ok == self.wf(),
    {
        let n: usize = self.symbol_table.len();
        let mut j: usize = 0;
        while j < n
            invariant
                j <= n,
                n == self.symbol_table@.len(),
                forall|a: int, b: int| 0 <= a < b < j ==> self.names()[a] != self.names()[b],
            decreases n - j,
        {
            let mut i: usize = 0;
            while i < j
                invariant
                    i <= j,
                    j < n,
                    n == self.symbol_table@.len(),
                    forall|a: int| 0 <= a < i ==> self.names()[a] != self.names()[j as int],
                decreases j - i,
            {
                if str_eq(self.symbol_table[i].as_str(), self.symbol_table[j].as_str()) {
                    assert(self.names()[i as int] == self.names()[j as int]);
                    return false;
                }
                i += 1;
            }
            j += 1;
        }
        true
    }
}

impl Generator {
    /// Whether some function body holds `Label(id)`.
    fn has_label(&self, id: usize) -> (yes: bool)
        ensures
            yes == has_label(self@.funcs, id),
    {
        let n: usize = self.funcs.len();
        let mut f: usize = 0;
        while f < n
            invariant
                f <= n,
                n == self.funcs@.len(),
                forall|g: int, k: int|
                    0 <= g < f && 0 <= k < self@.funcs[g].len() ==> #[trigger] self@.funcs[g][k]
                        != Line::Label(id),
            decreases n - f,
        {
            if body_has_label(&self.funcs[f].code, id) {
                let ghost body = self@.funcs[f as int];
                let ghost k = choose|k: int| 0 <= k < body.len() && body[k] == Line::Label(id);
                assert(self@.funcs[f as int][k] == Line::Label(id));
                return true;
            }
            assert forall|k: int| 0 <= k < self@.funcs[f as int].len() implies #[trigger] self@.funcs[f
                as int][k] != Line::Label(id) by {
                if self@.funcs[f as int][k] == Line::Label(id) {
                    assert(self@.funcs[f as int].contains(Line::Label(id)));
                }
            }
            f += 1;
        }
        false
    }

    /// Whether the line may stand in the generator's code.
    fn line_ok(&self, line: &IRline) -> (ok: bool)
        ensures
            ok == fn_ref_labelled(self@.funcs, line@),
    {
        if !is_tidy(line) {
            return false;
        }
        match line {
            IRline::Load(IRval::Fn(id), _) => self.has_label(*id),
            _ => true,
        }
    }

    /// Whether every line of the stream may stand in the generator's code.
    fn lines_ok(&self, code: &Vec<IRline>) -> (ok: bool)
        ensures
            ok == forall|k: int|
                0 <= k < code@.len() ==> fn_ref_labelled(self@.funcs, #[trigger] lines(code@)[k]),
    {
        let n: usize = code.len();
        let mut k: usize = 0;
        while k < n
            invariant
                k <= n,
                n == code@.len(),
                forall|j: int|
                    0 <= j < k ==> fn_ref_labelled(self@.funcs, #[trigger] lines(code@)[j]),
            decreases n - k,
        {
            assert(lines(code@)[k as int] == code@[k as int]@);
            if !self.line_ok(&code[k]) {
                return false;
            }
            k += 1;
        }
        true
    }

    /// Whether function `f` is open.
    fn is_open(&self, f: usize) -> (yes: bool)
        ensures
            yes == self@.open.contains(f as int),
    {
        let n: usize = self.func_stack.len();
        let mut i: usize = 0;
        while i < n
            invariant
                i <= n,
                n == self.func_stack@.len(),
                forall|j: int| 0 <= j < i ==> self@.open[j] != f as int,
            decreases n - i,
        {
            if self.func_stack[i] == f {
                assert(self@.open[i as int] == f as int);
                return true;
            }
            i += 1;
        }
        false
    }

    /// Whether the open contexts are functions of the table, in table order.
    fn contexts_ok(&self) -> (ok: bool)
        ensures
            ok == self@.contexts_ok(),
    {
        let n: usize = self.func_stack.len();
        let mut i: usize = 0;
        while i < n
            invariant
                i <= n,
                n == self.func_stack@.len(),
                forall|j: int| 0 <= j < i ==> 0 <= #[trigger] self@.open[j] < self@.funcs.len(),
                forall|a: int, b: int|
                    0 <= a < b < i ==> (#[trigger] self@.open[a]) < (#[trigger] self@.open[b]),
            decreases n - i,
        {
            if self.func_stack[i] >= self.funcs.len() {
                assert(!(self@.open[i as int] < self@.funcs.len()));
                return false;
            }
            if i > 0 && self.func_stack[i - 1] >= self.func_stack[i] {
                assert(!(self@.open[i - 1] < self@.open[i as int]));
                return false;
            }
            assert forall|a: int, b: int| 0 <= a < b < i + 1 implies (#[trigger] self@.open[a]) < (
            #[trigger] self@.open[b]) by {
                if b == i && a < i - 1 {
                    assert(self@.open[a] < self@.open[i - 1]);
                }
            }
            i += 1;
        }
        true
    }

    /// Whether every function that is not open ends with a `Return`.
    fn closed_ok(&self) -> (ok: bool)
        ensures
            ok == self@.closed_ok(),
    {
        let n: usize = self.funcs.len();
        let mut f: usize = 0;
        while f < n
            invariant
                f <= n,
                n == self.funcs@.len(),
                forall|g: int|
                    0 <= g < f && !self@.open.contains(g) ==> {
                        &&& (#[trigger] self@.funcs[g]).len() > 0
                        &&& self@.funcs[g].last().is_return()
                    },
            decreases n - f,
        {
            if !self.is_open(f) {
                let body = &self.funcs[f].code;
                assert(lines(body@) == self@.funcs[f as int]);
                if body.len() == 0 {
                    return false;
                }
                assert(lines(body@).last() == body@[body@.len() - 1]@);
                match &body[body.len() - 1] {
                    IRline::Return(_) => {},
                    _ => {
                        return false;
                    },
                }
            }
            f += 1;
        }
        true
    }

    /// Whether every load of a function reference names a labelled
    /// function and no other line holds a function reference.
    fn refs_ok(&self) -> (ok: bool)
        ensures
            ok == self@.refs_ok(),
    {
        assert(self@.code == lines(self.code@));
        if !self.lines_ok(&self.code) {
            let ghost at = choose|k: int|
                0 <= k < self.code@.len() && !fn_ref_labelled(
                    self@.funcs,
                    #[trigger] lines(self.code@)[k],
                );
            assert(!fn_ref_labelled(self@.funcs, self@.code[at]));
            return false;
        }
        let n: usize = self.funcs.len();
        let mut f: usize = 0;
        while f < n
            invariant
                f <= n,
                n == self.funcs@.len(),
                forall|g: int, k: int|
                    0 <= g < f && 0 <= k < self@.funcs[g].len() ==> fn_ref_labelled(
                        self@.funcs,
                        #[trigger] self@.funcs[g][k],
                    ),
            decreases n - f,
        {
            assert(lines(self.funcs@[f as int].code@) == self@.funcs[f as int]);
            if !self.lines_ok(&self.funcs[f].code) {
                return false;
            }
            f += 1;
        }
        true
    }

    /// Whether the generator is in a state that generation keeps: the open
    /// contexts are functions of the table, every loaded function reference
    /// names a labelled function, and every function that is not open ends
    /// with a `Return`.
    pub fn is_wf(&self) -> (ok: bool)
        ensures
            ok == self@.wf(),
    {
        self.contexts_ok() && self.refs_ok() && self.closed_ok()
    }
}

impl Interpreter {
    /// Whether the machine has its permanent frame.
    pub fn is_wf(&self) -> (ok: bool)
        ensures
            ok == self@.wf(),
    {
        self.stack.len() >= 1
    }
}

} // verus!
