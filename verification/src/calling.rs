//! The calling convention: what the pushes of a call and the pops of a
//! prologue, as the generator emits them, do on the machine.

use vstd::prelude::*;
use crate::generator::{arg_loads, param_loads};
use crate::interpreter::{
    bound, key_index, lemma_resolve_keeps, lookup_temp, upserted, Fault, Frame, Machine,
    OutputView, RunEnd, StepView,
};
use crate::ir::{Line, Operand};
use crate::tokens::Tok;
use crate::tree::{Tree, Val};

verus! {

/// What `key_index` finds is the first binding of the id at or after
/// `from`; it finds none only if there is none.
pub proof fn lemma_key_index_is_first(list: Seq<(usize, Operand)>, id: usize, from: int)
    requires
        0 <= from,
    ensures
        match key_index(list, id, from) {
            Some(i) => {
                &&& from <= i < list.len()
                &&& list[i].0 == id
                &&& forall|j: int| from <= j < i ==> list[j].0 != id
            },
            None => forall|j: int| from <= j < list.len() ==> list[j].0 != id,
        },
    decreases list.len() - from,
{
    if from < list.len() && list[from].0 != id {
        lemma_key_index_is_first(list, id, from + 1);
    }
}

/// The first binding of an id is what `key_index` finds.
pub proof fn lemma_first_is_key_index(list: Seq<(usize, Operand)>, id: usize, from: int, at: int)
    requires
        0 <= from <= at < list.len(),
        list[at].0 == id,
        forall|j: int| from <= j < at ==> list[j].0 != id,
    ensures
        key_index(list, id, from) == Some(at),
    decreases at - from,
{
    if from < at {
        lemma_first_is_key_index(list, id, from + 1, at);
    }
}

/// After an upsert the id is bound to the new value, and every other id is
/// bound as before.
pub proof fn lemma_bound_upserted(list: Seq<(usize, Operand)>, id: usize, val: Operand, key: usize)
    ensures
        bound(upserted(list, id, val), key) == if key == id {
            Some(val)
        } else {
            bound(list, key)
        },
{
    let after = upserted(list, id, val);
    lemma_key_index_is_first(list, id, 0);
    lemma_key_index_is_first(list, key, 0);
    match key_index(list, id, 0) {
        Some(i) => {
            assert(after.len() == list.len());
            assert forall|j: int| 0 <= j < list.len() implies after[j].0 == list[j].0 by {}
            match key_index(list, key, 0) {
                Some(k) => {
                    lemma_first_is_key_index(after, key, 0, k);
                },
                None => {
                    lemma_key_index_is_first(after, key, 0);
                    if key_index(after, key, 0) is Some {
                        let k = key_index(after, key, 0)->Some_0;
                        assert(list[k].0 != key);
                    }
                },
            }
        },
        None => {
            assert forall|j: int| 0 <= j < list.len() implies after[j] == list[j] by {}
            if key == id {
                lemma_first_is_key_index(after, key, 0, list.len() as int);
            } else {
                match key_index(list, key, 0) {
                    Some(k) => {
                        lemma_first_is_key_index(after, key, 0, k);
                    },
                    None => {
                        lemma_key_index_is_first(after, key, 0);
                        if key_index(after, key, 0) is Some {
                            let k = key_index(after, key, 0)->Some_0;
                            if k < list.len() {
                                assert(list[k].0 != key);
                            }
                        }
                    },
                }
            }
        },
    }
}

/// A run of pushes: `Load(v, Arg)` for each of the given integer values, in
/// order, puts them on the argument channel in that order and changes
/// nothing else.
pub proof fn lemma_pushes(m: Machine, code: Seq<Line>, vals: Seq<Operand>)
    requires
        m.wf(),
        m.position + vals.len() <= code.len(),
        m.position + vals.len() <= usize::MAX,
        forall|k: int|
            0 <= k < vals.len() ==> vals[k] is Int && #[trigger] code[m.position + k]
                == Line::Load(vals[k], Operand::Arg),
    ensures
        m.run(code, vals.len()) == (
            Machine {
                args: m.args + vals,
                position: (m.position + vals.len()) as usize,
                ..m
            },
            Seq::<OutputView>::empty(),
            RunEnd::OutOfFuel,
        ),
    decreases vals.len(),
{
    if vals.len() == 0 {
        assert(m.args + vals =~= m.args);
    } else {
        assert(code[m.position + 0] == Line::Load(vals[0], Operand::Arg));
        let next = m.step(code).0;
        assert(next == Machine { args: m.args.push(vals[0]), ..m }.advance());
        let rest = vals.drop_first();
        assert forall|k: int| 0 <= k < rest.len() implies rest[k] is Int && #[trigger] code[next.position
            + k] == Line::Load(rest[k], Operand::Arg) by {
            assert(code[m.position + (k + 1)] == Line::Load(vals[k + 1], Operand::Arg));
        }
        lemma_pushes(next, code, rest);
        assert(m.args.push(vals[0]) + rest =~= m.args + vals);
    }
}

/// A run of pops: `Load(Arg, Sym(s))` for each of the given distinct
/// symbols, in order, takes as many values off the argument channel, last
/// pushed first, and binds each symbol in the current frame to the value
/// that it took. Nothing else changes: the frames below, the rest of the
/// channel and every other symbol of the current frame are as before.
pub proof fn lemma_pops(
    m: Machine,
    code: Seq<Line>,
    syms: Seq<usize>,
    rest: Seq<Operand>,
    vals: Seq<Operand>,
)
    requires
        m.wf(),
        m.args == rest + vals,
        vals.len() == syms.len(),
        m.position + syms.len() <= code.len(),
        m.position + syms.len() <= usize::MAX,
        forall|k: int|
            0 <= k < syms.len() ==> #[trigger] code[m.position + k] == Line::Load(
                Operand::Arg,
                Operand::Sym(syms[k]),
            ),
        forall|i: int, j: int| 0 <= i < j < syms.len() ==> syms[i] != syms[j],
    ensures
        ({
            let (end, outs, how) = m.run(code, syms.len());
            &&& how == RunEnd::OutOfFuel
            &&& outs == Seq::<OutputView>::empty()
            &&& end.args == rest
            &&& end.position == m.position + syms.len()
            &&& end.strings == m.strings
            &&& end.stack.len() == m.stack.len()
            &&& end.stack.drop_last() == m.stack.drop_last()
            &&& end.top().temps == m.top().temps
            &&& end.top().return_loc == m.top().return_loc
            &&& forall|k: int|
                0 <= k < syms.len() ==> bound(end.top().syms, #[trigger] syms[k]) == Some(
                    vals[vals.len() - 1 - k],
                )
            &&& forall|other: usize|
                !syms.contains(other) ==> bound(end.top().syms, other) == bound(
                    m.top().syms,
                    other,
                )
        }),
    decreases syms.len(),
{
    if syms.len() == 0 {
        assert(rest + vals =~= rest);
    } else {
        let n = syms.len() as int;
        assert(code[m.position + 0] == Line::Load(Operand::Arg, Operand::Sym(syms[0])));
        let taken = vals[n - 1];
        assert(m.args.last() == taken);
        assert(m.args.drop_last() =~= rest + vals.drop_last());
        let popped = Machine { args: m.args.drop_last(), ..m };
        let next = m.step(code).0;
        assert(next == popped.bind_sym(syms[0], taken).advance());
        let later = syms.drop_first();
        assert forall|k: int| 0 <= k < later.len() implies #[trigger] code[next.position + k]
            == Line::Load(Operand::Arg, Operand::Sym(later[k])) by {
            assert(code[m.position + (k + 1)] == Line::Load(
                Operand::Arg,
                Operand::Sym(syms[k + 1]),
            ));
        }
        assert forall|i: int, j: int| 0 <= i < j < later.len() implies later[i] != later[j] by {
            assert(syms[i + 1] != syms[j + 1]);
        }
        lemma_pops(next, code, later, rest, vals.drop_last());
        let end = m.run(code, syms.len()).0;
        assert(end == next.run(code, later.len()).0);
        assert(next.stack.drop_last() =~= m.stack.drop_last());
        assert forall|other: usize| bound(next.top().syms, other) == if other == syms[0] {
            Some(taken)
        } else {
            bound(m.top().syms, other)
        } by {
            lemma_bound_upserted(m.top().syms, syms[0], taken, other);
        }
        assert(!later.contains(syms[0])) by {
            if later.contains(syms[0]) {
                let j = choose|j: int| 0 <= j < later.len() && later[j] == syms[0];
                assert(syms[0] != syms[j + 1]);
            }
        }
        assert forall|k: int| 0 <= k < syms.len() implies bound(
            end.top().syms,
            #[trigger] syms[k],
        ) == Some(vals[vals.len() - 1 - k]) by {
            if k > 0 {
                assert(later[k - 1] == syms[k]);
                assert(vals.drop_last()[vals.drop_last().len() - 1 - (k - 1)] == vals[vals.len()
                    - 1 - k]);
            }
        }
        assert forall|other: usize| !syms.contains(other) implies bound(end.top().syms, other)
            == bound(m.top().syms, other) by {
            assert(syms[0] != other);
            if later.contains(other) {
                let j = choose|j: int| 0 <= j < later.len() && later[j] == other;
                assert(syms[j + 1] == other);
            }
        }
    }
}

/// A returned value reaches the caller: where the call names a temporary
/// that the caller has not bound yet, the `Return` leaves the caller
/// current, at the instruction behind the call, with that temporary bound
/// to the value that was returned.
pub proof fn lemma_return_reaches_caller(m: Machine, code: Seq<Line>, val: Operand, slot: usize)
    requires
        m.stack.len() >= 2,
        code.len() <= usize::MAX,
        m.position < code.len(),
        code[m.position as int] == Line::Return(val),
        m.resolve(val).1 is Ok,
        m.top().return_loc < code.len(),
        code[m.top().return_loc as int] matches Line::Call(Operand::Temp(t), _) && t == slot,
        bound(m.stack[m.stack.len() - 2].temps, slot) is None,
    ensures
        m.step(code).1 == Ok::<StepView, Fault>(StepView::Next),
        m.step(code).0.stack.len() == m.stack.len() - 1,
        m.step(code).0.position == m.top().return_loc + 1,
        lookup_temp(m.step(code).0.stack, slot) == Some(m.resolve(val).1->Ok_0),
{
    lemma_resolve_keeps(m, val);
    let caller = m.stack[m.stack.len() - 2];
    let value = m.resolve(val).1->Ok_0;
    let temps = caller.temps.push((slot, value));
    lemma_key_index_is_first(caller.temps, slot, 0);
    lemma_first_is_key_index(temps, slot, 0, caller.temps.len() as int);
    let after = m.step(code).0;
    assert(m.stack.drop_last().last() == caller);
    assert(after.stack.last().temps == temps);
}

/// A call of a value that is no function is reported and skipped: the run
/// goes on with the next instruction, and nothing but the report tells of
/// the call.
pub proof fn lemma_call_of_non_function_is_skipped(
    m: Machine,
    code: Seq<Line>,
    callee: Operand,
    fuel: nat,
)
    requires
        fuel > 0,
        m.position < code.len(),
        code[m.position as int] matches Line::Call(_, c) && c == callee,
        m.resolve(callee).1 is Ok,
        !(m.resolve(callee).1->Ok_0 is Fn),
    ensures
        ({
            let next = m.resolve(callee).0.advance();
            let (end, outs, how) = next.run(code, (fuel - 1) as nat);
            m.run(code, fuel) == (end, seq![OutputView::NotCallable] + outs, how)
        }),
{
}

/// An integer literal that is no call.
pub open spec fn is_literal(t: Tree) -> bool {
    t.token != Tok::FuncCall && t.val matches Some(Val::Int(_))
}

/// The operand of an integer literal.
pub open spec fn literal_of(t: Tree) -> Operand {
    match t.val {
        Some(Val::Int(v)) => Operand::Int(v),
        _ => Operand::Nil,
    }
}

/// The symbol that a parameter names.
pub open spec fn symbol_of(t: Tree) -> usize {
    match t.val {
        Some(Val::Sym(s)) => s,
        _ => 0,
    }
}

/// The prologue of parameters that all name a symbol pops them last stored
/// first.
pub proof fn lemma_param_loads_index(params: Seq<Tree>, from: int)
    requires
        0 <= from <= params.len(),
        forall|j: int|
            0 <= j < params.len() ==> (#[trigger] params[j]).val matches Some(Val::Sym(_)),
    ensures
        param_loads(params, from).len() == params.len() - from,
        forall|k: int|
            0 <= k < params.len() - from ==> #[trigger] param_loads(params, from)[k] == Line::Load(
                Operand::Arg,
                Operand::Sym(symbol_of(params[params.len() - 1 - k])),
            ),
    decreases params.len() - from,
{
    if from < params.len() {
        lemma_param_loads_index(params, from + 1);
        assert(params[from].val matches Some(Val::Sym(_)));
    }
}

/// The machine as a call leaves it: a fresh frame, and the position at the
/// callee's first instruction.
pub open spec fn entered(m: Machine, return_loc: usize, at: usize) -> Machine {
    Machine {
        stack: m.stack.push(Frame { return_loc, temps: Seq::empty(), syms: Seq::empty() }),
        position: at,
        ..m
    }
}

/// Arguments and parameters pair in source order. Where a call pushes `n`
/// integer literals as the generator lays them out, and the callee's
/// prologue pops `n` parameters with distinct names as the generator lays
/// them out, the parameter stored at `j` is bound, in the callee's frame,
/// to the argument stored at `j`; both lists are stored in reverse of
/// source order, so the first parameter gets the first argument. The
/// argument channel is then as it was before the call.
pub proof fn lemma_arguments_meet_parameters(
    m: Machine,
    code: Seq<Line>,
    args: Seq<Tree>,
    params: Seq<Tree>,
    return_loc: usize,
    prologue: usize,
)
    requires
        m.wf(),
        args.len() == params.len(),
        forall|j: int| 0 <= j < args.len() ==> is_literal(#[trigger] args[j]),
        forall|j: int|
            0 <= j < params.len() ==> (#[trigger] params[j]).val matches Some(Val::Sym(_)),
        forall|i: int, j: int|
            0 <= i < j < params.len() ==> symbol_of(params[i]) != symbol_of(params[j]),
        m.position + args.len() <= code.len(),
        prologue + params.len() <= code.len(),
        code.len() <= usize::MAX,
        code.subrange(m.position as int, m.position + args.len()) == arg_loads(
            args,
            args.len() as int,
        ),
        code.subrange(prologue as int, prologue + params.len()) == param_loads(params, 0),
    ensures
        ({
            let pushed = m.run(code, args.len()).0;
            let done = entered(pushed, return_loc, prologue).run(code, params.len()).0;
            &&& done.args == m.args
            &&& done.stack.drop_last() == m.stack
            &&& forall|j: int|
                0 <= j < params.len() ==> bound(
                    done.top().syms,
                    symbol_of(#[trigger] params[j]),
                ) == Some(literal_of(args[j]))
        }),
{
    let n = args.len() as int;
    let vals = Seq::new(args.len(), |k: int| literal_of(args[k]));
    let pushes = code.subrange(m.position as int, m.position + n);
    assert forall|k: int| 0 <= k < vals.len() implies vals[k] is Int && #[trigger] code[m.position
        + k] == Line::Load(vals[k], Operand::Arg) by {
        assert(is_literal(args[k]));
        assert(pushes[k] == code[m.position + k]);
        assert(arg_loads(args, n)[k] == Line::Load(vals[k], Operand::Arg));
    }
    lemma_pushes(m, code, vals);
    let pushed = m.run(code, args.len()).0;
    let start = entered(pushed, return_loc, prologue);
    let syms = Seq::new(params.len(), |k: int| symbol_of(params[n - 1 - k]));
    lemma_param_loads_index(params, 0);
    let pops = code.subrange(prologue as int, prologue + n);
    assert forall|k: int| 0 <= k < syms.len() implies #[trigger] code[start.position + k]
        == Line::Load(Operand::Arg, Operand::Sym(syms[k])) by {
        assert(pops[k] == code[prologue + k]);
        assert(param_loads(params, 0)[k] == Line::Load(
            Operand::Arg,
            Operand::Sym(symbol_of(params[n - 1 - k])),
        ));
    }
    assert forall|i: int, j: int| 0 <= i < j < syms.len() implies syms[i] != syms[j] by {
        assert(symbol_of(params[n - 1 - j]) != symbol_of(params[n - 1 - i]));
    }
    lemma_pops(start, code, syms, m.args, vals);
    let done = start.run(code, params.len()).0;
    assert(start.stack.drop_last() =~= m.stack);
    assert forall|j: int| 0 <= j < params.len() implies bound(
        done.top().syms,
        symbol_of(#[trigger] params[j]),
    ) == Some(literal_of(args[j])) by {
        let k = n - 1 - j;
        assert(syms[k] == symbol_of(params[j]));
        assert(vals[vals.len() - 1 - k] == literal_of(args[j]));
    }
}

} // verus!
