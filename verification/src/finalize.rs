//! Finalization: the top-level stream gets its `End`, every function body is
//! laid out behind it, labels are removed and every function reference is
//! rewritten to the address of its function's first instruction.

use std::collections::HashMap;
use vstd::prelude::*;
use crate::generator::{
    fn_ref_labelled, has_label, lemma_append_plain_wf, lemma_lines_push, GenState, Generator,
};
use crate::ir::{lines, IRline, IRval, Line, Operand};

verus! {

broadcast use vstd::std_specs::hash::group_hash_axioms;

/// The stream without its labels.
pub open spec fn strip(s: Seq<Line>) -> Seq<Line>
    decreases s.len(),
{
    if s.len() == 0 {
        Seq::empty()
    } else if s.last().is_label() {
        strip(s.drop_last())
    } else {
        strip(s.drop_last()).push(s.last())
    }
}

/// The address of every label of the stream: the number of instructions
/// other than labels that stand before it. Of two labels with one id the
/// later counts.
pub open spec fn label_addrs(s: Seq<Line>) -> Map<usize, int>
    decreases s.len(),
{
    if s.len() == 0 {
        Map::empty()
    } else {
        match s.last() {
            Line::Label(id) => label_addrs(s.drop_last()).insert(
                id,
                strip(s.drop_last()).len() as int,
            ),
            _ => label_addrs(s.drop_last()),
        }
    }
}

/// The line with a loaded function reference rewritten to an address.
pub open spec fn patched(line: Line, addrs: Map<usize, int>) -> Line {
    match line {
        Line::Load(Operand::Fn(id), to) => Line::Load(Operand::Fn(addrs[id] as usize), to),
        _ => line,
    }
}

/// The executable stream of a laid-out stream: labels removed, function
/// references resolved.
pub open spec fn finalized(s: Seq<Line>) -> Seq<Line> {
    strip(s).map_values(|line: Line| patched(line, label_addrs(s)))
}

/// The top-level stream followed by every function body, in table order.
pub open spec fn laid_out(st: GenState) -> Seq<Line> {
    st.code + st.funcs.flatten()
}

/// Every line is tidy, and every loaded function reference names a label of
/// the stream.
pub open spec fn resolves(s: Seq<Line>) -> bool {
    forall|k: int|
        0 <= k < s.len() ==> (#[trigger] s[k]).tidy() && (s[k] matches Line::Load(
            Operand::Fn(id),
            _,
        ) ==> s.contains(Line::Label(id)))
}

/// A line of the executable stream: no label, function references only as
/// the source of a `Load`, and each of them an index of the stream.
pub open spec fn executable(line: Line, len: nat) -> bool {
    &&& !line.is_label()
    &&& line.tidy()
    &&& line matches Line::Load(Operand::Fn(addr), _) ==> addr < len
}

/// Stripping keeps exactly the lines that are no labels.
pub proof fn lemma_strip_members(s: Seq<Line>)
    ensures
        strip(s).len() <= s.len(),
        forall|k: int| 0 <= k < strip(s).len() ==> !(#[trigger] strip(s)[k]).is_label(),
        forall|k: int| 0 <= k < strip(s).len() ==> s.contains(#[trigger] strip(s)[k]),
    decreases s.len(),
{
    if s.len() > 0 {
        let rest = s.drop_last();
        lemma_strip_members(rest);
        assert forall|k: int| 0 <= k < strip(s).len() implies s.contains(
            #[trigger] strip(s)[k],
        ) by {
            if k < strip(rest).len() {
                assert(strip(s)[k] == strip(rest)[k]);
                let j = choose|j: int| 0 <= j < rest.len() && rest[j] == strip(rest)[k];
                assert(s[j] == strip(s)[k]);
            } else {
                assert(s[s.len() - 1] == strip(s)[k]);
            }
        }
    }
}

/// The labels that have an address are those that occur, and no address
/// lies behind the stream's end; none lies at the end itself unless the
/// stream ends with a label.
pub proof fn lemma_label_addrs(s: Seq<Line>)
    ensures
        forall|id: usize| #[trigger]
            label_addrs(s).contains_key(id) <==> s.contains(Line::Label(id)),
        forall|id: usize| #[trigger]
            label_addrs(s).contains_key(id) ==> 0 <= label_addrs(s)[id] <= strip(s).len(),
        s.len() > 0 && !s.last().is_label() ==> forall|id: usize| #[trigger]
            label_addrs(s).contains_key(id) ==> label_addrs(s)[id] < strip(s).len(),
    decreases s.len(),
{
    if s.len() > 0 {
        let rest = s.drop_last();
        lemma_label_addrs(rest);
        lemma_strip_members(rest);
        assert forall|id: usize| #[trigger]
            label_addrs(s).contains_key(id) <==> s.contains(Line::Label(id)) by {
            if s.contains(Line::Label(id)) {
                let j = choose|j: int| 0 <= j < s.len() && s[j] == Line::Label(id);
                if j < rest.len() {
                    assert(rest[j] == Line::Label(id));
                    assert(rest.contains(Line::Label(id)));
                    assert(label_addrs(rest).contains_key(id));
                } else {
                    assert(s.last() == Line::Label(id));
                }
                assert(label_addrs(s).contains_key(id));
            }
            if label_addrs(s).contains_key(id) {
                if s.last() == Line::Label(id) {
                    assert(s[s.len() - 1] == Line::Label(id));
                } else {
                    assert(label_addrs(rest).contains_key(id));
                    assert(rest.contains(Line::Label(id)));
                    let j = choose|j: int| 0 <= j < rest.len() && rest[j] == Line::Label(id);
                    assert(s[j] == Line::Label(id));
                }
                assert(s.contains(Line::Label(id)));
            }
        }
        assert forall|id: usize| #[trigger] label_addrs(s).contains_key(id) implies 0
            <= label_addrs(s)[id] <= strip(s).len() && (!s.last().is_label() ==> label_addrs(
            s,
        )[id] < strip(s).len()) by {
            if s.last() == Line::Label(id) {
            } else {
                assert(label_addrs(rest).contains_key(id));
                assert(label_addrs(s)[id] == label_addrs(rest)[id]);
            }
        }
    } else {
        assert forall|id: usize| !s.contains(Line::Label(id)) by {}
    }
}

/// A stream that resolves becomes executable, provided it does not end with
/// a label.
pub proof fn lemma_finalized_executable(s: Seq<Line>)
    requires
        resolves(s),
        s.len() > 0,
        !s.last().is_label(),
    ensures
        forall|k: int|
            0 <= k < finalized(s).len() ==> executable(
                #[trigger] finalized(s)[k],
                finalized(s).len(),
            ),
{
    lemma_strip_members(s);
    lemma_label_addrs(s);
    let addrs = label_addrs(s);
    assert forall|k: int| 0 <= k < finalized(s).len() implies executable(
        #[trigger] finalized(s)[k],
        finalized(s).len(),
    ) by {
        let line = strip(s)[k];
        assert(!line.is_label());
        assert(s.contains(line));
        let j = choose|j: int| 0 <= j < s.len() && s[j] == line;
        assert(s[j].tidy());
        match line {
            Line::Load(Operand::Fn(id), _) => {
                assert(s.contains(Line::Label(id)));
                assert(addrs.contains_key(id));
            },
            _ => {},
        }
    }
}

/// What is stripped from a prefix of the stream is a prefix of what is
/// stripped from the stream.
pub proof fn lemma_strip_prefix(s: Seq<Line>, n: int)
    requires
        0 <= n <= s.len(),
    ensures
        strip(s.take(n)).len() <= strip(s).len(),
        strip(s.take(n)) == strip(s).take(strip(s.take(n)).len() as int),
    decreases s.len() - n,
{
    if n == s.len() {
        assert(s.take(n) =~= s);
        assert(strip(s).take(strip(s).len() as int) =~= strip(s));
    } else {
        lemma_strip_prefix(s, n + 1);
        let longer = s.take(n + 1);
        assert(longer.drop_last() =~= s.take(n));
        let short = strip(s.take(n));
        assert(short =~= strip(longer).take(short.len() as int));
        assert(strip(longer).take(short.len() as int) =~= strip(s).take(short.len() as int));
    }
}

/// The address of a label is the number of instructions other than labels
/// before its last occurrence.
pub proof fn lemma_addr_of_last(s: Seq<Line>, at: int, id: usize)
    requires
        0 <= at < s.len(),
        s[at] == Line::Label(id),
        forall|k: int| at < k < s.len() ==> s[k] != Line::Label(id),
    ensures
        label_addrs(s).contains_key(id),
        label_addrs(s)[id] == strip(s.take(at)).len(),
    decreases s.len(),
{
    let rest = s.drop_last();
    if at == s.len() - 1 {
        assert(rest =~= s.take(at));
    } else {
        assert(s[s.len() - 1] != Line::Label(id));
        lemma_addr_of_last(rest, at, id);
        assert(rest.take(at) =~= s.take(at));
    }
}

/// A resolved function reference is the index of the function's first
/// instruction: where a label's last occurrence is followed by an
/// instruction, that instruction stands at the label's address in the
/// executable stream.
pub proof fn lemma_address_is_first_instruction(s: Seq<Line>, at: int, id: usize)
    requires
        0 <= at < s.len() - 1,
        s[at] == Line::Label(id),
        forall|k: int| at < k < s.len() ==> s[k] != Line::Label(id),
        !s[at + 1].is_label(),
    ensures
        label_addrs(s).contains_key(id),
        0 <= label_addrs(s)[id] < finalized(s).len(),
        finalized(s)[label_addrs(s)[id]] == patched(s[at + 1], label_addrs(s)),
{
    lemma_addr_of_last(s, at, id);
    lemma_strip_prefix(s, at + 2);
    let upto = s.take(at + 2);
    assert(upto.drop_last() =~= s.take(at + 1));
    assert(s.take(at + 1).drop_last() =~= s.take(at));
    assert(s.take(at + 1).last() == s[at]);
    assert(upto.last() == s[at + 1]);
    assert(strip(s.take(at + 1)) == strip(s.take(at)));
    assert(strip(upto) == strip(s.take(at + 1)).push(s[at + 1]));
    let addr = strip(s.take(at)).len() as int;
    assert(strip(upto)[addr] == s[at + 1]);
    assert(strip(s).take(strip(upto).len() as int)[addr] == strip(s)[addr]);
}

/// Some function body holds the line.
pub open spec fn in_bodies(bodies: Seq<Seq<Line>>, line: Line) -> bool {
    exists|f: int, k: int|
        0 <= f < bodies.len() && 0 <= k < bodies[f].len() && #[trigger] bodies[f][k] == line
}

/// Every line of a function body is a line of the flattened table, and the
/// flattened table holds no other lines.
pub proof fn lemma_flatten_members(bodies: Seq<Seq<Line>>)
    ensures
        forall|f: int, k: int|
            0 <= f < bodies.len() && 0 <= k < bodies[f].len() ==> bodies.flatten().contains(
                #[trigger] bodies[f][k],
            ),
        forall|j: int|
            0 <= j < bodies.flatten().len() ==> in_bodies(bodies, #[trigger] bodies.flatten()[j]),
        bodies.len() > 0 && bodies.last().len() > 0 ==> bodies.flatten().len() > 0
            && bodies.flatten().last() == bodies.last().last(),
    decreases bodies.len(),
{
    if bodies.len() > 0 {
        let rest = bodies.drop_last();
        let tail = bodies.last();
        lemma_flatten_members(rest);
        assert(bodies =~= rest.push(tail));
        rest.lemma_flatten_push(tail);
        let flat = bodies.flatten();
        assert(flat =~= rest.flatten() + tail);
        assert forall|f: int, k: int|
            0 <= f < bodies.len() && 0 <= k < bodies[f].len() implies flat.contains(
            #[trigger] bodies[f][k],
        ) by {
            if f < rest.len() {
                assert(rest[f][k] == bodies[f][k]);
                assert(rest.flatten().contains(rest[f][k]));
                let j = choose|j: int| 0 <= j < rest.flatten().len() && rest.flatten()[j] == rest[f][k];
                assert(flat[j] == bodies[f][k]);
            } else {
                assert(flat[rest.flatten().len() + k] == bodies[f][k]);
            }
        }
        assert forall|j: int| 0 <= j < flat.len() implies in_bodies(bodies, #[trigger] flat[j]) by {
            if j < rest.flatten().len() {
                assert(in_bodies(rest, rest.flatten()[j]));
                let (f, k) = choose|f: int, k: int|
                    0 <= f < rest.len() && 0 <= k < rest[f].len() && #[trigger] rest[f][k]
                        == rest.flatten()[j];
                assert(bodies[f][k] == flat[j]);
            } else {
                let k = j - rest.flatten().len();
                assert(bodies[bodies.len() - 1][k] == flat[j]);
            }
        }
    } else {
        assert(bodies.flatten() =~= Seq::<Line>::empty());
    }
}

/// The stream laid out from a state that keeps the generator's invariant,
/// after `End` was emitted, resolves and does not end with a label.
pub proof fn lemma_laid_out_resolves(st: GenState)
    requires
        st.wf(),
    ensures
        resolves(laid_out(st.append(seq![Line::End]))),
        laid_out(st.append(seq![Line::End])).len() > 0,
        !laid_out(st.append(seq![Line::End])).last().is_label(),
{
    let ended = st.append(seq![Line::End]);
    lemma_append_plain_wf(st, seq![Line::End]);
    let s = laid_out(ended);
    let flat = ended.funcs.flatten();
    lemma_flatten_members(ended.funcs);
    assert forall|id: usize| has_label(ended.funcs, id) implies s.contains(Line::Label(id)) by {
        let (f, k) = choose|f: int, k: int|
            0 <= f < ended.funcs.len() && 0 <= k < ended.funcs[f].len()
                && #[trigger] ended.funcs[f][k] == Line::Label(id);
        assert(flat.contains(ended.funcs[f][k]));
        let j = choose|j: int| 0 <= j < flat.len() && flat[j] == Line::Label(id);
        assert(s[ended.code.len() + j] == Line::Label(id));
    }
    assert forall|k: int| 0 <= k < s.len() implies (#[trigger] s[k]).tidy() && (
    s[k] matches Line::Load(Operand::Fn(id), _) ==> s.contains(Line::Label(id))) by {
        if k < ended.code.len() {
            assert(s[k] == ended.code[k]);
            assert(fn_ref_labelled(ended.funcs, ended.code[k]));
        } else {
            let j = k - ended.code.len();
            assert(s[k] == flat[j]);
            assert(in_bodies(ended.funcs, flat[j]));
            let (f, i) = choose|f: int, i: int|
                0 <= f < ended.funcs.len() && 0 <= i < ended.funcs[f].len()
                    && #[trigger] ended.funcs[f][i] == flat[j];
            assert(fn_ref_labelled(ended.funcs, ended.funcs[f][i]));
        }
    }
    if ended.funcs.len() == 0 {
        assert(flat.len() == 0);
        if st.open.len() > 0 {
            assert(0 <= st.open[0] < st.funcs.len());
        }
        assert(s.last() == Line::End);
    } else {
        let last = ended.funcs.len() - 1;
        if ended.open.contains(last) {
            let i = choose|i: int| 0 <= i < ended.open.len() && ended.open[i] == last;
            if i < ended.open.len() - 1 {
                assert(ended.open[i] < ended.open[ended.open.len() - 1]);
            }
            assert(st.open.last() == last);
            assert(ended.funcs[last] == st.funcs[last] + seq![Line::End]);
            assert(ended.funcs[last].last() == Line::End);
        } else {
            assert(ended.funcs[last].len() > 0);
            assert(ended.funcs[last].last().is_return());
        }
        assert(flat.last() == ended.funcs.last().last());
        assert(s.last() == flat.last());
    }
}

impl Generator {
    /// Finalizes generation. `End` is emitted, the function bodies are laid
    /// out behind the top-level stream, and the stream is made executable:
    /// it then holds no label, and every function reference in it is the
    /// source of a `Load` and an index of the stream.
    pub fn complete_generation(&mut self)
        requires
            old(self)@.wf(),
        ensures
            final(self)@.code == finalized(laid_out(old(self)@.append(seq![Line::End]))),
            final(self)@.funcs == old(self)@.append(seq![Line::End]).funcs,
            final(self)@.open == old(self)@.open,
            forall|k: int|
                0 <= k < final(self)@.code.len() ==> executable(
                    #[trigger] final(self)@.code[k],
                    final(self)@.code.len(),
                ),
    {
        proof {
            lemma_laid_out_resolves(self@);
            lemma_finalized_executable(laid_out(self@.append(seq![Line::End])));
        }
        self.gen_end();
        self.concat_functions();
        self.remove_labels();
    }

    /// Copies every function body, in table order, to the end of the
    /// top-level stream.
    fn concat_functions(&mut self)
        ensures
            final(self)@.code == laid_out(old(self)@),
            final(self)@.funcs == old(self)@.funcs,
            final(self)@.open == old(self)@.open,
    {
        let n_funcs: usize = self.funcs.len();
        let mut f: usize = 0;
        assert(self@.funcs.take(0).flatten() =~= Seq::<Line>::empty());
        assert(self@.code =~= old(self)@.code + self@.funcs.take(0).flatten());
        while f < n_funcs
            invariant
                f <= n_funcs,
                n_funcs == self.funcs@.len(),
                self.funcs == old(self).funcs,
                self.func_stack == old(self).func_stack,
                self@.code == old(self)@.code + old(self)@.funcs.take(f as int).flatten(),
            decreases n_funcs - f,
        {
            let n_lines: usize = self.funcs[f].code.len();
            let mut k: usize = 0;
            let ghost done = self@.code;
            let ghost body = old(self)@.funcs[f as int];
            assert(body == lines(self.funcs@[f as int].code@));
            assert(self@.code =~= done + body.take(0));
            while k < n_lines
                invariant
                    f < n_funcs,
                    k <= n_lines,
                    n_funcs == self.funcs@.len(),
                    n_lines == self.funcs@[f as int].code@.len(),
                    self.funcs == old(self).funcs,
                    self.func_stack == old(self).func_stack,
                    body == lines(self.funcs@[f as int].code@),
                    self@.code == done + body.take(k as int),
                decreases n_lines - k,
            {
                let line = self.funcs[f].code[k].clone();
                proof {
                    lemma_lines_push(self.code@, line);
                    assert(line@ == body[k as int]);
                }
                self.code.push(line);
                assert(self@.code =~= done + body.take(k + 1));
                k += 1;
            }
            proof {
                let bodies = old(self)@.funcs;
                assert(body.take(n_lines as int) =~= body);
                assert(bodies.take(f + 1) =~= bodies.take(f as int).push(body));
                bodies.take(f as int).lemma_flatten_push(body);
            }
            f += 1;
        }
        assert(old(self)@.funcs.take(n_funcs as int) =~= old(self)@.funcs);
    }

    /// Removes the labels and rewrites every loaded function reference from
    /// the id of its label to the label's address.
    fn remove_labels(&mut self)
        requires
            resolves(old(self)@.code),
        ensures
            final(self)@.code == finalized(old(self)@.code),
            final(self)@.funcs == old(self)@.funcs,
            final(self)@.open == old(self)@.open,
    {
        let mut fixed_code: Vec<IRline> = Vec::new();
        let mut label_positions: HashMap<usize, usize> = HashMap::new();
        let ghost s = lines(self.code@);
        let n: usize = self.code.len();
        let mut i: usize = 0;
        assert(s.take(0) =~= Seq::<Line>::empty());
        assert(lines(fixed_code@) =~= Seq::<Line>::empty());
        assert(label_positions@.dom() =~= label_addrs(s.take(0)).dom());
        // first pass: drop the labels and record their positions
        while i < n
            invariant
                i <= n,
                n == s.len(),
                *self == *old(self),
                s == lines(self.code@),
                lines(fixed_code@) == strip(s.take(i as int)),
                label_positions@.dom() == label_addrs(s.take(i as int)).dom(),
                forall|id: usize| #[trigger]
                    label_positions@.contains_key(id) ==> label_positions@[id] as int
                        == label_addrs(s.take(i as int))[id],
            decreases n - i,
        {
            proof {
                assert(s.take(i + 1).drop_last() =~= s.take(i as int));
                assert(s.take(i + 1).last() == s[i as int]);
                assert(s[i as int] == self.code@[i as int]@);
                lemma_strip_members(s.take(i as int));
            }
            if let IRline::Label(label_id) = &self.code[i] {
                label_positions.insert(*label_id, fixed_code.len());
                assert(label_positions@.dom() =~= label_addrs(s.take(i + 1)).dom());
            } else {
                let line = self.code[i].clone();
                proof {
                    lemma_lines_push(fixed_code@, line);
                }
                fixed_code.push(line);
            }
            i += 1;
        }
        assert(s.take(n as int) =~= s);
        let ghost stripped = lines(fixed_code@);
        let ghost addrs = label_addrs(s);
        proof {
            lemma_strip_members(s);
            lemma_label_addrs(s);
        }
        // second pass: resolve the function references
        let m: usize = fixed_code.len();
        let mut j: usize = 0;
        while j < m
            invariant
                j <= m,
                m == stripped.len(),
                fixed_code@.len() == m,
                *self == *old(self),
                s == lines(self.code@),
                resolves(s),
                stripped == strip(s),
                addrs == label_addrs(s),
                forall|k: int| 0 <= k < stripped.len() ==> s.contains(#[trigger] stripped[k]),
                forall|id: usize| #[trigger]
                    addrs.contains_key(id) <==> s.contains(Line::Label(id)),
                label_positions@.dom() == addrs.dom(),
                forall|id: usize| #[trigger]
                    label_positions@.contains_key(id) ==> label_positions@[id] as int == addrs[id],
                forall|k: int| 0 <= k < j ==> fixed_code@[k]@ == patched(stripped[k], addrs),
                forall|k: int| j <= k < m ==> fixed_code@[k]@ == stripped[k],
            decreases m - j,
        {
            let ghost line = stripped[j as int];
            proof {
                assert(s.contains(line));
                let at = choose|at: int| 0 <= at < s.len() && s[at] == line;
                assert(s[at].tidy());
                assert(fixed_code@[j as int]@ == line);
            }
            let rewritten: Option<IRline> = match &fixed_code[j] {
                IRline::Load(IRval::Fn(id), to) => {
                    assert(s.contains(Line::Label(*id)));
                    assert(label_positions@.contains_key(*id));
                    let addr: usize = *label_positions.get(id).unwrap();
                    Some(IRline::Load(IRval::Fn(addr), to.clone()))
                },
                _ => None,
            };
            if let Some(new_line) = rewritten {
                fixed_code[j] = new_line;
            }
            j += 1;
        }
        assert(lines(fixed_code@) =~= finalized(s));
        self.code = fixed_code;
    }
}

} // verus!
