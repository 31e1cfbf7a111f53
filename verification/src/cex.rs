//! Counterexamples: step-indexed traces of variable assignments, built
//! from the model that the solver reports.

use vstd::prelude::*;
use crate::cst::{Cst, Value};
use crate::numeral::decimal_text;
use crate::sort::Sort;
use crate::term::{declares, is_declared, symbol, write_symbol, Var};

verus! {

/// The value of one variable.
#[derive(Debug)]
pub struct Binding {
    pub var: String,
    pub value: Cst,
}

/// The assignment of one state of a trace.
#[derive(Debug)]
pub struct State {
    /// The index of the state in the trace.
    pub step: usize,
    /// The values of the variables, in the order in which they came.
    pub values: Vec<Binding>,
}

/// Something that the solver reported and that fits no declared variable.
#[derive(Debug)]
pub struct Note {
    /// What was reported on.
    pub what: String,
    /// What was reported.
    pub value: String,
}

/// A counterexample: a trace of states from index 0 on, and whatever else
/// the solver reported.
#[derive(Debug)]
pub struct Cex {
    pub trace: Vec<State>,
    pub unexpected: Vec<Note>,
}

/// What the solver reports of one symbol: a constant, or text that is none.
#[derive(Debug)]
pub enum Reported {
    Value(Cst),
    Other(String),
}

/// One entry of a model: a name, the state index if the symbol had one,
/// and what was reported.
#[derive(Debug)]
pub struct ModelEntry {
    pub name: String,
    pub step: Option<usize>,
    pub value: Reported,
}

/// A counterexample as plain data: for each state the variables bound and
/// what they denote, and the unexpected reports as pairs of texts.
pub struct CexView {
    pub trace: Seq<Seq<(Seq<char>, Value)>>,
    pub unexpected: Seq<(Seq<char>, Seq<char>)>,
}

/// True when `name` is bound in the assignment.
pub open spec fn bound(values: Seq<(Seq<char>, Value)>, name: Seq<char>) -> bool {
    exists|j: int| 0 <= j < values.len() && (#[trigger] values[j]).0 == name
}

/// True when the entry gives a declared variable, in a state of the trace,
/// a constant of the variable's sort, and the variable is not bound there
/// yet.
pub open spec fn accepts(cex: CexView, decls: Seq<Var>, e: ModelEntry) -> bool {
    &&& e.step matches Some(s) && s < cex.trace.len() && !bound(cex.trace[s as int], e.name@)
    &&& e.value matches Reported::Value(c) && declares(decls, e.name@, c.sort())
}

/// The counterexample after one more entry: an entry that is accepted is
/// bound in its state, any other is kept among the unexpected.
pub open spec fn absorb(cex: CexView, decls: Seq<Var>, e: ModelEntry) -> CexView {
    if accepts(cex, decls, e) {
        let s = e.step->0 as int;
        CexView {
            trace: cex.trace.update(s, cex.trace[s].push((e.name@, e.bound_value()))),
            unexpected: cex.unexpected,
        }
    } else {
        CexView { trace: cex.trace, unexpected: cex.unexpected.push((e.what(), e.text())) }
    }
}

/// The counterexample of `n` states that a model gives.
pub open spec fn extracted(decls: Seq<Var>, n: nat, model: Seq<ModelEntry>) -> CexView
    decreases model.len(),
{
    if model.len() == 0 {
        CexView { trace: Seq::new(n, |i: int| Seq::empty()), unexpected: Seq::empty() }
    } else {
        absorb(extracted(decls, n, model.drop_last()), decls, model.last())
    }
}

/// The counterexample that a model gives has as many states as were
/// asked for.
pub proof fn lemma_extracted_len(decls: Seq<Var>, n: nat, model: Seq<ModelEntry>)
    ensures
        extracted(decls, n, model).trace.len() == n,
    decreases model.len(),
{
    if model.len() > 0 {
        lemma_extracted_len(decls, n, model.drop_last());
    }
}

/// The position of the first `@` of a text, or its length if it has none.
pub open spec fn first_at(t: Seq<char>) -> int
    decreases t.len(),
{
    if t.len() == 0 {
        0
    } else if t[0] == '@' {
        0
    } else {
        1 + first_at(t.subrange(1, t.len() as int))
    }
}

/// The name in a symbol: what stands before the first `@`.
pub open spec fn symbol_name(t: Seq<char>) -> Seq<char> {
    t.subrange(0, first_at(t))
}

/// The text of the state index in a symbol: what stands between the first
/// `@` and the next, or the end.
pub open spec fn symbol_index(t: Seq<char>) -> Seq<char> {
    let rest = t.subrange(first_at(t) + 1, t.len() as int);
    rest.subrange(0, first_at(rest))
}

/// The report that stands for an answer of `unknown`.
pub open spec fn unknown_note() -> (Seq<char>, Seq<char>) {
    ("check-sat"@, "unknown"@)
}

/// Where the first `@` of a text stands.
pub proof fn lemma_first_at(t: Seq<char>)
    ensures
        0 <= first_at(t) <= t.len(),
        forall|i: int| 0 <= i < first_at(t) ==> t[i] != '@',
        first_at(t) < t.len() ==> t[first_at(t)] == '@',
    decreases t.len(),
{
    if t.len() > 0 && t[0] != '@' {
        let rest = t.subrange(1, t.len() as int);
        lemma_first_at(rest);
        assert forall|i: int| 0 <= i < first_at(t) implies t[i] != '@' by {
            if i > 0 {
                assert(rest[i - 1] == t[i]);
            }
        }
        if first_at(t) < t.len() {
            assert(rest[first_at(rest)] == t[first_at(t)]);
        }
    }
}

/// The first `@` of a text is where a `@` stands with none before it.
pub proof fn lemma_first_at_is(t: Seq<char>, p: int)
    requires
        0 <= p <= t.len(),
        forall|i: int| 0 <= i < p ==> t[i] != '@',
        p < t.len() ==> t[p] == '@',
    ensures
        first_at(t) == p,
{
    lemma_first_at(t);
    let q = first_at(t);
    if q < p {
        assert(t[q] == '@');
    } else if p < q {
        assert(t[p] == '@');
    }
}

/// True when `step` is the state index of a symbol: the number that is
/// written in canonical decimal after the first `@`, if there is an `@`,
/// a number is written there, and it fits the machine's integers; and
/// none otherwise.
pub open spec fn step_read(text: Seq<char>, step: Option<usize>) -> bool {
    match step {
        Some(s) => first_at(text) < text.len() && symbol_index(text) == decimal_text(s as nat),
        None => first_at(text) == text.len() || forall|s: nat|
            s <= usize::MAX ==> symbol_index(text) != decimal_text(s),
    }
}

/// Takes a symbol apart: the name before the first `@`, and the state
/// index after it, if one is written there in decimal and fits the
/// machine's integers.
pub fn read_symbol(text: &str) -> (r: (String, Option<usize>))
    ensures
        r.0@ == symbol_name(text@),
        step_read(text@, r.1),
{
    let n: usize = text.unicode_len();
    let at: usize = find_at(text, 0, n);
    let name: String = String::from_str(text.substring_char(0, at));
    proof {
        lemma_first_at_is(text@, at as int);
    }
    if at == n {
        return (name, None);
    }
    let end: usize = find_at(text, at + 1, n);
    let index: &str = text.substring_char(at + 1, end);
    proof {
        let rest = text@.subrange(at + 1, n as int);
        assert forall|i: int| 0 <= i < end - (at + 1) implies rest[i] != '@' by {
            assert(rest[i] == text@[at + 1 + i]);
        }
        if end < n {
            assert(rest[end - (at + 1)] == text@[end as int]);
        }
        lemma_first_at_is(rest, end - (at + 1));
        assert(index@ =~= symbol_index(text@));
    }
    (name, crate::numeral::read_usize(index))
}

/// The position of the first `@` from `from` on, or `n` if there is none.
fn find_at(text: &str, from: usize, n: usize) -> (r: usize)
    requires
        from <= n,
        n == text@.len(),
    ensures
        from <= r <= n,
        forall|i: int| from <= i < r ==> text@[i] != '@',
        r < n ==> text@[r as int] == '@',
{
    let mut i: usize = from;
    while i < n
        invariant
            from <= i <= n,
            n == text@.len(),
            forall|j: int| from <= j < i ==> text@[j] != '@',
        decreases n - i,
    {
        if text.get_char(i) == '@' {
            return i;
        }
        i = i + 1;
    }
    i
}

impl ModelEntry {
    /// Constants are well formed.
    pub open spec fn wf(&self) -> bool {
        self.value matches Reported::Value(c) ==> c.wf()
    }

    /// What the entry reports on: the symbol, or the bare name.
    pub open spec fn what(&self) -> Seq<char> {
        match self.step {
            Some(s) => symbol(self.name@, s as nat),
            None => self.name@,
        }
    }

    /// What the entry reports, as text.
    pub open spec fn text(&self) -> Seq<char> {
        match self.value {
            Reported::Value(c) => c.text(),
            Reported::Other(t) => t@,
        }
    }

    /// What the reported constant denotes.
    pub open spec fn bound_value(&self) -> Value {
        match self.value {
            Reported::Value(c) => c.value(),
            Reported::Other(_) => Value::B(false),
        }
    }

    /// An entry that reports a constant.
    pub fn value(name: &str, step: Option<usize>, c: Cst) -> (r: ModelEntry)
        ensures
            r.name@ == name@,
            r.step == step,
            r.value == Reported::Value(c),
    {
        ModelEntry { name: String::from_str(name), step, value: Reported::Value(c) }
    }

    /// An entry that reports something else.
    pub fn other(name: &str, step: Option<usize>, text: &str) -> (r: ModelEntry)
        ensures
            r.name@ == name@,
            r.step == step,
            r.value matches Reported::Other(t) && t@ == text@,
    {
        ModelEntry { name: String::from_str(name), step, value: Reported::Other(String::from_str(text)) }
    }
}

impl State {
    /// The assignment as plain data.
    pub open spec fn bindings(&self) -> Seq<(Seq<char>, Value)> {
        Seq::new(self.values@.len(), |j: int| (self.values@[j].var@, self.values@[j].value.value()))
    }

    /// Every value is a well-formed constant of the sort declared for its
    /// variable.
    pub open spec fn sorted(&self, decls: Seq<Var>) -> bool {
        forall|j: int|
            0 <= j < self.values@.len() ==> {
                &&& (#[trigger] self.values@[j]).value.wf()
                &&& declares(decls, self.values@[j].var@, self.values@[j].value.sort())
            }
    }

    /// A copy of the state.
    pub fn duplicate(&self) -> (r: State)
        ensures
            r.step == self.step,
            r.bindings() == self.bindings(),
            forall|d: Seq<Var>| self.sorted(d) ==> r.sorted(d),
    {
        let mut values: Vec<Binding> = Vec::new();
        let mut j: usize = 0;
        while j < self.values.len()
            invariant
                j <= self.values@.len(),
                values@.len() == j,
                forall|k: int|
                    0 <= k < j ==> {
                        &&& (#[trigger] values@[k]).var@ == self.values@[k].var@
                        &&& values@[k].value.value() == self.values@[k].value.value()
                        &&& values@[k].value.sort() == self.values@[k].value.sort()
                        &&& (self.values@[k].value.wf() ==> values@[k].value.wf())
                    },
            decreases self.values@.len() - j,
        {
            values.push(
                Binding { var: self.values[j].var.clone(), value: self.values[j].value.duplicate() },
            );
            j = j + 1;
        }
        let r = State { step: self.step, values };
        assert(r.bindings() =~= self.bindings());
        r
    }

    /// The value of a variable in this state, if it has one.
    pub fn get(&self, var: &str) -> (r: Option<&Cst>)
        ensures
            match r {
                Some(c) => exists|j: int|
                    0 <= j < self.values@.len() && (#[trigger] self.values@[j]).var@ == var@
                        && self.values@[j].value == *c,
                None => !bound(self.bindings(), var@),
            },
    {
        let mut j: usize = 0;
        while j < self.values.len()
            invariant
                j <= self.values@.len(),
                forall|k: int| 0 <= k < j ==> (#[trigger] self.bindings()[k]).0 != var@,
            decreases self.values@.len() - j,
        {
            if crate::sys::same_text(self.values[j].var.as_str(), var) {
                return Some(&self.values[j].value);
            }
            j = j + 1;
        }
        None
    }
}

impl View for Cex {
    type V = CexView;

    open spec fn view(&self) -> CexView {
        CexView {
            trace: Seq::new(self.trace@.len(), |i: int| self.trace@[i].bindings()),
            unexpected: Seq::new(
                self.unexpected@.len(),
                |i: int| (self.unexpected@[i].what@, self.unexpected@[i].value@),
            ),
        }
    }
}

impl Cex {
    /// The states are numbered from 0 on.
    pub open spec fn wf(&self) -> bool {
        forall|i: int| 0 <= i < self.trace@.len() ==> (#[trigger] self.trace@[i]).step == i
    }

    /// Every value in the trace is a well-formed constant of the sort
    /// declared for its variable.
    pub open spec fn sorted(&self, decls: Seq<Var>) -> bool {
        forall|i: int| 0 <= i < self.trace@.len() ==> (#[trigger] self.trace@[i]).sorted(decls)
    }

    /// The counterexample that stands for an answer of `unknown`: no trace,
    /// and one report that says so.
    pub fn inconclusive() -> (r: Cex)
        ensures
            r.wf(),
            r@.trace.len() == 0,
            r@.unexpected == seq![unknown_note()],
    {
        let mut unexpected: Vec<Note> = Vec::new();
        unexpected.push(
            Note { what: String::from_str("check-sat"), value: String::from_str("unknown") },
        );
        let r = Cex { trace: Vec::new(), unexpected };
        assert(r@.unexpected =~= seq![unknown_note()]);
        r
    }

    /// Builds the counterexample of `n` states from the model that the
    /// solver reported. An entry is bound in the trace when it gives a
    /// declared variable, in one of the `n` states, a constant of its
    /// sort, for the first time; every other entry is kept among the
    /// unexpected reports, in the order in which it came.
    pub fn extract(decls: &Vec<Var>, n: usize, model: &Vec<ModelEntry>) -> (r: Cex)
        requires
            forall|i: int| 0 <= i < model.len() ==> (#[trigger] model[i]).wf(),
        ensures
            r@ == extracted(decls@, n as nat, model@),
            r@.trace.len() == n,
            r.wf(),
            r.sorted(decls@),
    {
        let mut cex = Cex { trace: Vec::new(), unexpected: Vec::new() };
        let mut s: usize = 0;
        while s < n
            invariant
                s <= n,
                cex.trace@.len() == s,
                cex.unexpected@.len() == 0,
                cex.wf(),
                forall|i: int| 0 <= i < s ==> (#[trigger] cex.trace@[i]).values@.len() == 0,
            decreases n - s,
        {
            cex.trace.push(State { step: s, values: Vec::new() });
            s = s + 1;
        }
        assert(cex@.trace =~~= Seq::new(n as nat, |i: int| Seq::empty()));
        assert(cex@.unexpected =~= Seq::empty());
        assert(model@.subrange(0, 0) =~= Seq::<ModelEntry>::empty());
        let mut i: usize = 0;
        while i < model.len()
            invariant
                i <= model.len(),
                forall|m: int| 0 <= m < model.len() ==> (#[trigger] model[m]).wf(),
                cex@ == extracted(decls@, n as nat, model@.subrange(0, i as int)),
                cex.trace@.len() == n,
                cex.wf(),
                cex.sorted(decls@),
            decreases model.len() - i,
        {
            let e: &ModelEntry = &model[i];
            let ghost before = cex@;
            proof {
                let head = model@.subrange(0, i + 1);
                assert(head.drop_last() =~= model@.subrange(0, i as int));
                assert(head.last() == model[i as int]);
            }
            let fit: Option<usize> = cex.slot_for(decls, e);
            match fit {
                Some(at) => {
                    let c: &Cst = match &e.value {
                        Reported::Value(c) => c,
                        Reported::Other(_) => {
                            proof {
                                assert(false);
                            }
                            return cex;
                        },
                    };
                    let mut st: State = cex.trace.remove(at);
                    st.values.push(Binding { var: e.name.clone(), value: c.duplicate() });
                    cex.trace.insert(at, st);
                    proof {
                        assert(cex@.trace =~~= before.trace.update(
                            at as int,
                            before.trace[at as int].push((e.name@, e.bound_value())),
                        ));
                        assert(cex@.unexpected =~= before.unexpected);
                        assert(cex.sorted(decls@)) by {
                            assert forall|k: int| 0 <= k < cex.trace@.len() implies (
                            #[trigger] cex.trace@[k]).sorted(decls@) by {
                                if k != at {
                                }
                            }
                        }
                    }
                },
                None => {
                    let mut what: String = String::new();
                    match e.step {
                        Some(st) => {
                            write_symbol(&e.name, st, &mut what);
                        },
                        None => {
                            what.append(e.name.as_str());
                        },
                    }
                    let mut value: String = String::new();
                    match &e.value {
                        Reported::Value(c) => {
                            c.write(&mut value);
                        },
                        Reported::Other(t) => {
                            value.append(t.as_str());
                        },
                    }
                    assert(what@ =~= e.what());
                    assert(value@ =~= e.text());
                    cex.unexpected.push(Note { what, value });
                    proof {
                        assert(cex@.trace =~= before.trace);
                        assert(cex@.unexpected =~= before.unexpected.push((e.what(), e.text())));
                    }
                },
            }
            i = i + 1;
        }
        assert(model@.subrange(0, model.len() as int) =~= model@);
        cex
    }

    /// The state in which the entry is to be bound, if it is accepted.
    fn slot_for(&self, decls: &Vec<Var>, e: &ModelEntry) -> (r: Option<usize>)
        requires
            e.wf(),
        ensures
            r is Some <==> accepts(self@, decls@, *e),
            r matches Some(s) ==> e.step == Some(s) && s < self.trace@.len(),
    {
        let s: usize = match e.step {
            Some(s) => s,
            None => {
                return None;
            },
        };
        if s >= self.trace.len() {
            return None;
        }
        let sort: Sort = match &e.value {
            Reported::Value(c) => c.get_sort(),
            Reported::Other(_) => {
                return None;
            },
        };
        let probe = Var { id: e.name.clone(), sort };
        if !is_declared(decls, &probe) {
            return None;
        }
        let held: Option<&Cst> = self.trace[s].get(e.name.as_str());
        match held {
            Some(_) => {
                proof {
                    let j = choose|j: int|
                        0 <= j < self.trace@[s as int].values@.len() && (
                        #[trigger] self.trace@[s as int].values@[j]).var@ == e.name@;
                    assert(self@.trace[s as int][j].0 == e.name@);
                }
                None
            },
            None => Some(s),
        }
    }

    /// A copy of the counterexample.
    pub fn duplicate(&self) -> (r: Cex)
        ensures
            r@ == self@,
            self.wf() ==> r.wf(),
            forall|d: Seq<Var>| self.sorted(d) ==> r.sorted(d),
    {
        let mut trace: Vec<State> = Vec::new();
        let mut i: usize = 0;
        while i < self.trace.len()
            invariant
                i <= self.trace@.len(),
                trace@.len() == i,
                forall|k: int| 0 <= k < i ==> (#[trigger] trace@[k]).step == self.trace@[k].step,
                forall|k: int| 0 <= k < i ==> (#[trigger] trace@[k]).bindings() == self.trace@[k].bindings(),
                forall|k: int, d: Seq<Var>|
                    0 <= k < i && self.trace@[k].sorted(d) ==> #[trigger] trace@[k].sorted(d),
            decreases self.trace@.len() - i,
        {
            let st: State = self.trace[i].duplicate();
            trace.push(st);
            i = i + 1;
        }
        let mut unexpected: Vec<Note> = Vec::new();
        let mut j: usize = 0;
        while j < self.unexpected.len()
            invariant
                j <= self.unexpected@.len(),
                unexpected@.len() == j,
                forall|k: int|
                    0 <= k < j ==> (#[trigger] unexpected@[k]).what@ == self.unexpected@[k].what@
                        && unexpected@[k].value@ == self.unexpected@[k].value@,
            decreases self.unexpected@.len() - j,
        {
            unexpected.push(
                Note { what: self.unexpected[j].what.clone(), value: self.unexpected[j].value.clone() },
            );
            j = j + 1;
        }
        let r = Cex { trace, unexpected };
        assert(r@.trace =~= self@.trace);
        assert(r@.unexpected =~= self@.unexpected);
        r
    }

    /// The number of states in the trace.
    pub fn len(&self) -> (r: usize)
        ensures
            r == self@.trace.len(),
    {
        self.trace.len()
    }
}

} // verus!
