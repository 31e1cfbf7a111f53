//! Transition systems: state variables, an initial predicate, a transition
//! predicate, and named candidate invariants.

use vstd::prelude::*;
use crate::sort::Sort;
use crate::term::{Term, Var};

verus! {

/// A named candidate invariant.
#[derive(Debug)]
pub struct Candidate {
    pub name: String,
    pub prop: Term,
}

/// Why a system is refused.
#[derive(Clone, Copy, Debug, PartialEq, Eq, Structural)]
pub enum SysError {
    /// A variable has an empty name, or two variables share a name.
    Decls,
    /// The initial predicate is not a Boolean term over the declared
    /// variables, or it refers to the previous state.
    Init,
    /// The transition predicate is not a Boolean term over the declared
    /// variables.
    Trans,
    /// A candidate is not a Boolean term over the declared variables, or it
    /// refers to the previous state, or two candidates share a name.
    Candidates,
}

/// True when every name is non-empty and no two are the same.
pub open spec fn decls_ok(decls: Seq<Var>) -> bool {
    &&& forall|i: int| 0 <= i < decls.len() ==> (#[trigger] decls[i]).id@.len() > 0
    &&& forall|i: int, j: int|
        0 <= i < j < decls.len() ==> (#[trigger] decls[i]).id@ != (#[trigger] decls[j]).id@
}

/// True of a Boolean term over `decls` that speaks of one state only.
pub open spec fn state_pred(t: Term, decls: Seq<Var>) -> bool {
    t.typing() == Some(Sort::Bool) && t.closed_under(decls) && !t.has_pre()
}

/// True of a Boolean term over `decls`, which may speak of the previous
/// state.
pub open spec fn step_pred(t: Term, decls: Seq<Var>) -> bool {
    t.typing() == Some(Sort::Bool) && t.closed_under(decls)
}

/// True when every candidate is a predicate on one state and no two
/// candidates share a name.
pub open spec fn candidates_ok(cands: Seq<Candidate>, decls: Seq<Var>) -> bool {
    &&& forall|i: int| 0 <= i < cands.len() ==> state_pred((#[trigger] cands[i]).prop, decls)
    &&& forall|i: int, j: int|
        0 <= i < j < cands.len() ==> (#[trigger] cands[i]).name@ != (#[trigger] cands[j]).name@
}

/// The length of the longest name among the declarations, 0 if there is
/// none.
pub open spec fn widest(decls: Seq<Var>) -> nat
    decreases decls.len(),
{
    if decls.len() == 0 {
        0
    } else {
        let w = widest(decls.drop_last());
        if decls.last().id@.len() > w {
            decls.last().id@.len()
        } else {
            w
        }
    }
}

/// The first reason to refuse a system, if there is one.
pub open spec fn refusal(decls: Seq<Var>, init: Term, trans: Term, cands: Seq<Candidate>) -> Option<
    SysError,
> {
    if !decls_ok(decls) {
        Some(SysError::Decls)
    } else if !state_pred(init, decls) {
        Some(SysError::Init)
    } else if !step_pred(trans, decls) {
        Some(SysError::Trans)
    } else if !candidates_ok(cands, decls) {
        Some(SysError::Candidates)
    } else {
        None
    }
}

/// A transition system. It cannot be changed once built.
#[derive(Debug)]
pub struct Sys {
    decls: Vec<Var>,
    init: Term,
    trans: Term,
    cands: Vec<Candidate>,
}

impl SysError {
    /// Why the system is refused, in words.
    pub open spec fn message(self) -> Seq<char> {
        match self {
            SysError::Decls => "a variable has no name, or two variables share a name"@,
            SysError::Init => "the initial predicate is not a predicate on one state"@,
            SysError::Trans => "the transition predicate is not a predicate on two states"@,
            SysError::Candidates => "a candidate is not a predicate on one state, or two candidates share a name"@,
        }
    }

    /// Why the system is refused, in words.
    pub fn describe(self) -> (r: &'static str)
        ensures
            r@ == self.message(),
    {
        match self {
            SysError::Decls => "a variable has no name, or two variables share a name",
            SysError::Init => "the initial predicate is not a predicate on one state",
            SysError::Trans => "the transition predicate is not a predicate on two states",
            SysError::Candidates => "a candidate is not a predicate on one state, or two candidates share a name",
        }
    }
}

impl Candidate {
    /// A candidate of the given name.
    pub fn new(name: &str, prop: Term) -> (r: Candidate)
        ensures
            r.name@ == name@,
            r.prop == prop,
    {
        Candidate { name: String::from_str(name), prop }
    }
}

impl Sys {
    /// The declarations, in order.
    pub closed spec fn decls(&self) -> Seq<Var> {
        self.decls@
    }

    /// The initial predicate.
    pub closed spec fn init(&self) -> Term {
        self.init
    }

    /// The transition predicate.
    pub closed spec fn trans(&self) -> Term {
        self.trans
    }

    /// The candidates, in order.
    pub closed spec fn cands(&self) -> Seq<Candidate> {
        self.cands@
    }

    /// The names of the candidates, in order.
    pub open spec fn names(&self) -> Seq<Seq<char>> {
        Seq::new(self.cands().len(), |i: int| self.cands()[i].name@)
    }

    /// The invariant of a system: what `refusal` checks.
    pub open spec fn wf(&self) -> bool {
        refusal(self.decls(), self.init(), self.trans(), self.cands()) is None
    }

    /// In a well-formed system no two candidates share a name.
    pub proof fn lemma_names_distinct(&self)
        requires
            self.wf(),
        ensures
            self.names().len() == self.cands().len(),
            forall|i: int, j: int|
                0 <= i < self.names().len() && 0 <= j < self.names().len() && i != j
                    ==> self.names()[i] != self.names()[j],
    {
        assert forall|i: int, j: int|
            0 <= i < self.names().len() && 0 <= j < self.names().len() && i
                != j implies self.names()[i] != self.names()[j] by {
            if i < j {
                assert(self.cands()[i].name@ != self.cands()[j].name@);
            } else {
                assert(self.cands()[j].name@ != self.cands()[i].name@);
            }
        }
    }

    /// Builds a system, or says why it is refused.
    pub fn new(decls: Vec<Var>, init: Term, trans: Term, cands: Vec<Candidate>) -> (r: Result<
        Sys,
        SysError,
    >)
        ensures
            match r {
                Ok(sys) => {
                    &&& refusal(decls@, init, trans, cands@) is None
                    &&& sys.wf()
                    &&& sys.decls() == decls@
                    &&& sys.init() == init
                    &&& sys.trans() == trans
                    &&& sys.cands() == cands@
                },
                Err(e) => refusal(decls@, init, trans, cands@) == Some(e),
            },
    {
        if !check_decls(&decls) {
            return Err(SysError::Decls);
        }
        if !is_state_pred(&init, &decls) {
            return Err(SysError::Init);
        }
        if !(is_bool(&trans) && trans.is_closed_under(&decls)) {
            return Err(SysError::Trans);
        }
        if !check_candidates(&cands, &decls) {
            return Err(SysError::Candidates);
        }
        Ok(Sys { decls, init, trans, cands })
    }

    /// The declarations, in order.
    pub fn get_decls(&self) -> (r: &Vec<Var>)
        ensures
            r@ == self.decls(),
    {
        &self.decls
    }

    /// The initial predicate.
    pub fn get_init(&self) -> (r: &Term)
        ensures
            *r == self.init(),
    {
        &self.init
    }

    /// The transition predicate.
    pub fn get_trans(&self) -> (r: &Term)
        ensures
            *r == self.trans(),
    {
        &self.trans
    }

    /// The candidates, in order.
    pub fn get_candidates(&self) -> (r: &Vec<Candidate>)
        ensures
            r@ == self.cands(),
    {
        &self.cands
    }

    /// The definition of the candidate of that name, if there is one.
    pub fn find(&self, name: &str) -> (r: Option<&Term>)
        ensures
            match r {
                Some(t) => exists|i: int|
                    0 <= i < self.cands().len() && (#[trigger] self.cands()[i]).name@ == name@
                        && self.cands()[i].prop == *t,
                None => forall|i: int|
                    0 <= i < self.cands().len() ==> (#[trigger] self.cands()[i]).name@ != name@,
            },
    {
        let mut i: usize = 0;
        while i < self.cands.len()
            invariant
                i <= self.cands@.len(),
                forall|j: int| 0 <= j < i ==> (#[trigger] self.cands@[j]).name@ != name@,
            decreases self.cands@.len() - i,
        {
            if same_text(self.cands[i].name.as_str(), name) {
                return Some(&self.cands[i].prop);
            }
            i = i + 1;
        }
        None
    }

    /// The length of the longest variable name: the width to which names
    /// are aligned when a counterexample is shown.
    pub fn max_id_len(&self) -> (r: usize)
        ensures
            r == widest(self.decls()),
    {
        let mut max: usize = 0;
        let mut i: usize = 0;
        assert(self.decls@.subrange(0, 0) =~= Seq::<Var>::empty());
        while i < self.decls.len()
            invariant
                i <= self.decls@.len(),
                max == widest(self.decls@.subrange(0, i as int)),
            decreases self.decls@.len() - i,
        {
            let n: usize = self.decls[i].id.as_str().unicode_len();
            proof {
                let head = self.decls@.subrange(0, i + 1);
                assert(head.drop_last() =~= self.decls@.subrange(0, i as int));
                assert(head.last() == self.decls@[i as int]);
            }
            if n > max {
                max = n;
            }
            i = i + 1;
        }
        assert(self.decls@.subrange(0, self.decls@.len() as int) =~= self.decls@);
        max
    }
}

/// Tells whether two texts are the same.
pub fn same_text(a: &str, b: &str) -> (r: bool)
    ensures
        r == (a@ == b@),
{
    let n: usize = a.unicode_len();
    if n != b.unicode_len() {
        return false;
    }
    let mut i: usize = 0;
    while i < n
        invariant
            i <= n,
            n == a@.len(),
            n == b@.len(),
            forall|j: int| 0 <= j < i ==> a@[j] == b@[j],
        decreases n - i,
    {
        if a.get_char(i) != b.get_char(i) {
            return false;
        }
        i = i + 1;
    }
    assert(a@ =~= b@);
    true
}

/// Tells whether a term is a sort-correct Boolean term.
fn is_bool(t: &Term) -> (r: bool)
    ensures
        r == (t.typing() == Some(Sort::Bool)),
{
    match t.check_sorts() {
        Some(Sort::Bool) => true,
        _ => false,
    }
}

/// Tells whether a term is a predicate on one state.
fn is_state_pred(t: &Term, decls: &Vec<Var>) -> (r: bool)
    ensures
        r == state_pred(*t, decls@),
{
    is_bool(t) && t.is_closed_under(decls) && !t.mentions_pre()
}

/// Tells whether the declarations are acceptable.
fn check_decls(decls: &Vec<Var>) -> (r: bool)
    ensures
        r == decls_ok(decls@),
{
    let mut i: usize = 0;
    while i < decls.len()
        invariant
            i <= decls.len(),
            forall|k: int| 0 <= k < i ==> (#[trigger] decls[k]).id@.len() > 0,
            forall|k: int, j: int|
                0 <= k < j < i ==> (#[trigger] decls[k]).id@ != (#[trigger] decls[j]).id@,
        decreases decls.len() - i,
    {
        if decls[i].id.as_str().unicode_len() == 0 {
            return false;
        }
        let mut k: usize = 0;
        while k < i
            invariant
                k <= i,
                i < decls.len(),
                forall|m: int| 0 <= m < k ==> (#[trigger] decls[m]).id@ != decls[i as int].id@,
            decreases i - k,
        {
            if decls[k].id == decls[i].id {
                return false;
            }
            k = k + 1;
        }
        i = i + 1;
    }
    true
}

/// Tells whether the candidates are acceptable.
fn check_candidates(cands: &Vec<Candidate>, decls: &Vec<Var>) -> (r: bool)
    ensures
        r == candidates_ok(cands@, decls@),
{
    let mut i: usize = 0;
    while i < cands.len()
        invariant
            i <= cands.len(),
            forall|k: int| 0 <= k < i ==> state_pred((#[trigger] cands[k]).prop, decls@),
            forall|k: int, j: int|
                0 <= k < j < i ==> (#[trigger] cands[k]).name@ != (#[trigger] cands[j]).name@,
        decreases cands.len() - i,
    {
        if !is_state_pred(&cands[i].prop, decls) {
            return false;
        }
        let mut k: usize = 0;
        while k < i
            invariant
                k <= i,
                i < cands.len(),
                forall|m: int| 0 <= m < k ==> (#[trigger] cands[m]).name@ != cands[i as int].name@,
            decreases i - k,
        {
            if cands[k].name == cands[i].name {
                return false;
            }
            k = k + 1;
        }
        i = i + 1;
    }
    true
}

} // verus!
