//! What is made of the results: the verdict of induction, the seed and the
//! course of bounded model checking, and its verdict.

use vstd::prelude::*;
use crate::bmc::Bmc;
use crate::check_res::{selected, seed_mark, BaseRes, CheckRes, Mark, StepRes, Which};
use crate::solver::{texts_of, Error};
use crate::sys::same_text;

verus! {

/// What is known of a system after a check.
#[derive(Clone, Copy, Debug, PartialEq, Eq, Structural)]
pub enum Verdict {
    /// Every reachable state verifies every candidate.
    Safe,
    /// Some candidate is falsified from the initial states.
    Unsafe,
    /// No candidate is falsified, but not all are proved.
    MightBeUnsafe,
}

/// What induction has to say.
#[derive(Debug)]
pub struct InductionReport {
    /// The candidates that are falsifiable in the initial states.
    pub not_initial: Vec<String>,
    /// The candidates that the transition relation does not preserve.
    pub not_inductive: Vec<String>,
    /// The verdict.
    pub verdict: Verdict,
    /// When the verdict is not `Safe`: the candidates that hold in the
    /// initial states and are inductive, and thus hold in all reachable
    /// states. Empty when the verdict is `Safe`: then all candidates do.
    pub proved: Vec<String>,
}

/// The verdict of induction: safe when nothing is falsified, unsafe when a
/// candidate is falsified in the initial states, and otherwise no more
/// than that some candidate is not inductive.
pub open spec fn induction_verdict(base: Seq<Mark>, step: Seq<Mark>) -> Verdict {
    if selected_any(base, Which::Falsified) {
        Verdict::Unsafe
    } else if selected_any(step, Which::Falsified) {
        Verdict::MightBeUnsafe
    } else {
        Verdict::Safe
    }
}

/// True when the choice takes some candidate.
pub open spec fn selected_any(marks: Seq<Mark>, which: Which) -> bool {
    exists|i: int| 0 <= i < marks.len() && which.admits(#[trigger] marks[i])
}

/// The marks of the seed that a base and a step result give.
pub open spec fn seed_marks(base: Seq<Mark>, step: Seq<Mark>) -> Seq<Mark> {
    Seq::new(base.len(), |i: int| seed_mark(base[i], step[i]))
}

/// The verdict of bounded model checking: unsafe when a candidate is
/// falsified, safe when every candidate is discharged, and otherwise no
/// more than that no falsification was found.
pub open spec fn search_verdict(marks: Seq<Mark>) -> Verdict {
    if selected_any(marks, Which::Falsified) {
        Verdict::Unsafe
    } else if selected_any(marks, Which::Pending) {
        Verdict::MightBeUnsafe
    } else {
        Verdict::Safe
    }
}

/// The names of `names` that are not among `known`, in order.
pub open spec fn unknown_to(names: Seq<Seq<char>>, known: Seq<Seq<char>>) -> Seq<Seq<char>>
    decreases names.len(),
{
    if names.len() == 0 {
        Seq::empty()
    } else {
        let rest = unknown_to(names.drop_last(), known);
        if known.contains(names.last()) {
            rest
        } else {
            rest.push(names.last())
        }
    }
}

/// Tells whether the choice takes some candidate of the result.
fn any(res: &CheckRes, which: Which) -> (r: bool)
    requires
        res.wf(),
    ensures
        r == selected_any(res.marks(), which),
{
    let n: usize = res.len();
    let mut i: usize = 0;
    while i < n
        invariant
            i <= n,
            n == res.marks().len(),
            res.wf(),
            forall|j: int| 0 <= j < i ==> !which.admits(#[trigger] res.marks()[j]),
        decreases n - i,
    {
        let hit: bool = match (res.status_at(i), which) {
            (crate::check_res::Status::Falsified(_), Which::Falsified) => true,
            (crate::check_res::Status::Open, Which::Okay) => true,
            (crate::check_res::Status::Discharged, Which::Okay) => true,
            (crate::check_res::Status::Open, Which::Pending) => true,
            (crate::check_res::Status::Discharged, Which::Discharged) => true,
            _ => false,
        };
        if hit {
            return true;
        }
        i = i + 1;
    }
    false
}

/// What induction has to say, from the results of the base and the step
/// check of one system. Results of different systems are refused.
pub fn induction_report(base: &BaseRes, step: &StepRes) -> (r: Result<InductionReport, Error>)
    requires
        base.inner().wf(),
        step.inner().wf(),
    ensures
        match r {
            Ok(rep) => {
                &&& base.inner().names() == step.inner().names()
                &&& texts_of(rep.not_initial@) == selected(
                    base.inner().names(),
                    base.inner().marks(),
                    Which::Falsified,
                )
                &&& texts_of(rep.not_inductive@) == selected(
                    step.inner().names(),
                    step.inner().marks(),
                    Which::Falsified,
                )
                &&& rep.verdict == induction_verdict(base.inner().marks(), step.inner().marks())
                &&& texts_of(rep.proved@) == if rep.verdict == Verdict::Safe {
                    Seq::<Seq<char>>::empty()
                } else {
                    selected(
                        base.inner().names(),
                        seed_marks(base.inner().marks(), step.inner().marks()),
                        Which::Discharged,
                    )
                }
            },
            Err(e) => e == Error::DifferentSystems && base.inner().names()
                != step.inner().names(),
        },
{
    let seed: CheckRes = match base.merge_base_with_step(step) {
        Ok(seed) => seed,
        Err(e) => {
            return Err(e);
        },
    };
    let b: &CheckRes = base.as_inner();
    let s: &CheckRes = step.as_inner();
    let verdict: Verdict = if any(b, Which::Falsified) {
        Verdict::Unsafe
    } else if any(s, Which::Falsified) {
        Verdict::MightBeUnsafe
    } else {
        Verdict::Safe
    };
    let proved: Vec<String> = match verdict {
        Verdict::Safe => Vec::new(),
        _ => seed.names_where(Which::Discharged),
    };
    proof {
        assert(seed.marks() =~= seed_marks(b.marks(), s.marks()));
        if verdict == Verdict::Safe {
            assert(texts_of(proved@) =~= Seq::<Seq<char>>::empty());
        }
    }
    Ok(
        InductionReport {
            not_initial: b.names_where(Which::Falsified),
            not_inductive: s.names_where(Which::Falsified),
            verdict,
            proved,
        },
    )
}

/// The seed of bounded model checking: the merge of the base and the step
/// result when induction was run, and the base result as it is otherwise.
pub fn bmc_seed(base: &BaseRes, step: Option<&StepRes>) -> (r: Result<CheckRes, Error>)
    requires
        base.inner().wf(),
        step matches Some(s) ==> s.inner().wf(),
    ensures
        match r {
            Ok(seed) => {
                &&& seed.wf()
                &&& seed.names() == base.inner().names()
                &&& seed.okay() == base.inner().okay()
                &&& seed.cexs() == base.inner().cexs()
                &&& forall|d: Seq<crate::term::Var>| base.inner().sorted(d) ==> seed.sorted(d)
                &&& match step {
                    Some(s) => {
                        &&& s.inner().names() == base.inner().names()
                        &&& seed.marks() == seed_marks(base.inner().marks(), s.inner().marks())
                        &&& seed.pending() == base.inner().okay().intersect(s.inner().falsified())
                    },
                    None => seed.marks() == base.inner().marks(),
                }
            },
            Err(e) => e == Error::DifferentSystems && (step matches Some(s) && s.inner().names()
                != base.inner().names()),
        },
{
    match step {
        Some(s) => {
            let r = base.merge_base_with_step(s);
            proof {
                if r is Ok {
                    assert(r->Ok_0.marks() =~= seed_marks(
                        base.inner().marks(),
                        s.inner().marks(),
                    ));
                }
            }
            r
        },
        None => Ok(base.as_inner().duplicate()),
    }
}

/// When every candidate that holds in the initial states is inductive,
/// the seed that the two results give has nothing pending: there is
/// nothing to search, and bounded model checking does not go on.
pub proof fn lemma_search_skipped(base: &BaseRes, step: &StepRes, seed: &CheckRes)
    requires
        seed.pending() == base.inner().okay().intersect(step.inner().falsified()),
        base.inner().okay().disjoint(step.inner().falsified()),
    ensures
        seed.pending() == Set::<Seq<char>>::empty(),
{
    assert(seed.pending() =~= Set::<Seq<char>>::empty());
}

/// Tells whether bounded model checking goes on to the next depth: as
/// long as a candidate is pending and the depth does not exceed the
/// greatest depth, if one was given.
pub fn search_goes_on(bmc: &Bmc, max: Option<usize>) -> (r: bool)
    requires
        bmc.wf(),
    ensures
        r == (bmc.res().pending() != Set::<Seq<char>>::empty() && (max matches Some(m) ==> m
            >= bmc.depth())),
{
    if bmc.is_done() {
        return false;
    }
    match max {
        Some(m) => m >= bmc.next_check_step(),
        None => true,
    }
}

/// The candidates that are falsified and were not announced yet, in the
/// order of the system.
pub fn fresh_falsifications(res: &CheckRes, announced: &Vec<String>) -> (r: Vec<String>)
    requires
        res.wf(),
    ensures
        texts_of(r@) == unknown_to(
            selected(res.names(), res.marks(), Which::Falsified),
            texts_of(announced@),
        ),
{
    let falsified: Vec<String> = res.names_where(Which::Falsified);
    let mut out: Vec<String> = Vec::new();
    let mut i: usize = 0;
    assert(texts_of(falsified@).subrange(0, 0) =~= Seq::<Seq<char>>::empty());
    while i < falsified.len()
        invariant
            i <= falsified.len(),
            texts_of(out@) == unknown_to(
                texts_of(falsified@).subrange(0, i as int),
                texts_of(announced@),
            ),
        decreases falsified.len() - i,
    {
        proof {
            let head = texts_of(falsified@).subrange(0, i + 1);
            assert(head.drop_last() =~= texts_of(falsified@).subrange(0, i as int));
            assert(head.last() == falsified@[i as int]@);
        }
        if !is_among(falsified[i].as_str(), announced) {
            let ghost before = texts_of(out@);
            out.push(falsified[i].clone());
            assert(texts_of(out@) =~= before.push(falsified@[i as int]@));
        }
        i = i + 1;
    }
    assert(texts_of(falsified@).subrange(0, falsified.len() as int) =~= texts_of(falsified@));
    out
}

/// Tells whether a name is among the names given.
pub fn is_among(name: &str, names: &Vec<String>) -> (r: bool)
    ensures
        r == texts_of(names@).contains(name@),
{
    let mut i: usize = 0;
    while i < names.len()
        invariant
            i <= names.len(),
            forall|j: int| 0 <= j < i ==> texts_of(names@)[j] != name@,
        decreases names.len() - i,
    {
        if same_text(names[i].as_str(), name) {
            assert(texts_of(names@)[i as int] == name@);
            return true;
        }
        i = i + 1;
    }
    false
}

/// The verdict of bounded model checking, from its result.
pub fn bmc_verdict(res: &CheckRes) -> (r: Verdict)
    requires
        res.wf(),
    ensures
        r == search_verdict(res.marks()),
{
    if any(res, Which::Falsified) {
        Verdict::Unsafe
    } else if any(res, Which::Pending) {
        Verdict::MightBeUnsafe
    } else {
        Verdict::Safe
    }
}

} // verus!
