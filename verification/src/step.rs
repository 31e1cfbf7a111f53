//! The step check: is every candidate preserved by the transition
//! relation?
//!
//! In one session the variables are declared for the states 0 and 1, every
//! candidate is asserted at state 0, and the transition predicate is
//! asserted from state 0 to state 1. Then each candidate, in the order of
//! the system, is refuted at state 1 in a frame of its own: `unsat` means
//! that it is preserved, given that all candidates held before; `sat` gives
//! a counterexample of two states.

use vstd::prelude::*;
use crate::cex::ModelEntry;
use crate::check_res::{CheckRes, StepRes};
use crate::pass::{
    answered,
    answered_lines,
    lines_taken,
    modelled,
    pass_marks,
    request_for,
    tail_lines,
    Pass,
};
use crate::cex::extracted;
use crate::semantics::{holds_at, satisfies, trace_of, Fact};
use crate::solver::{assert_line, declare_lines, opening_line, Error, SatResult};
use crate::sweep::{Policy, Request, Sweep, Turn};
use crate::sys::Sys;

verus! {

/// The lines that assert every candidate at state 0, in order.
pub open spec fn hypothesis_lines(sys: Sys) -> Seq<Seq<char>> {
    Seq::new(sys.cands().len(), |j: int| assert_line(sys.cands()[j].prop, 0))
}

/// The induction hypothesis: every candidate holds in state 0.
pub open spec fn hypothesis(sys: Sys) -> Seq<Fact> {
    Seq::new(sys.cands().len(), |j: int| Fact::Holds(sys.cands()[j].prop, 0))
}

/// What a step check holds true throughout: every candidate in state 0,
/// and the transition predicate from state 0 to state 1.
pub open spec fn step_ground(sys: Sys) -> Seq<Fact> {
    hypothesis(sys).push(Fact::Holds(sys.trans(), 1))
}

/// The lines of a step check before the first query.
pub open spec fn step_prelude(sys: Sys) -> Seq<Seq<char>> {
    seq![opening_line()] + declare_lines(sys.decls(), 0) + declare_lines(sys.decls(), 1)
        + hypothesis_lines(sys) + seq![assert_line(sys.trans(), 1)]
}

/// A step check under way.
pub struct Step<'a> {
    pass: Pass<'a>,
}

impl<'a> Step<'a> {
    /// The pass over the candidates that the check makes.
    pub closed spec fn pass(&self) -> Pass<'a> {
        self.pass
    }

    /// The invariant of a step check: a pass at state 1, after the lines
    /// that declare the variables for two states, assert the candidates in
    /// the first and the transition predicate between the two.
    pub open spec fn wf(&self) -> bool {
        &&& self.pass().wf()
        &&& self.pass().at() == 1
        &&& self.pass().prelude() == step_prelude(self.pass().sys())
        &&& self.pass().ground() == step_ground(self.pass().sys())
    }

    /// What a counterexample of the step check shows, if the solver is
    /// right.
    ///
    /// While the model that falsifies the candidate at position `i` is
    /// waited for, the solver holds true every candidate at state 0, the
    /// transition predicate from state 0 to state 1, and the negation of
    /// the candidate at state 1, and nothing else. So whenever the
    /// two-state assignment that the model gives is as the solver was told,
    /// all candidates hold in its first state, its two states are in the
    /// transition relation, and the candidate fails in its second state.
    pub proof fn lemma_sound(&self, i: int, model: Seq<ModelEntry>)
        requires
            self.wf(),
            0 <= i <= usize::MAX,
            self.pass().turn() == Turn::Model(i as usize),
            satisfies(
                trace_of(extracted(self.pass().sys().decls(), 2, model)),
                self.pass().asserted(),
            ),
        ensures
            0 <= i < self.pass().sys().cands().len(),
            self.pass().asserted() == seq![
                step_ground(self.pass().sys()),
                seq![Fact::Fails(self.pass().sys().cands()[i].prop, 1)],
            ],
            forall|j: int|
                0 <= j < self.pass().sys().cands().len() ==> holds_at(
                    (#[trigger] self.pass().sys().cands()[j]).prop,
                    trace_of(extracted(self.pass().sys().decls(), 2, model)),
                    0,
                ),
            holds_at(
                self.pass().sys().trans(),
                trace_of(extracted(self.pass().sys().decls(), 2, model)),
                1,
            ),
            !holds_at(
                self.pass().sys().cands()[i].prop,
                trace_of(extracted(self.pass().sys().decls(), 2, model)),
                1,
            ),
    {
        self.pass().lemma_query(i);
        let sys = self.pass().sys();
        let frames = self.pass().asserted();
        let trace = trace_of(extracted(sys.decls(), 2, model));
        let n = sys.cands().len() as int;
        assert(frames[0][n].true_of(trace));
        assert(frames[1][0].true_of(trace));
        assert forall|j: int| 0 <= j < n implies holds_at(
            (#[trigger] sys.cands()[j]).prop,
            trace,
            0,
        ) by {
            assert(frames[0][j].true_of(trace));
        }
    }

    /// The lines of a step check are a function of the system and of the
    /// solver's answers so far, and its result is a function of the
    /// system, the answers and the models. When the check is over, every
    /// candidate was queried and no frame is left open.
    pub proof fn lemma_closed_form(&self)
        requires
            self.wf(),
        ensures
            self.pass().script() == step_prelude(self.pass().sys()) + answered_lines(
                self.pass().sys(),
                1,
                self.pass().answers(),
            ) + tail_lines(self.pass().sys(), 1, self.pass().turn()),
            self.pass().marks() == pass_marks(
                self.pass().sys(),
                1,
                self.pass().answers(),
                self.pass().models(),
                self.pass().sys().names().len(),
            ),
            self.pass().turn() is Over ==> self.pass().depth() == 0
                && self.pass().answers().len() == self.pass().sys().names().len(),
    {
    }

    /// Opens the step check of a system: the first candidate is queried
    /// and the solver's answer is waited for, or the session is ended if
    /// there is no candidate.
    pub fn new(sys: &'a Sys) -> (r: Step<'a>)
        requires
            sys.wf(),
        ensures
            r.wf(),
            r.pass().sys() == *sys,
            r.pass().turn() == (if sys.names().len() > 0 {
                Turn::Answer(0)
            } else {
                Turn::Over
            }),
            r.pass().answers() == Seq::<SatResult>::empty(),
            r.pass().models() == Seq::<Seq<ModelEntry>>::empty(),
            r.pass().taken() == 0,
    {
        let res = CheckRes::new(sys);
        let mut sweep = Sweep::start(sys, res, Policy::Strict);
        sweep.unroll();
        let ghost opened = sweep.script();
        assert(sweep.ground() =~= hypothesis(*sys).subrange(0, 0));
        let cands = sys.get_candidates();
        let mut j: usize = 0;
        while j < cands.len()
            invariant
                j <= cands.len(),
                cands@ == sys.cands(),
                sys.wf(),
                sweep.wf(),
                sweep.sys() == *sys,
                sweep.turn() is Idle,
                sweep.at() == 1,
                sweep.policy() == Policy::Strict,
                sweep.driver().taken() == 0,
                sweep.marks() == Seq::new(sys.names().len(), |i: int| crate::check_res::Mark::Open),
                sweep.script() == opened + hypothesis_lines(*sys).subrange(0, j as int),
                sweep.ground() == hypothesis(*sys).subrange(0, j as int),
            decreases cands.len() - j,
        {
            assert(crate::sys::state_pred(sys.cands()[j as int].prop, sys.decls()));
            sweep.assert_before(&cands[j].prop, 0);
            assert(sweep.script() =~= opened + hypothesis_lines(*sys).subrange(0, j + 1));
            assert(sweep.ground() =~= hypothesis(*sys).subrange(0, j + 1));
            j = j + 1;
        }
        assert(hypothesis_lines(*sys).subrange(0, cands.len() as int) =~= hypothesis_lines(*sys));
        assert(hypothesis(*sys).subrange(0, cands.len() as int) =~= hypothesis(*sys));
        sweep.assert_here(sys.get_trans());
        let pass = Pass::begin(sweep);
        assert(pass.prelude() =~= step_prelude(*sys));
        Step { pass }
    }

    /// What the owner of the solver is to do next.
    pub fn request(&self) -> (r: Request)
        ensures
            r == request_for(self.pass().turn()),
    {
        self.pass.request()
    }

    /// Tells whether the check is over.
    pub fn is_over(&self) -> (r: bool)
        ensures
            r == (self.pass().turn() is Over),
    {
        self.pass.is_over()
    }

    /// Hands out the lines written since the last call.
    pub fn take_lines(&mut self) -> (r: Vec<String>)
        requires
            old(self).wf(),
        ensures
            final(self).wf(),
            lines_taken(old(self).pass(), final(self).pass(), r@),
    {
        self.pass.take_lines()
    }

    /// Takes the solver's answer to the query under way.
    pub fn on_answer(&mut self, a: SatResult) -> (r: Result<Request, Error>)
        requires
            old(self).wf(),
        ensures
            final(self).wf(),
            answered(old(self).pass(), final(self).pass(), a, r),
    {
        self.pass.on_answer(a)
    }

    /// Takes the model that falsifies the candidate under way.
    pub fn on_model(&mut self, model: &Vec<ModelEntry>) -> (r: Result<Request, Error>)
        requires
            old(self).wf(),
            forall|m: int| 0 <= m < model.len() ==> (#[trigger] model[m]).wf(),
        ensures
            final(self).wf(),
            modelled(old(self).pass(), final(self).pass(), model@, r),
    {
        self.pass.on_model(model)
    }

    /// The result of the check, once it is over: a candidate is okay when
    /// the solver answered `unsat` to its query, and falsified otherwise,
    /// with the counterexample of two states that the model gives. Before
    /// the check is over, asking for the result is an error.
    pub fn finish(self) -> (r: Result<StepRes, Error>)
        requires
            self.wf(),
        ensures
            match r {
                Ok(res) => {
                    &&& self.pass().turn() is Over
                    &&& res.inner().wf()
                    &&& res.inner().names() == self.pass().sys().names()
                    &&& res.inner().sorted(self.pass().sys().decls())
                    &&& res.inner().marks() == pass_marks(
                        self.pass().sys(),
                        1,
                        self.pass().answers(),
                        self.pass().models(),
                        self.pass().sys().names().len(),
                    )
                },
                Err(e) => e == Error::OutOfTurn && !(self.pass().turn() is Over),
            },
    {
        match self.pass.finish() {
            Ok(res) => Ok(StepRes::wrap(res)),
            Err(e) => Err(e),
        }
    }
}

} // verus!
