//! The base check: does every candidate hold in every initial state?
//!
//! In one session the variables are declared for state 0 and the initial
//! predicate is asserted there. Then each candidate, in the order of the
//! system, is refuted at state 0 in a frame of its own: `unsat` means that
//! it holds in the initial states, `sat` gives a counterexample of one
//! state.

use vstd::prelude::*;
use crate::cex::ModelEntry;
use crate::check_res::{BaseRes, CheckRes};
use crate::pass::{
    answered,
    answered_lines,
    lines_taken,
    modelled,
    pass_marks,
    request_for,
    tail_lines,
    Pass,
};
use crate::cex::extracted;
use crate::semantics::{holds_at, satisfies, trace_of, Fact};
use crate::solver::{assert_line, declare_lines, opening_line, Error, SatResult};
use crate::sweep::{Policy, Request, Sweep, Turn};
use crate::sys::Sys;

verus! {

/// The lines of a base check before the first query.
pub open spec fn base_prelude(sys: Sys) -> Seq<Seq<char>> {
    seq![opening_line()] + declare_lines(sys.decls(), 0) + seq![assert_line(sys.init(), 0)]
}

/// A base check under way.
pub struct Base<'a> {
    pass: Pass<'a>,
}

impl<'a> Base<'a> {
    /// The pass over the candidates that the check makes.
    pub closed spec fn pass(&self) -> Pass<'a> {
        self.pass
    }

    /// The invariant of a base check: a pass at state 0, after the lines
    /// that declare the variables and assert the initial predicate.
    pub open spec fn wf(&self) -> bool {
        &&& self.pass().wf()
        &&& self.pass().at() == 0
        &&& self.pass().prelude() == base_prelude(self.pass().sys())
        &&& self.pass().ground() == seq![Fact::Holds(self.pass().sys().init(), 0)]
    }

    /// What a counterexample of the base check shows, if the solver is
    /// right.
    ///
    /// While the model that falsifies the candidate at position `i` is
    /// waited for, the solver holds true the initial predicate at state 0
    /// and the negation of the candidate at state 0, and nothing else. So
    /// whenever the assignment that the model gives is as the solver was
    /// told, it satisfies the initial predicate and falsifies the
    /// candidate.
    pub proof fn lemma_sound(&self, i: int, model: Seq<ModelEntry>)
        requires
            self.wf(),
            0 <= i <= usize::MAX,
            self.pass().turn() == Turn::Model(i as usize),
            satisfies(
                trace_of(extracted(self.pass().sys().decls(), 1, model)),
                self.pass().asserted(),
            ),
        ensures
            0 <= i < self.pass().sys().cands().len(),
            self.pass().asserted() == seq![
                seq![Fact::Holds(self.pass().sys().init(), 0)],
                seq![Fact::Fails(self.pass().sys().cands()[i].prop, 0)],
            ],
            holds_at(
                self.pass().sys().init(),
                trace_of(extracted(self.pass().sys().decls(), 1, model)),
                0,
            ),
            !holds_at(
                self.pass().sys().cands()[i].prop,
                trace_of(extracted(self.pass().sys().decls(), 1, model)),
                0,
            ),
    {
        self.pass().lemma_query(i);
        let frames = self.pass().asserted();
        let trace = trace_of(extracted(self.pass().sys().decls(), 1, model));
        assert(frames[0][0].true_of(trace));
        assert(frames[1][0].true_of(trace));
    }

    /// The lines of a base check are a function of the system and of the
    /// solver's answers so far, and its result is a function of the
    /// system, the answers and the models. When the check is over, every
    /// candidate was queried and no frame is left open.
    pub proof fn lemma_closed_form(&self)
        requires
            self.wf(),
        ensures
            self.pass().script() == base_prelude(self.pass().sys()) + answered_lines(
                self.pass().sys(),
                0,
                self.pass().answers(),
            ) + tail_lines(self.pass().sys(), 0, self.pass().turn()),
            self.pass().marks() == pass_marks(
                self.pass().sys(),
                0,
                self.pass().answers(),
                self.pass().models(),
                self.pass().sys().names().len(),
            ),
            self.pass().turn() is Over ==> self.pass().depth() == 0
                && self.pass().answers().len() == self.pass().sys().names().len(),
    {
    }

    /// Opens the base check of a system: the first candidate is queried
    /// and the solver's answer is waited for, or the session is ended if
    /// there is no candidate.
    pub fn new(sys: &'a Sys) -> (r: Base<'a>)
        requires
            sys.wf(),
        ensures
            r.wf(),
            r.pass().sys() == *sys,
            r.pass().turn() == (if sys.names().len() > 0 {
                Turn::Answer(0)
            } else {
                Turn::Over
            }),
            r.pass().answers() == Seq::<SatResult>::empty(),
            r.pass().models() == Seq::<Seq<ModelEntry>>::empty(),
            r.pass().taken() == 0,
    {
        let res = CheckRes::new(sys);
        let mut sweep = Sweep::start(sys, res, Policy::Strict);
        sweep.assert_here(sys.get_init());
        let pass = Pass::begin(sweep);
        assert(pass.prelude() =~= base_prelude(*sys));
        Base { pass }
    }

    /// What the owner of the solver is to do next.
    pub fn request(&self) -> (r: Request)
        ensures
            r == request_for(self.pass().turn()),
    {
        self.pass.request()
    }

    /// Tells whether the check is over.
    pub fn is_over(&self) -> (r: bool)
        ensures
            r == (self.pass().turn() is Over),
    {
        self.pass.is_over()
    }

    /// Hands out the lines written since the last call.
    pub fn take_lines(&mut self) -> (r: Vec<String>)
        requires
            old(self).wf(),
        ensures
            final(self).wf(),
            lines_taken(old(self).pass(), final(self).pass(), r@),
    {
        self.pass.take_lines()
    }

    /// Takes the solver's answer to the query under way.
    pub fn on_answer(&mut self, a: SatResult) -> (r: Result<Request, Error>)
        requires
            old(self).wf(),
        ensures
            final(self).wf(),
            answered(old(self).pass(), final(self).pass(), a, r),
    {
        self.pass.on_answer(a)
    }

    /// Takes the model that falsifies the candidate under way.
    pub fn on_model(&mut self, model: &Vec<ModelEntry>) -> (r: Result<Request, Error>)
        requires
            old(self).wf(),
            forall|m: int| 0 <= m < model.len() ==> (#[trigger] model[m]).wf(),
        ensures
            final(self).wf(),
            modelled(old(self).pass(), final(self).pass(), model@, r),
    {
        self.pass.on_model(model)
    }

    /// The result of the check, once it is over: a candidate is okay when
    /// the solver answered `unsat` to its query, and falsified otherwise,
    /// with the counterexample of one state that the model gives. Before
    /// the check is over, asking for the result is an error.
    pub fn finish(self) -> (r: Result<BaseRes, Error>)
        requires
            self.wf(),
        ensures
            match r {
                Ok(res) => {
                    &&& self.pass().turn() is Over
                    &&& res.inner().wf()
                    &&& res.inner().names() == self.pass().sys().names()
                    &&& res.inner().sorted(self.pass().sys().decls())
                    &&& res.inner().marks() == pass_marks(
                        self.pass().sys(),
                        0,
                        self.pass().answers(),
                        self.pass().models(),
                        self.pass().sys().names().len(),
                    )
                },
                Err(e) => e == Error::OutOfTurn && !(self.pass().turn() is Over),
            },
    {
        match self.pass.finish() {
            Ok(res) => Ok(BaseRes::wrap(res)),
            Err(e) => Err(e),
        }
    }
}

} // verus!
