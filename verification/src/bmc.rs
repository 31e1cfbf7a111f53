//! Bounded model checking: the transition relation is unrolled state by
//! state from the initial states, and at each depth a falsification of
//! every pending candidate is searched for.
//!
//! At depth `k` the variables are declared for state `k`; the initial
//! predicate is asserted at depth 0, and the transition predicate from
//! state `k - 1` to state `k` at any other depth. Then each pending
//! candidate is refuted at state `k` in a frame of its own. On `sat` the
//! candidate is falsified, with a counterexample of `k + 1` states; on
//! `unsat` and on `unknown` it stays pending.

use vstd::prelude::*;
use crate::cex::ModelEntry;
use crate::check_res::{CheckRes, Mark};
use crate::pass::request_for;
use crate::cex::extracted;
use crate::semantics::{holds_at, satisfies, trace_of, Fact};
use crate::solver::{assert_line, declare_lines, opening_line, pop_line, Error, SatResult};
use crate::sweep::{
    go_on_lines,
    go_on_turn,
    lines_after_answer,
    marks_after_answer,
    marks_after_model,
    turn_after_answer,
    Policy,
    Request,
    Sweep,
    Turn,
};
use crate::sys::Sys;

verus! {

/// The lines of a bounded model checking session before the first query.
pub open spec fn bmc_prelude(sys: Sys) -> Seq<Seq<char>> {
    seq![opening_line()] + declare_lines(sys.decls(), 0) + seq![assert_line(sys.init(), 0)]
}

/// What a session holds true when the system is unrolled to depth `k`: the
/// initial predicate in state 0, and the transition predicate from each
/// state to the next, up to state `k`.
pub open spec fn unrolled(sys: Sys, k: nat) -> Seq<Fact> {
    Seq::new(
        k + 1,
        |j: int|
            if j == 0 {
                Fact::Holds(sys.init(), 0)
            } else {
                Fact::Holds(sys.trans(), j as nat)
            },
    )
}

/// The lines that unroll the system to depth `k`: nothing at depth 0,
/// where the session begins; at any other depth the declarations for state
/// `k` and the transition predicate from state `k - 1` to state `k`.
pub open spec fn unroll_lines(sys: Sys, k: nat) -> Seq<Seq<char>> {
    if k == 0 {
        Seq::empty()
    } else {
        declare_lines(sys.decls(), k).push(assert_line(sys.trans(), k))
    }
}

/// The depth of the next check once a check at depth `k` waits for
/// `turn`: the next depth when the check is through, the same depth while
/// it is under way.
pub open spec fn depth_after(k: nat, turn: Turn) -> nat {
    if turn is Idle {
        k + 1
    } else {
        k
    }
}

/// A bounded model checking session.
pub struct Bmc<'a> {
    sweep: Sweep<'a>,
    /// The depth of the next check, or of the check under way.
    depth: usize,
}

impl<'a> Bmc<'a> {
    /// The sweep that the session drives.
    pub closed spec fn sweep(&self) -> Sweep<'a> {
        self.sweep
    }

    /// The depth of the next check, or of the check under way.
    pub closed spec fn depth(&self) -> nat {
        self.depth as nat
    }

    /// The system that is checked.
    pub open spec fn sys(&self) -> Sys {
        self.sweep().sys()
    }

    /// What is waited for.
    pub open spec fn turn(&self) -> Turn {
        self.sweep().turn()
    }

    /// The result so far.
    pub open spec fn res(&self) -> CheckRes {
        self.sweep().res()
    }

    /// Where each candidate stands.
    pub open spec fn marks(&self) -> Seq<Mark> {
        self.sweep().marks()
    }

    /// Every line written so far.
    pub open spec fn script(&self) -> Seq<Seq<char>> {
        self.sweep().script()
    }

    /// How many lines have been taken.
    pub open spec fn taken(&self) -> nat {
        self.sweep().driver().taken()
    }

    /// The invariant of a session. While a check is under way, candidates
    /// are refuted at its depth. Between two checks the system is unrolled
    /// to the depth of the last check.
    pub open spec fn wf(&self) -> bool {
        &&& self.sweep().wf()
        &&& self.sweep().policy() == Policy::Lenient
        &&& self.sweep().ground() == unrolled(self.sys(), self.sweep().at())
        &&& match self.turn() {
            Turn::Answer(_) | Turn::Model(_) => self.sweep().at() == self.depth(),
            _ => self.depth() == 0 && self.sweep().at() == 0 || self.sweep().at() + 1
                == self.depth(),
        }
    }

    /// At every moment of a session, `okay` and the keys of `cexs`
    /// partition the candidates of the system.
    pub proof fn lemma_partition(&self)
        requires
            self.wf(),
        ensures
            self.res().names() == self.sys().names(),
            self.res().okay().union(self.res().cexs().dom()) == self.res().all(),
            self.res().okay().disjoint(self.res().cexs().dom()),
    {
        self.res().lemma_partition();
    }

    /// What a counterexample of bounded model checking shows, if the
    /// solver is right.
    ///
    /// While the model that falsifies the candidate at position `i` is
    /// waited for at depth `k`, the solver holds true the initial predicate
    /// at state 0, the transition predicate from each state to the next up
    /// to state `k`, and the negation of the candidate at state `k`, and
    /// nothing else. So whenever the assignment of `k + 1` states that the
    /// model gives is as the solver was told, it begins in an initial
    /// state, goes from each state to the next by the transition relation,
    /// and ends in a state where the candidate fails.
    pub proof fn lemma_sound(&self, i: int, model: Seq<ModelEntry>)
        requires
            self.wf(),
            0 <= i <= usize::MAX,
            self.turn() == Turn::Model(i as usize),
            satisfies(
                trace_of(extracted(self.sys().decls(), self.depth() + 1, model)),
                self.sweep().driver().asserted(),
            ),
        ensures
            0 <= i < self.sys().cands().len(),
            self.sweep().driver().asserted() == seq![
                unrolled(self.sys(), self.depth()),
                seq![Fact::Fails(self.sys().cands()[i].prop, self.depth())],
            ],
            holds_at(
                self.sys().init(),
                trace_of(extracted(self.sys().decls(), self.depth() + 1, model)),
                0,
            ),
            forall|j: nat|
                1 <= j <= self.depth() ==> #[trigger] holds_at(
                    self.sys().trans(),
                    trace_of(extracted(self.sys().decls(), self.depth() + 1, model)),
                    j,
                ),
            !holds_at(
                self.sys().cands()[i].prop,
                trace_of(extracted(self.sys().decls(), self.depth() + 1, model)),
                self.depth(),
            ),
    {
        let sys = self.sys();
        let k = self.depth();
        let frames = self.sweep().driver().asserted();
        let trace = trace_of(extracted(sys.decls(), k + 1, model));
        assert(sys.names().len() == sys.cands().len());
        assert(frames[0][0].true_of(trace));
        assert(frames[1][0].true_of(trace));
        assert forall|j: nat| 1 <= j <= k implies #[trigger] holds_at(sys.trans(), trace, j) by {
            assert(frames[0][j as int].true_of(trace));
        }
    }

    /// Opens a session on a seed: a result of the same system, of which
    /// the pending candidates are searched. A seed of other candidates is
    /// refused.
    pub fn new(sys: &'a Sys, seed: CheckRes) -> (r: Result<Bmc<'a>, Error>)
        requires
            sys.wf(),
            seed.wf(),
            seed.sorted(sys.decls()),
        ensures
            match r {
                Ok(b) => {
                    &&& seed.names() == sys.names()
                    &&& b.wf()
                    &&& b.sys() == *sys
                    &&& b.res() == seed
                    &&& b.depth() == 0
                    &&& b.turn() is Idle
                    &&& b.taken() == 0
                    &&& b.script() == bmc_prelude(*sys)
                },
                Err(e) => e == Error::DifferentSystems && seed.names() != sys.names(),
            },
    {
        let fresh = CheckRes::new(sys);
        if !seed.same_candidates(&fresh) {
            return Err(Error::DifferentSystems);
        }
        let mut sweep = Sweep::start(sys, seed, Policy::Lenient);
        sweep.assert_here(sys.get_init());
        assert(sweep.script() =~= bmc_prelude(*sys));
        assert(sweep.ground() =~= unrolled(*sys, 0));
        Ok(Bmc { sweep, depth: 0 })
    }

    /// The result so far.
    pub fn get_res(&self) -> (r: &CheckRes)
        ensures
            *r == self.res(),
    {
        self.sweep.get_res()
    }

    /// True when no candidate is pending: there is nothing left to search.
    pub fn is_done(&self) -> (r: bool)
        requires
            self.wf(),
        ensures
            r == (self.res().pending() == Set::<Seq<char>>::empty()),
    {
        self.sweep.get_res().nothing_pending()
    }

    /// The depth of the next check.
    pub fn next_check_step(&self) -> (r: usize)
        ensures
            r == self.depth(),
    {
        self.depth
    }

    /// What the owner of the solver is to do next.
    pub fn request(&self) -> (r: Request)
        ensures
            r == request_for(self.turn()),
    {
        self.sweep.request()
    }

    /// Hands out the lines written since the last call.
    pub fn take_lines(&mut self) -> (r: Vec<String>)
        requires
            old(self).wf(),
        ensures
            final(self).wf(),
            final(self).sys() == old(self).sys(),
            final(self).res() == old(self).res(),
            final(self).depth() == old(self).depth(),
            final(self).turn() == old(self).turn(),
            final(self).script() == old(self).script(),
            final(self).taken() == old(self).script().len(),
            crate::solver::texts_of(r@) == old(self).script().subrange(
                old(self).taken() as int,
                old(self).script().len() as int,
            ),
    {
        self.sweep.take_lines()
    }

    /// Moves on to the next depth when the check at this depth is through.
    fn settle(&mut self)
        requires
            old(self).sweep().wf(),
            old(self).sweep().policy() == Policy::Lenient,
            old(self).sweep().at() == old(self).depth(),
            old(self).sweep().ground() == unrolled(old(self).sys(), old(self).sweep().at()),
            !(old(self).turn() is Over),
        ensures
            final(self).wf(),
            final(self).sweep() == old(self).sweep(),
            final(self).depth() == depth_after(old(self).depth(), old(self).turn()),
    {
        match self.sweep.get_turn() {
            Turn::Idle => {
                self.depth = self.depth + 1;
            },
            _ => {},
        }
    }

    /// Begins the check at the next depth: the system is unrolled to it,
    /// and the first pending candidate is queried. With no candidate
    /// pending the check is through at once.
    ///
    /// While a check is under way, or when the session is closed, this is
    /// an error; so it is when the depth does not fit the machine's
    /// integers any more. Then nothing changes.
    pub fn next_check(&mut self) -> (r: Result<Request, Error>)
        requires
            old(self).wf(),
        ensures
            final(self).wf(),
            final(self).sys() == old(self).sys(),
            final(self).taken() == old(self).taken(),
            if !(old(self).turn() is Idle) {
                r == Err::<Request, Error>(Error::OutOfTurn) && *final(self) == *old(self)
            } else if old(self).depth() + 1 >= usize::MAX {
                r == Err::<Request, Error>(Error::TooDeep) && *final(self) == *old(self)
            } else {
                &&& r == Ok::<Request, Error>(request_for(final(self).turn()))
                &&& final(self).res() == old(self).res()
                &&& final(self).script() == old(self).script() + unroll_lines(
                    old(self).sys(),
                    old(self).depth(),
                ) + go_on_lines(old(self).sys(), old(self).marks(), 0, old(self).depth())
                &&& final(self).turn() == go_on_turn(old(self).marks(), 0)
                &&& final(self).depth() == depth_after(old(self).depth(), final(self).turn())
            },
    {
        match self.sweep.get_turn() {
            Turn::Idle => {},
            _ => {
                return Err(Error::OutOfTurn);
            },
        }
        if self.depth >= usize::MAX - 1 {
            return Err(Error::TooDeep);
        }
        if self.depth > 0 {
            self.sweep.unroll();
            self.sweep.assert_here(self.sweep.get_sys().get_trans());
            assert(self.script() =~= old(self).script() + unroll_lines(self.sys(), self.depth()));
            assert(self.sweep.ground() =~= unrolled(self.sys(), self.sweep.at()));
        } else {
            assert(self.script() =~= old(self).script() + unroll_lines(self.sys(), self.depth()));
        }
        self.sweep.go_on(0);
        self.settle();
        Ok(self.sweep.request())
    }

    /// Takes the solver's answer to the query under way. On `sat` the
    /// model is asked for, unless the system has no variable; on `unsat`
    /// and on `unknown` the candidate stays pending, the frame is closed
    /// and the next pending candidate is queried. After the last, the
    /// check at this depth is through. An answer that is not waited for is
    /// an error, and nothing changes.
    ///
    /// Whatever the answer, `okay` only shrinks and every counterexample
    /// held stays as it is.
    pub fn on_answer(&mut self, a: SatResult) -> (r: Result<Request, Error>)
        requires
            old(self).wf(),
        ensures
            final(self).wf(),
            final(self).sys() == old(self).sys(),
            final(self).taken() == old(self).taken(),
            final(self).res().shrinks_from(&old(self).res()),
            match old(self).turn() {
                Turn::Answer(i) => {
                    &&& r == Ok::<Request, Error>(request_for(final(self).turn()))
                    &&& final(self).marks() == marks_after_answer(
                        old(self).sys(),
                        Policy::Lenient,
                        old(self).marks(),
                        i as int,
                        old(self).depth(),
                        a,
                    )
                    &&& final(self).script() == old(self).script() + lines_after_answer(
                        old(self).sys(),
                        Policy::Lenient,
                        old(self).marks(),
                        i as int,
                        old(self).depth(),
                        a,
                    )
                    &&& final(self).turn() == turn_after_answer(
                        old(self).sys(),
                        Policy::Lenient,
                        old(self).marks(),
                        i as int,
                        old(self).depth(),
                        a,
                    )
                    &&& final(self).depth() == depth_after(old(self).depth(), final(self).turn())
                },
                _ => r == Err::<Request, Error>(Error::OutOfTurn) && *final(self) == *old(self),
            },
    {
        match self.sweep.get_turn() {
            Turn::Answer(_) => {},
            _ => {
                return Err(Error::OutOfTurn);
            },
        }
        let _ = self.sweep.on_answer(a);
        self.settle();
        Ok(self.sweep.request())
    }

    /// Takes the model that falsifies the candidate under way: the
    /// candidate is falsified, with the counterexample of as many states
    /// as the depth plus one that the model gives. The frame is closed and
    /// the next pending candidate is queried; after the last, the check at
    /// this depth is through. A model that is not waited for is an error,
    /// and nothing changes.
    pub fn on_model(&mut self, model: &Vec<ModelEntry>) -> (r: Result<Request, Error>)
        requires
            old(self).wf(),
            forall|m: int| 0 <= m < model.len() ==> (#[trigger] model[m]).wf(),
        ensures
            final(self).wf(),
            final(self).sys() == old(self).sys(),
            final(self).taken() == old(self).taken(),
            final(self).res().shrinks_from(&old(self).res()),
            match old(self).turn() {
                Turn::Model(i) => {
                    &&& r == Ok::<Request, Error>(request_for(final(self).turn()))
                    &&& final(self).marks() == marks_after_model(
                        old(self).sys(),
                        old(self).marks(),
                        i as int,
                        old(self).depth(),
                        model@,
                    )
                    &&& final(self).script() == old(self).script() + (seq![pop_line()]
                        + go_on_lines(
                        old(self).sys(),
                        final(self).marks(),
                        i + 1,
                        old(self).depth(),
                    ))
                    &&& final(self).turn() == go_on_turn(final(self).marks(), i + 1)
                    &&& final(self).depth() == depth_after(old(self).depth(), final(self).turn())
                },
                _ => r == Err::<Request, Error>(Error::OutOfTurn) && *final(self) == *old(self),
            },
    {
        match self.sweep.get_turn() {
            Turn::Model(_) => {},
            _ => {
                return Err(Error::OutOfTurn);
            },
        }
        let _ = self.sweep.on_model(model);
        self.settle();
        Ok(self.sweep.request())
    }

    /// Ends the session. While a check is under way this is an error, and
    /// nothing changes.
    pub fn close(&mut self) -> (r: Result<(), Error>)
        requires
            old(self).wf(),
        ensures
            final(self).wf(),
            match r {
                Ok(_) => {
                    &&& old(self).turn() is Idle
                    &&& final(self).turn() is Over
                    &&& final(self).sys() == old(self).sys()
                    &&& final(self).res() == old(self).res()
                    &&& final(self).depth() == old(self).depth()
                    &&& final(self).taken() == old(self).taken()
                    &&& final(self).script() == old(self).script().push(crate::solver::exit_line())
                },
                Err(e) => e == Error::OutOfTurn && !(old(self).turn() is Idle) && *final(self)
                    == *old(self),
            },
    {
        match self.sweep.get_turn() {
            Turn::Idle => {
                self.sweep.close();
                Ok(())
            },
            _ => Err(Error::OutOfTurn),
        }
    }

    /// Gives up the session for its result.
    pub fn destroy(self) -> (r: CheckRes)
        requires
            self.wf(),
        ensures
            r == self.res(),
            r.wf(),
            r.names() == self.sys().names(),
            r.sorted(self.sys().decls()),
    {
        let (_, res) = self.sweep.into_parts();
        res
    }
}

} // verus!
