//! One pass over all the candidates of a system, as the base check and the
//! step check make it: every candidate is queried once, in order, and an
//! answer of `unknown` counts as a falsification.
//!
//! The pass remembers the answers it was given. Its script and its result
//! are functions of the system, of what was written before the pass, and of
//! those answers.

use vstd::prelude::*;
use crate::cex::{extracted, ModelEntry};
use crate::check_res::{CheckRes, Mark};
use crate::semantics::Fact;
use crate::solver::{exit_line, get_value_line, pop_line, Error, SatResult};
use crate::sweep::{
    inconclusive_view,
    next_open,
    query_lines,
    wants_model,
    Policy,
    Request,
    Sweep,
    Turn,
};
use crate::sys::Sys;

verus! {

/// The lines of the whole query on the candidate at position `j`, given
/// the solver's answer.
pub open spec fn round_lines(sys: Sys, j: int, k: nat, a: SatResult) -> Seq<Seq<char>> {
    query_lines(sys, j, k) + (if wants_model(sys, a) {
        seq![get_value_line(sys.decls(), k)]
    } else {
        Seq::empty()
    }) + seq![pop_line()]
}

/// The lines of the queries on the first candidates, one for each answer.
pub open spec fn answered_lines(sys: Sys, k: nat, answers: Seq<SatResult>) -> Seq<Seq<char>>
    decreases answers.len(),
{
    if answers.len() == 0 {
        Seq::empty()
    } else {
        answered_lines(sys, k, answers.drop_last()) + round_lines(
            sys,
            answers.len() - 1,
            k,
            answers.last(),
        )
    }
}

/// The lines of the query that is under way, or the end of the session.
pub open spec fn tail_lines(sys: Sys, k: nat, turn: Turn) -> Seq<Seq<char>> {
    match turn {
        Turn::Answer(i) => query_lines(sys, i as int, k),
        Turn::Model(i) => query_lines(sys, i as int, k).push(get_value_line(sys.decls(), k)),
        Turn::Over => seq![exit_line()],
        Turn::Idle => Seq::empty(),
    }
}

/// Where a candidate stands once it was queried at the state index `k`:
/// okay on `unsat`; falsified on `sat`, with the counterexample of `k + 1`
/// states that the model gives; falsified on `unknown`, with the
/// counterexample that says so.
pub open spec fn verdict(sys: Sys, k: nat, a: SatResult, model: Seq<ModelEntry>) -> Mark {
    match a {
        SatResult::Unsat => Mark::Open,
        SatResult::Unknown => Mark::Falsified(inconclusive_view()),
        SatResult::Sat => Mark::Falsified(
            extracted(
                sys.decls(),
                k + 1,
                if sys.decls().len() > 0 {
                    model
                } else {
                    Seq::empty()
                },
            ),
        ),
    }
}

/// Where the `n` candidates stand when the first of them were queried.
pub open spec fn pass_marks(
    sys: Sys,
    k: nat,
    answers: Seq<SatResult>,
    models: Seq<Seq<ModelEntry>>,
    n: nat,
) -> Seq<Mark> {
    Seq::new(
        n,
        |j: int|
            if j < answers.len() {
                verdict(sys, k, answers[j], models[j])
            } else {
                Mark::Open
            },
    )
}

/// How many candidates were queried when the pass waits for `turn`.
pub open spec fn queried(turn: Turn, n: nat) -> nat {
    match turn {
        Turn::Answer(i) => i as nat,
        Turn::Model(i) => i as nat,
        _ => n,
    }
}

/// What is waited for after the query on the candidate at position `i`
/// of `n`: the answer on the next candidate, or nothing after the last.
pub open spec fn turn_after(i: int, n: nat) -> Turn {
    if i + 1 < n {
        Turn::Answer((i + 1) as usize)
    } else {
        Turn::Over
    }
}

/// What the owner of the solver is to do next, by what is waited for.
pub open spec fn request_for(turn: Turn) -> Request {
    match turn {
        Turn::Answer(_) => Request::Answer,
        Turn::Model(_) => Request::Model,
        _ => Request::Done,
    }
}

/// How a pass takes the solver's answer `a`, from `before` to `after`, and
/// what it returns.
///
/// While an answer is waited for: on `sat`, with a system that has
/// variables, the model is waited for next and nothing is remembered yet;
/// otherwise the answer is remembered, with no model, and the pass turns
/// to the next candidate, or is over after the last. At any other time the
/// answer is an error, and nothing changes.
pub open spec fn answered(before: Pass, after: Pass, a: SatResult, r: Result<Request, Error>) -> bool {
    &&& after.sys() == before.sys()
    &&& after.at() == before.at()
    &&& after.prelude() == before.prelude()
    &&& after.ground() == before.ground()
    &&& after.taken() == before.taken()
    &&& match before.turn() {
        Turn::Answer(i) => {
            &&& r == Ok::<Request, Error>(request_for(after.turn()))
            &&& if wants_model(before.sys(), a) {
                &&& after.turn() == Turn::Model(i)
                &&& after.answers() == before.answers()
                &&& after.models() == before.models()
            } else {
                &&& after.turn() == turn_after(i as int, before.marks().len())
                &&& after.answers() == before.answers().push(a)
                &&& after.models() == before.models().push(Seq::empty())
            }
        },
        _ => r == Err::<Request, Error>(Error::OutOfTurn) && after == before,
    }
}

/// How a pass takes the model that falsifies the candidate under way,
/// from `before` to `after`, and what it returns.
///
/// While a model is waited for, the answer `sat` is remembered with the
/// model, and the pass turns to the next candidate, or is over after the
/// last. At any other time the model is an error, and nothing changes.
pub open spec fn modelled(
    before: Pass,
    after: Pass,
    model: Seq<ModelEntry>,
    r: Result<Request, Error>,
) -> bool {
    &&& after.sys() == before.sys()
    &&& after.at() == before.at()
    &&& after.prelude() == before.prelude()
    &&& after.ground() == before.ground()
    &&& after.taken() == before.taken()
    &&& match before.turn() {
        Turn::Model(i) => {
            &&& r == Ok::<Request, Error>(request_for(after.turn()))
            &&& after.turn() == turn_after(i as int, before.marks().len())
            &&& after.answers() == before.answers().push(SatResult::Sat)
            &&& after.models() == before.models().push(model)
        },
        _ => r == Err::<Request, Error>(Error::OutOfTurn) && after == before,
    }
}

/// How a pass hands out its lines, from `before` to `after`: the lines
/// written since the last time, and nothing else changes.
pub open spec fn lines_taken(before: Pass, after: Pass, lines: Seq<String>) -> bool {
    &&& after.sys() == before.sys()
    &&& after.at() == before.at()
    &&& after.turn() == before.turn()
    &&& after.prelude() == before.prelude()
    &&& after.ground() == before.ground()
    &&& after.answers() == before.answers()
    &&& after.models() == before.models()
    &&& after.script() == before.script()
    &&& after.marks() == before.marks()
    &&& after.taken() == before.script().len()
    &&& crate::solver::texts_of(lines) == before.script().subrange(
        before.taken() as int,
        before.script().len() as int,
    )
}

/// A pass under way.
pub struct Pass<'a> {
    sweep: Sweep<'a>,
    prelude: Ghost<Seq<Seq<char>>>,
    answers: Ghost<Seq<SatResult>>,
    models: Ghost<Seq<Seq<ModelEntry>>>,
}

impl<'a> Pass<'a> {
    /// The sweep that the pass drives.
    pub closed spec fn sweep(&self) -> Sweep<'a> {
        self.sweep
    }

    /// The lines that were written before the pass.
    pub closed spec fn prelude(&self) -> Seq<Seq<char>> {
        self.prelude@
    }

    /// The answers of the solver so far, one for each candidate queried.
    pub closed spec fn answers(&self) -> Seq<SatResult> {
        self.answers@
    }

    /// The models of the solver so far, one for each candidate queried;
    /// empty where none was asked for.
    pub closed spec fn models(&self) -> Seq<Seq<ModelEntry>> {
        self.models@
    }

    /// The system that is checked.
    pub open spec fn sys(&self) -> Sys {
        self.sweep().sys()
    }

    /// The state index at which candidates are refuted.
    pub open spec fn at(&self) -> nat {
        self.sweep().at()
    }

    /// What is waited for.
    pub open spec fn turn(&self) -> Turn {
        self.sweep().turn()
    }

    /// Every line written so far.
    pub open spec fn script(&self) -> Seq<Seq<char>> {
        self.sweep().script()
    }

    /// Where each candidate stands.
    pub open spec fn marks(&self) -> Seq<Mark> {
        self.sweep().marks()
    }

    /// The number of frames that are open in the session.
    pub open spec fn depth(&self) -> nat {
        self.sweep().driver().depth()
    }

    /// How many lines have been taken.
    pub open spec fn taken(&self) -> nat {
        self.sweep().driver().taken()
    }

    /// What was asserted before the pass: it holds throughout.
    pub open spec fn ground(&self) -> Seq<Fact> {
        self.sweep().ground()
    }

    /// What the solver holds true, frame by frame.
    pub open spec fn asserted(&self) -> Seq<Seq<Fact>> {
        self.sweep().driver().asserted()
    }

    /// The invariant of a pass: the script and the marks are what the
    /// answers so far make them.
    pub open spec fn wf(&self) -> bool {
        &&& self.sweep().wf()
        &&& self.sweep().policy() == Policy::Strict
        &&& !(self.turn() is Idle)
        &&& self.answers().len() == queried(self.turn(), self.marks().len())
        &&& self.models().len() == self.answers().len()
        &&& self.marks() == pass_marks(
            self.sys(),
            self.at(),
            self.answers(),
            self.models(),
            self.marks().len(),
        )
        &&& self.script() == self.prelude() + answered_lines(self.sys(), self.at(), self.answers())
            + tail_lines(self.sys(), self.at(), self.turn())
    }

    /// While the candidate at position `i` is queried, the solver holds
    /// true what was asserted before the pass and the negation of the
    /// candidate, and nothing else.
    pub proof fn lemma_query(&self, i: int)
        requires
            self.wf(),
            self.turn() == Turn::Answer(i as usize) || self.turn() == Turn::Model(i as usize),
            0 <= i <= usize::MAX,
        ensures
            0 <= i < self.sys().cands().len(),
            self.asserted() == seq![
                self.ground(),
                seq![Fact::Fails(self.sys().cands()[i].prop, self.at())],
            ],
    {
        assert(self.sys().names().len() == self.sys().cands().len());
    }

    /// When a pass is over, every candidate was queried and no frame is
    /// open: the depth of the session is what it was before the pass.
    pub proof fn lemma_over(&self)
        requires
            self.wf(),
            self.turn() is Over,
        ensures
            self.depth() == 0,
            self.answers().len() == self.sys().names().len(),
            self.script() == self.prelude() + answered_lines(self.sys(), self.at(), self.answers())
                + seq![exit_line()],
    {
    }

    /// The lines of a pass are determined by the system, by the lines
    /// written before the pass, and by the answers of the solver.
    pub proof fn lemma_script_determined(&self, other: &Pass)
        requires
            self.wf(),
            other.wf(),
            self.sys() == other.sys(),
            self.at() == other.at(),
            self.prelude() == other.prelude(),
            self.answers() == other.answers(),
            self.turn() == other.turn(),
        ensures
            self.script() == other.script(),
    {
    }

    /// The result of a pass is determined by the system and by the
    /// answers and the models of the solver.
    pub proof fn lemma_marks_determined(&self, other: &Pass)
        requires
            self.wf(),
            other.wf(),
            self.sys() == other.sys(),
            self.at() == other.at(),
            self.answers() == other.answers(),
            self.models() == other.models(),
        ensures
            self.marks() == other.marks(),
    {
        assert(self.marks().len() == self.sys().names().len());
        assert(other.marks().len() == other.sys().names().len());
    }

    /// Begins the pass on a sweep in which every candidate is pending: the
    /// first candidate is queried, or the session is ended if there is
    /// none.
    pub fn begin(sweep: Sweep<'a>) -> (r: Pass<'a>)
        requires
            sweep.wf(),
            sweep.turn() is Idle,
            sweep.policy() == Policy::Strict,
            forall|j: int| 0 <= j < sweep.marks().len() ==> #[trigger] sweep.marks()[j] is Open,
        ensures
            r.wf(),
            r.sys() == sweep.sys(),
            r.at() == sweep.at(),
            r.prelude() == sweep.script(),
            r.ground() == sweep.ground(),
            r.turn() == (if sweep.marks().len() > 0 {
                Turn::Answer(0)
            } else {
                Turn::Over
            }),
            r.answers() == Seq::<SatResult>::empty(),
            r.models() == Seq::<Seq<ModelEntry>>::empty(),
            r.taken() == sweep.driver().taken(),
    {
        let mut sweep = sweep;
        let ghost prelude = sweep.script();
        let ghost marks = sweep.marks();
        sweep.go_on(0);
        match sweep.get_turn() {
            Turn::Idle => {
                sweep.close();
            },
            _ => {},
        }
        let r = Pass {
            sweep,
            prelude: Ghost(prelude),
            answers: Ghost(Seq::empty()),
            models: Ghost(Seq::empty()),
        };
        proof {
            assert(next_open(marks, 0) == if marks.len() > 0 {
                0int
            } else {
                marks.len() as int
            });
            assert(r.marks() =~= pass_marks(r.sys(), r.at(), r.answers(), r.models(), marks.len()));
            assert(r.script() =~= r.prelude() + answered_lines(r.sys(), r.at(), r.answers())
                + tail_lines(r.sys(), r.at(), r.turn()));
        }
        r
    }

    /// What the owner of the solver is to do next.
    pub fn request(&self) -> (r: Request)
        ensures
            r == request_for(self.turn()),
    {
        self.sweep.request()
    }

    /// Tells whether the pass is over.
    pub fn is_over(&self) -> (r: bool)
        ensures
            r == (self.turn() is Over),
    {
        match self.sweep.get_turn() {
            Turn::Over => true,
            _ => false,
        }
    }

    /// Hands out the lines written since the last call.
    pub fn take_lines(&mut self) -> (r: Vec<String>)
        requires
            old(self).wf(),
        ensures
            final(self).wf(),
            lines_taken(*old(self), *final(self), r@),
    {
        self.sweep.take_lines()
    }

    /// Ends the query under way, in the history of the pass: the answer
    /// and the model are remembered, and the session is ended after the
    /// last candidate.
    fn round_done(&mut self, Ghost(i): Ghost<int>, Ghost(a): Ghost<SatResult>, Ghost(m): Ghost<
        Seq<ModelEntry>,
    >)
        requires
            old(self).sweep().wf(),
            old(self).sweep().policy() == Policy::Strict,
            !(old(self).turn() is Over),
            !(old(self).turn() is Model),
            0 <= i < old(self).marks().len(),
            old(self).answers().len() == i,
            old(self).models().len() == i,
            a == SatResult::Sat || m.len() == 0,
            a == SatResult::Sat && old(self).sys().decls().len() > 0 || m.len() == 0,
            old(self).marks() == pass_marks(
                old(self).sys(),
                old(self).at(),
                old(self).answers().push(a),
                old(self).models().push(m),
                old(self).marks().len(),
            ),
            old(self).turn() == crate::sweep::go_on_turn(old(self).marks(), i + 1),
            old(self).script() == old(self).prelude() + answered_lines(
                old(self).sys(),
                old(self).at(),
                old(self).answers(),
            ) + round_lines(old(self).sys(), i, old(self).at(), a) + crate::sweep::go_on_lines(
                old(self).sys(),
                old(self).marks(),
                i + 1,
                old(self).at(),
            ),
        ensures
            final(self).wf(),
            final(self).sys() == old(self).sys(),
            final(self).at() == old(self).at(),
            final(self).prelude() == old(self).prelude(),
            final(self).ground() == old(self).ground(),
            final(self).answers() == old(self).answers().push(a),
            final(self).models() == old(self).models().push(m),
            final(self).marks() == old(self).marks(),
            final(self).sweep().driver().taken() == old(self).sweep().driver().taken(),
            final(self).turn() == if i + 1 < old(self).marks().len() {
                Turn::Answer((i + 1) as usize)
            } else {
                Turn::Over
            },
    {
        let n: usize = self.sweep.get_res().len();
        proof {
            let marks = self.marks();
            assert(next_open(marks, i + 1) == if i + 1 < marks.len() {
                i + 1
            } else {
                marks.len() as int
            }) by {
                if i + 1 < marks.len() {
                    assert(marks[i + 1] is Open);
                }
            }
            let new_answers = self.answers().push(a);
            assert(new_answers.drop_last() =~= self.answers());
            assert(new_answers.last() == a);
        }
        self.answers = Ghost(self.answers@.push(a));
        self.models = Ghost(self.models@.push(m));
        match self.sweep.get_turn() {
            Turn::Idle => {
                self.sweep.close();
                assert(self.script() =~= self.prelude() + answered_lines(
                    self.sys(),
                    self.at(),
                    self.answers(),
                ) + tail_lines(self.sys(), self.at(), self.turn()));
            },
            _ => {
                assert(self.script() =~= self.prelude() + answered_lines(
                    self.sys(),
                    self.at(),
                    self.answers(),
                ) + tail_lines(self.sys(), self.at(), self.turn()));
            },
        }
    }

    /// Takes the solver's answer to the query under way.
    ///
    /// On `sat`, with a system that has variables, the model is asked for
    /// and the query goes on. Otherwise the query is over and the answer
    /// is remembered: then the next candidate is queried, or the session
    /// is ended after the last. An answer that is not waited for is an
    /// error, and nothing changes.
    pub fn on_answer(&mut self, a: SatResult) -> (r: Result<Request, Error>)
        requires
            old(self).wf(),
        ensures
            final(self).wf(),
            answered(*old(self), *final(self), a, r),
    {
        let before: Turn = self.sweep.get_turn();
        let n: usize = self.sweep.get_res().len();
        let r = self.sweep.on_answer(a);
        match before {
            Turn::Answer(i) => {
                let now: Turn = self.sweep.get_turn();
                match now {
                    Turn::Model(_) => {
                        proof {
                            assert(self.script() =~= self.prelude() + answered_lines(
                                self.sys(),
                                self.at(),
                                self.answers(),
                            ) + tail_lines(self.sys(), self.at(), self.turn()));
                        }
                    },
                    _ => {
                        proof {
                            let none = Seq::<ModelEntry>::empty();
                            assert(self.marks() =~= pass_marks(
                                self.sys(),
                                self.at(),
                                self.answers().push(a),
                                self.models().push(none),
                                self.marks().len(),
                            ));
                            assert(self.script() =~= self.prelude() + answered_lines(
                                self.sys(),
                                self.at(),
                                self.answers(),
                            ) + round_lines(self.sys(), i as int, self.at(), a)
                                + crate::sweep::go_on_lines(
                                self.sys(),
                                self.marks(),
                                i + 1,
                                self.at(),
                            ));
                        }
                        self.round_done(Ghost(i as int), Ghost(a), Ghost(Seq::empty()));
                    },
                }
                Ok(self.sweep.request())
            },
            _ => r,
        }
    }

    /// Takes the model that falsifies the candidate under way. The query
    /// is over, and the answer `sat` is remembered with the model: then the
    /// next candidate is queried, or the session is ended after the last.
    /// A model that is not waited for is an error, and nothing changes.
    pub fn on_model(&mut self, model: &Vec<ModelEntry>) -> (r: Result<Request, Error>)
        requires
            old(self).wf(),
            forall|m: int| 0 <= m < model.len() ==> (#[trigger] model[m]).wf(),
        ensures
            final(self).wf(),
            modelled(*old(self), *final(self), model@, r),
    {
        let before: Turn = self.sweep.get_turn();
        let n: usize = self.sweep.get_res().len();
        let r = self.sweep.on_model(model);
        match before {
            Turn::Model(i) => {
                proof {
                    assert(self.marks() =~= pass_marks(
                        self.sys(),
                        self.at(),
                        self.answers().push(SatResult::Sat),
                        self.models().push(model@),
                        self.marks().len(),
                    ));
                    assert(self.script() =~= self.prelude() + answered_lines(
                        self.sys(),
                        self.at(),
                        self.answers(),
                    ) + round_lines(self.sys(), i as int, self.at(), SatResult::Sat)
                        + crate::sweep::go_on_lines(self.sys(), self.marks(), i + 1, self.at()));
                }
                self.round_done(Ghost(i as int), Ghost(SatResult::Sat), Ghost(model@));
                Ok(self.sweep.request())
            },
            _ => r,
        }
    }

    /// The result of the pass, once it is over. Before that, asking for it
    /// is an error.
    pub fn finish(self) -> (r: Result<CheckRes, Error>)
        requires
            self.wf(),
        ensures
            match r {
                Ok(res) => {
                    &&& self.turn() is Over
                    &&& res == self.sweep().res()
                    &&& res.wf()
                    &&& res.names() == self.sys().names()
                    &&& res.sorted(self.sys().decls())
                    &&& res.marks() == pass_marks(
                        self.sys(),
                        self.at(),
                        self.answers(),
                        self.models(),
                        self.sys().names().len(),
                    )
                },
                Err(e) => e == Error::OutOfTurn && !(self.turn() is Over),
            },
    {
        if !self.is_over() {
            return Err(Error::OutOfTurn);
        }
        let (_, res) = self.sweep.into_parts();
        Ok(res)
    }
}

} // verus!
