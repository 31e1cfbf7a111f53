//! The falsification sweep that the base check, the step check and bounded
//! model checking share.
//!
//! A sweep goes through the pending candidates of a result in the order of
//! the system. For each it opens a frame, asserts the negation of the
//! candidate at one state index, and asks the solver. On `sat` it asks for
//! a model and records the counterexample; then it closes the frame and
//! goes on. The sweep owns no solver: it writes the lines, says what it
//! waits for, and is handed the solver's answers.

use vstd::prelude::*;
use crate::cex::{extracted, unknown_note, Cex, CexView, ModelEntry};
use crate::check_res::{CheckRes, Mark, Status};
use crate::solver::{
    assert_line,
    check_sat_line,
    covers,
    declare_lines,
    exit_line,
    get_value_line,
    in_frames,
    opening_line,
    pop_line,
    push_line,
    refute_line,
    Driver,
    Error,
    SatResult,
};
use crate::semantics::Fact;
use crate::sys::{state_pred, step_pred, Sys};
use crate::term::Term;

verus! {

/// What a check waits for.
#[derive(Clone, Copy, Debug, PartialEq, Eq, Structural)]
pub enum Turn {
    /// Nothing: no query is under way.
    Idle,
    /// The solver's answer to the query on the candidate at this position.
    Answer(usize),
    /// The model that falsifies the candidate at this position.
    Model(usize),
    /// Nothing: the check is over.
    Over,
}

/// What the owner of the solver is to do next.
#[derive(Clone, Copy, Debug, PartialEq, Eq, Structural)]
pub enum Request {
    /// Send the lines written, read the answer to `(check-sat)`, and hand
    /// it over.
    Answer,
    /// Send the lines written, read the model, and hand it over.
    Model,
    /// Send the lines written. Nothing is waited for.
    Done,
}

/// How a sweep takes an answer of `unknown`.
#[derive(Clone, Copy, Debug, PartialEq, Eq, Structural)]
pub enum Policy {
    /// The candidate counts as falsified, with a counterexample that has no
    /// trace and says that the solver did not know.
    Strict,
    /// The candidate stays okay.
    Lenient,
}

/// The position of the first pending candidate from `from` on, or the
/// number of candidates if there is none.
pub open spec fn next_open(marks: Seq<Mark>, from: int) -> int
    decreases marks.len() - from,
{
    if from < 0 || from >= marks.len() {
        marks.len() as int
    } else if marks[from] is Open {
        from
    } else {
        next_open(marks, from + 1)
    }
}

/// The lines that open the query on the candidate at position `j`, at the
/// state index `k`.
pub open spec fn query_lines(sys: Sys, j: int, k: nat) -> Seq<Seq<char>> {
    seq![push_line(), refute_line(sys.cands()[j].prop, k), check_sat_line()]
}

/// The lines that go on from position `from`: the query on the next
/// pending candidate, or nothing.
pub open spec fn go_on_lines(sys: Sys, marks: Seq<Mark>, from: int, k: nat) -> Seq<Seq<char>> {
    let j = next_open(marks, from);
    if j < marks.len() {
        query_lines(sys, j, k)
    } else {
        Seq::empty()
    }
}

/// What is waited for after going on from position `from`.
pub open spec fn go_on_turn(marks: Seq<Mark>, from: int) -> Turn {
    let j = next_open(marks, from);
    if j < marks.len() {
        Turn::Answer(j as usize)
    } else {
        Turn::Idle
    }
}

/// The counterexample that stands for an answer of `unknown`.
pub open spec fn inconclusive_view() -> CexView {
    CexView { trace: Seq::empty(), unexpected: seq![unknown_note()] }
}

/// True when an answer is followed by a request for the model.
pub open spec fn wants_model(sys: Sys, a: SatResult) -> bool {
    a == SatResult::Sat && sys.decls().len() > 0
}

/// The marks once the answer `a` to the query on candidate `i` is in.
pub open spec fn marks_after_answer(
    sys: Sys,
    policy: Policy,
    marks: Seq<Mark>,
    i: int,
    k: nat,
    a: SatResult,
) -> Seq<Mark> {
    match a {
        SatResult::Unsat => marks,
        SatResult::Unknown => match policy {
            Policy::Strict => marks.update(i, Mark::Falsified(inconclusive_view())),
            Policy::Lenient => marks,
        },
        SatResult::Sat => if sys.decls().len() > 0 {
            marks
        } else {
            marks.update(i, Mark::Falsified(extracted(sys.decls(), k + 1, Seq::empty())))
        },
    }
}

/// The lines written once the answer `a` to the query on candidate `i` is
/// in: the request for the model, or the end of the frame and what goes on.
pub open spec fn lines_after_answer(
    sys: Sys,
    policy: Policy,
    marks: Seq<Mark>,
    i: int,
    k: nat,
    a: SatResult,
) -> Seq<Seq<char>> {
    if wants_model(sys, a) {
        seq![get_value_line(sys.decls(), k)]
    } else {
        seq![pop_line()] + go_on_lines(
            sys,
            marks_after_answer(sys, policy, marks, i, k, a),
            i + 1,
            k,
        )
    }
}

/// What is waited for once the answer `a` to the query on candidate `i`
/// is in.
pub open spec fn turn_after_answer(
    sys: Sys,
    policy: Policy,
    marks: Seq<Mark>,
    i: int,
    k: nat,
    a: SatResult,
) -> Turn {
    if wants_model(sys, a) {
        Turn::Model(i as usize)
    } else {
        go_on_turn(marks_after_answer(sys, policy, marks, i, k, a), i + 1)
    }
}

/// The marks once the model that falsifies candidate `i` is in.
pub open spec fn marks_after_model(
    sys: Sys,
    marks: Seq<Mark>,
    i: int,
    k: nat,
    model: Seq<ModelEntry>,
) -> Seq<Mark> {
    marks.update(i, Mark::Falsified(extracted(sys.decls(), k + 1, model)))
}

/// The state indices from 0 to `k`.
pub open spec fn upto(k: nat) -> Seq<usize> {
    Seq::new(k + 1, |i: int| i as usize)
}

/// Every state index up to `k` is declared in a session whose bottom frame
/// holds them, and the next is not.
pub proof fn lemma_upto(frames: Seq<Seq<usize>>, k: nat)
    requires
        k < usize::MAX,
        frames == seq![upto(k)] || frames == seq![upto(k), Seq::empty()],
    ensures
        covers(frames, k),
        !in_frames(frames, k + 1),
{
    assert forall|s: nat| s <= k implies #[trigger] in_frames(frames, s) by {
        assert(frames[0][s as int] == s);
    }
    if in_frames(frames, k + 1) {
        let (f, j) = choose|f: int, j: int|
            0 <= f < frames.len() && 0 <= j < frames[f].len() && (#[trigger] frames[f][j]) == k + 1;
        assert(f == 0);
        assert(frames[0][j] == j);
    }
}

/// A sweep under way: the session, the result so far, the state index at
/// which candidates are refuted, and what is waited for.
pub struct Sweep<'a> {
    sys: &'a Sys,
    driver: Driver,
    res: CheckRes,
    at: usize,
    policy: Policy,
    turn: Turn,
    /// What was asserted outside of any query.
    ground: Ghost<Seq<Fact>>,
}

impl<'a> Sweep<'a> {
    /// The system that is checked.
    pub closed spec fn sys(&self) -> Sys {
        *self.sys
    }

    /// The session.
    pub closed spec fn driver(&self) -> Driver {
        self.driver
    }

    /// The result so far.
    pub closed spec fn res(&self) -> CheckRes {
        self.res
    }

    /// The state index at which candidates are refuted.
    pub closed spec fn at(&self) -> nat {
        self.at as nat
    }

    /// How `unknown` is taken.
    pub closed spec fn policy(&self) -> Policy {
        self.policy
    }

    /// What is waited for.
    pub closed spec fn turn(&self) -> Turn {
        self.turn
    }

    /// What was asserted outside of any query: it holds for the rest of
    /// the session.
    pub closed spec fn ground(&self) -> Seq<Fact> {
        self.ground@
    }

    /// What the solver holds true while the candidate at position `i` is
    /// queried: what was asserted outside of any query, and the negation of
    /// the candidate at the state index where candidates are refuted.
    pub open spec fn query(&self, i: int) -> Seq<Seq<Fact>> {
        seq![self.ground(), seq![Fact::Fails(self.sys().cands()[i].prop, self.at())]]
    }

    /// Every line written so far.
    pub open spec fn script(&self) -> Seq<Seq<char>> {
        self.driver().script()
    }

    /// Where each candidate stands.
    pub open spec fn marks(&self) -> Seq<Mark> {
        self.res().marks()
    }

    /// The invariant of a sweep. While a query is under way exactly one
    /// frame is open, and it is the frame of a pending candidate; otherwise
    /// none is. The variables are declared for every state up to the index
    /// at which candidates are refuted.
    pub open spec fn wf(&self) -> bool {
        &&& self.sys().wf()
        &&& self.driver().wf()
        &&& self.res().wf()
        &&& self.res().names() == self.sys().names()
        &&& self.res().sorted(self.sys().decls())
        &&& self.at() < usize::MAX
        &&& match self.turn() {
            Turn::Idle | Turn::Over => {
                &&& self.driver().frames() == seq![upto(self.at())]
                &&& self.driver().asserted() == seq![self.ground()]
            },
            Turn::Answer(i) | Turn::Model(i) => {
                &&& self.driver().frames() == seq![upto(self.at()), Seq::empty()]
                &&& self.driver().asserted() == self.query(i as int)
                &&& i < self.marks().len()
                &&& self.marks()[i as int] is Open
                &&& (self.turn() is Model ==> self.sys().decls().len() > 0)
            },
        }
    }

    /// Opens a session for a sweep over a result of the system: the
    /// variables are declared for state 0, where candidates are refuted
    /// until the system is unrolled. Nothing is waited for yet.
    pub fn start(sys: &'a Sys, res: CheckRes, policy: Policy) -> (r: Sweep<'a>)
        requires
            sys.wf(),
            res.wf(),
            res.names() == sys.names(),
            res.sorted(sys.decls()),
        ensures
            r.wf(),
            r.sys() == *sys,
            r.res() == res,
            r.at() == 0,
            r.policy() == policy,
            r.ground() == Seq::<Fact>::empty(),
            r.turn() == Turn::Idle,
            r.driver().taken() == 0,
            r.script() == seq![opening_line()] + declare_lines(sys.decls(), 0),
    {
        let mut driver = Driver::new();
        proof {
            if in_frames(driver.frames(), 0) {
                let (f, j) = choose|f: int, j: int|
                    0 <= f < driver.frames().len() && 0 <= j < driver.frames()[f].len() && (
                    #[trigger] driver.frames()[f][j]) == 0;
            }
        }
        driver.declare_vars(sys.get_decls(), 0);
        assert(driver.frames() =~= seq![upto(0)]) by {
            assert(driver.frames()[0] =~= upto(0));
        }
        Sweep { sys, driver, res, at: 0, policy, turn: Turn::Idle, ground: Ghost(Seq::empty()) }
    }

    /// Asserts a predicate at the state index where candidates are
    /// refuted. A predicate that speaks of the previous state needs one:
    /// the index must not be 0.
    pub fn assert_here(&mut self, t: &Term)
        requires
            old(self).wf(),
            old(self).turn() is Idle,
            step_pred(*t, old(self).sys().decls()),
            old(self).at() >= 1 || !t.has_pre(),
        ensures
            final(self).wf(),
            final(self).sys() == old(self).sys(),
            final(self).res() == old(self).res(),
            final(self).at() == old(self).at(),
            final(self).policy() == old(self).policy(),
            final(self).ground() == old(self).ground().push(Fact::Holds(*t, old(self).at())),
            final(self).turn() == old(self).turn(),
            final(self).driver().taken() == old(self).driver().taken(),
            final(self).script() == old(self).script().push(assert_line(*t, old(self).at())),
    {
        proof {
            lemma_upto(self.driver.frames(), self.at());
            if self.at >= 1 {
                assert(in_frames(self.driver.frames(), (self.at - 1) as nat));
            }
        }
        self.driver.assert_term(t, self.at);
        self.ground = Ghost(self.ground@.push(Fact::Holds(*t, self.at as nat)));
        assert(self.driver.asserted() =~= seq![self.ground()]);
    }

    /// Asserts a predicate on one state at an earlier state index.
    pub fn assert_before(&mut self, t: &Term, s: usize)
        requires
            old(self).wf(),
            old(self).turn() is Idle,
            state_pred(*t, old(self).sys().decls()),
            s <= old(self).at(),
        ensures
            final(self).wf(),
            final(self).sys() == old(self).sys(),
            final(self).res() == old(self).res(),
            final(self).at() == old(self).at(),
            final(self).policy() == old(self).policy(),
            final(self).ground() == old(self).ground().push(Fact::Holds(*t, s as nat)),
            final(self).turn() == old(self).turn(),
            final(self).driver().taken() == old(self).driver().taken(),
            final(self).script() == old(self).script().push(assert_line(*t, s as nat)),
    {
        proof {
            lemma_upto(self.driver.frames(), self.at());
            assert(in_frames(self.driver.frames(), s as nat));
        }
        self.driver.assert_term(t, s);
        self.ground = Ghost(self.ground@.push(Fact::Holds(*t, s as nat)));
        assert(self.driver.asserted() =~= seq![self.ground()]);
    }

    /// Unrolls the system by one state: the variables are declared for the
    /// next state index, and candidates are refuted there from now on.
    pub fn unroll(&mut self)
        requires
            old(self).wf(),
            old(self).turn() is Idle,
            old(self).at() + 1 < usize::MAX,
        ensures
            final(self).wf(),
            final(self).sys() == old(self).sys(),
            final(self).res() == old(self).res(),
            final(self).at() == old(self).at() + 1,
            final(self).policy() == old(self).policy(),
            final(self).ground() == old(self).ground(),
            final(self).turn() == old(self).turn(),
            final(self).driver().taken() == old(self).driver().taken(),
            final(self).script() == old(self).script() + declare_lines(
                old(self).sys().decls(),
                old(self).at() + 1,
            ),
    {
        proof {
            lemma_upto(self.driver.frames(), self.at());
        }
        self.at = self.at + 1;
        self.driver.declare_vars(self.sys.get_decls(), self.at);
        assert(self.driver.frames() =~= seq![upto(self.at())]) by {
            assert(self.driver.frames()[0] =~= upto(self.at()));
        }
    }

    /// Ends the session: the sweep is over.
    pub fn close(&mut self)
        requires
            old(self).wf(),
            old(self).turn() is Idle,
        ensures
            final(self).wf(),
            final(self).sys() == old(self).sys(),
            final(self).res() == old(self).res(),
            final(self).at() == old(self).at(),
            final(self).policy() == old(self).policy(),
            final(self).ground() == old(self).ground(),
            final(self).turn() is Over,
            final(self).driver().taken() == old(self).driver().taken(),
            final(self).script() == old(self).script().push(exit_line()),
    {
        self.driver.close();
        self.turn = Turn::Over;
    }

    /// The system that is checked.
    pub fn get_sys(&self) -> (r: &'a Sys)
        ensures
            *r == self.sys(),
    {
        self.sys
    }

    /// What is waited for.
    pub fn get_turn(&self) -> (r: Turn)
        ensures
            r == self.turn(),
    {
        self.turn
    }

    /// The result so far.
    pub fn get_res(&self) -> (r: &CheckRes)
        ensures
            *r == self.res(),
    {
        &self.res
    }

    /// The state index at which candidates are refuted.
    pub fn get_at(&self) -> (r: usize)
        ensures
            r == self.at(),
    {
        self.at
    }

    /// What the owner of the solver is to do next.
    pub fn request(&self) -> (r: Request)
        ensures
            r == match self.turn() {
                Turn::Answer(_) => Request::Answer,
                Turn::Model(_) => Request::Model,
                _ => Request::Done,
            },
    {
        match self.turn {
            Turn::Answer(_) => Request::Answer,
            Turn::Model(_) => Request::Model,
            _ => Request::Done,
        }
    }

    /// Hands out the lines written since the last call.
    pub fn take_lines(&mut self) -> (r: Vec<String>)
        requires
            old(self).wf(),
        ensures
            final(self).wf(),
            final(self).sys() == old(self).sys(),
            final(self).res() == old(self).res(),
            final(self).at() == old(self).at(),
            final(self).policy() == old(self).policy(),
            final(self).ground() == old(self).ground(),
            final(self).turn() == old(self).turn(),
            final(self).script() == old(self).script(),
            final(self).driver().frames() == old(self).driver().frames(),
            final(self).driver().taken() == old(self).script().len(),
            crate::solver::texts_of(r@) == old(self).script().subrange(
                old(self).driver().taken() as int,
                old(self).script().len() as int,
            ),
    {
        self.driver.take_lines()
    }

    /// Gives up the sweep for its session and its result.
    pub fn into_parts(self) -> (r: (Driver, CheckRes))
        ensures
            r.0 == self.driver(),
            r.1 == self.res(),
    {
        (self.driver, self.res)
    }

    /// The position of the first pending candidate from `from` on.
    fn find_open(&self, from: usize) -> (r: usize)
        requires
            self.res().wf(),
            from <= self.marks().len(),
        ensures
            r == next_open(self.marks(), from as int),
            from <= r <= self.marks().len(),
            r < self.marks().len() ==> self.marks()[r as int] is Open,
    {
        let n: usize = self.res.len();
        let mut j: usize = from;
        while j < n
            invariant
                from <= j <= n,
                n == self.marks().len(),
                self.res().wf(),
                next_open(self.marks(), from as int) == next_open(self.marks(), j as int),
            decreases n - j,
        {
            match self.res.status_at(j) {
                Status::Open => {
                    return j;
                },
                _ => {},
            }
            j = j + 1;
        }
        j
    }

    /// Goes on from position `from`: opens the query on the next pending
    /// candidate, if there is one.
    pub fn go_on(&mut self, from: usize)
        requires
            old(self).wf(),
            old(self).turn() is Idle,
            from <= old(self).marks().len(),
        ensures
            final(self).wf(),
            final(self).sys() == old(self).sys(),
            final(self).res() == old(self).res(),
            final(self).at() == old(self).at(),
            final(self).policy() == old(self).policy(),
            final(self).ground() == old(self).ground(),
            final(self).driver().taken() == old(self).driver().taken(),
            final(self).script() == old(self).script() + go_on_lines(
                old(self).sys(),
                old(self).marks(),
                from as int,
                old(self).at(),
            ),
            final(self).turn() == go_on_turn(old(self).marks(), from as int),
            !(final(self).turn() is Over),
            !(final(self).turn() is Model),
    {
        let j: usize = self.find_open(from);
        if j < self.res.len() {
            let cands = self.sys.get_candidates();
            proof {
                assert(self.sys().names().len() == self.sys().cands().len());
                assert(crate::sys::state_pred(self.sys().cands()[j as int].prop, self.sys().decls()));
            }
            proof {
                lemma_upto(self.driver.frames(), self.at());
            }
            self.driver.push();
            proof {
                assert(self.driver.frames() =~= seq![upto(self.at()), Seq::empty()]);
                lemma_upto(self.driver.frames(), self.at());
            }
            self.driver.assert_not(&cands[j].prop, self.at);
            self.driver.check_sat();
            self.turn = Turn::Answer(j);
            assert(self.driver.asserted() =~= self.query(j as int));
            assert(self.script() =~= old(self).script() + query_lines(
                self.sys(),
                j as int,
                self.at(),
            ));
        } else {
            assert(self.script() =~= old(self).script() + Seq::<Seq<char>>::empty());
        }
    }

    /// Closes the frame of the query under way.
    fn end_query(&mut self)
        requires
            old(self).wf(),
            old(self).turn() is Answer || old(self).turn() is Model,
        ensures
            final(self).sys() == old(self).sys(),
            final(self).res() == old(self).res(),
            final(self).at() == old(self).at(),
            final(self).policy() == old(self).policy(),
            final(self).ground() == old(self).ground(),
            final(self).driver().taken() == old(self).driver().taken(),
            final(self).wf(),
            final(self).script() == old(self).script().push(pop_line()),
            final(self).turn() is Idle,
    {
        let r = self.driver.pop();
        self.turn = Turn::Idle;
        proof {
            assert(r is Ok);
            assert(self.driver.frames() =~= seq![upto(self.at())]);
            assert(self.driver.asserted() =~= seq![self.ground()]);
        }
    }

    /// Takes the solver's answer to the query under way. On `sat` the
    /// model is asked for, unless the system has no variable: then the
    /// candidate is falsified at once, with a trace of empty states. On
    /// `unsat` the candidate stays okay. On `unknown` the policy decides.
    /// Unless a model is asked for, the frame is closed and the sweep goes
    /// on. An answer that is not waited for is an error, and nothing
    /// changes.
    pub fn on_answer(&mut self, a: SatResult) -> (r: Result<Request, Error>)
        requires
            old(self).wf(),
        ensures
            final(self).wf(),
            final(self).sys() == old(self).sys(),
            final(self).at() == old(self).at(),
            final(self).policy() == old(self).policy(),
            final(self).ground() == old(self).ground(),
            final(self).driver().taken() == old(self).driver().taken(),
            final(self).res().shrinks_from(&old(self).res()),
            !(final(self).turn() is Over) || old(self).turn() is Over,
            match old(self).turn() {
                Turn::Answer(i) => {
                    &&& r == Ok::<Request, Error>(final(self).request_spec())
                    &&& final(self).marks() == marks_after_answer(
                        old(self).sys(),
                        old(self).policy(),
                        old(self).marks(),
                        i as int,
                        old(self).at(),
                        a,
                    )
                    &&& final(self).script() == old(self).script() + lines_after_answer(
                        old(self).sys(),
                        old(self).policy(),
                        old(self).marks(),
                        i as int,
                        old(self).at(),
                        a,
                    )
                    &&& final(self).turn() == turn_after_answer(
                        old(self).sys(),
                        old(self).policy(),
                        old(self).marks(),
                        i as int,
                        old(self).at(),
                        a,
                    )
                },
                _ => {
                    &&& r == Err::<Request, Error>(Error::OutOfTurn)
                    &&& *final(self) == *old(self)
                },
            },
    {
        let i: usize = match self.turn {
            Turn::Answer(i) => i,
            _ => {
                return Err(Error::OutOfTurn);
            },
        };
        let decls = self.sys.get_decls();
        let n: usize = self.res.len();
        let falsified: Option<Cex> = match a {
            SatResult::Unsat => None,
            SatResult::Unknown => match self.policy {
                Policy::Strict => Some(Cex::inconclusive()),
                Policy::Lenient => None,
            },
            SatResult::Sat => {
                if decls.len() > 0 {
                    proof {
                        lemma_upto(self.driver.frames(), self.at());
                    }
                    self.driver.get_values(decls, self.at);
                    self.turn = Turn::Model(i);
                    assert(self.script() =~= old(self).script() + seq![
                        get_value_line(self.sys().decls(), self.at()),
                    ]);
                    return Ok(Request::Model);
                }
                let none: Vec<ModelEntry> = Vec::new();
                Some(Cex::extract(decls, self.at + 1, &none))
            },
        };
        match falsified {
            Some(cex) => {
                proof {
                    if a == SatResult::Unknown {
                        assert(cex@.trace =~= inconclusive_view().trace);
                    }
                }
                self.settle(i, cex);
            },
            None => {
                self.end_query();
                self.go_on(i + 1);
                assert(self.script() =~= old(self).script() + (seq![pop_line()] + go_on_lines(
                    self.sys(),
                    old(self).marks(),
                    i + 1,
                    self.at(),
                )));
            },
        }
        Ok(self.request())
    }

    /// Takes the model that falsifies the candidate under way: the
    /// counterexample is built from it and recorded, the frame is closed,
    /// and the sweep goes on. A model that is not waited for is an error,
    /// and nothing changes.
    pub fn on_model(&mut self, model: &Vec<ModelEntry>) -> (r: Result<Request, Error>)
        requires
            old(self).wf(),
            forall|m: int| 0 <= m < model.len() ==> (#[trigger] model[m]).wf(),
        ensures
            final(self).wf(),
            final(self).sys() == old(self).sys(),
            final(self).at() == old(self).at(),
            final(self).policy() == old(self).policy(),
            final(self).ground() == old(self).ground(),
            final(self).driver().taken() == old(self).driver().taken(),
            final(self).res().shrinks_from(&old(self).res()),
            !(final(self).turn() is Over) || old(self).turn() is Over,
            match old(self).turn() {
                Turn::Model(i) => {
                    &&& r == Ok::<Request, Error>(final(self).request_spec())
                    &&& final(self).marks() == marks_after_model(
                        old(self).sys(),
                        old(self).marks(),
                        i as int,
                        old(self).at(),
                        model@,
                    )
                    &&& final(self).script() == old(self).script() + (seq![pop_line()]
                        + go_on_lines(
                        old(self).sys(),
                        final(self).marks(),
                        i + 1,
                        old(self).at(),
                    ))
                    &&& final(self).turn() == go_on_turn(final(self).marks(), i + 1)
                },
                _ => {
                    &&& r == Err::<Request, Error>(Error::OutOfTurn)
                    &&& *final(self) == *old(self)
                },
            },
    {
        let i: usize = match self.turn {
            Turn::Model(i) => i,
            _ => {
                return Err(Error::OutOfTurn);
            },
        };
        let cex: Cex = Cex::extract(self.sys.get_decls(), self.at + 1, model);
        self.settle(i, cex);
        Ok(self.request())
    }

    /// What the owner of the solver is to do next.
    pub open spec fn request_spec(&self) -> Request {
        match self.turn() {
            Turn::Answer(_) => Request::Answer,
            Turn::Model(_) => Request::Model,
            _ => Request::Done,
        }
    }

    /// Records the counterexample of the candidate under way, closes the
    /// frame, and goes on.
    fn settle(&mut self, i: usize, cex: Cex)
        requires
            old(self).wf(),
            old(self).turn() == Turn::Answer(i) || old(self).turn() == Turn::Model(i),
            cex.wf(),
            cex.sorted(old(self).sys().decls()),
        ensures
            final(self).wf(),
            final(self).sys() == old(self).sys(),
            final(self).at() == old(self).at(),
            final(self).policy() == old(self).policy(),
            final(self).ground() == old(self).ground(),
            final(self).driver().taken() == old(self).driver().taken(),
            final(self).res().shrinks_from(&old(self).res()),
            final(self).marks() == old(self).marks().update(i as int, Mark::Falsified(cex@)),
            final(self).script() == old(self).script() + (seq![pop_line()] + go_on_lines(
                old(self).sys(),
                final(self).marks(),
                i + 1,
                old(self).at(),
            )),
            final(self).turn() == go_on_turn(final(self).marks(), i + 1),
            !(final(self).turn() is Over),
    {
        let n: usize = self.res.len();
        self.end_query();
        self.res.falsify_at(i, cex);
        self.go_on(i + 1);
        assert(self.script() =~= old(self).script() + (seq![pop_line()] + go_on_lines(
            self.sys(),
            self.marks(),
            i + 1,
            self.at(),
        )));
    }
}

} // verus!
