//! The solver driver: the SMT-LIB script of one solver session, and the
//! bookkeeping of its assertion frames.
//!
//! The driver owns no process. It writes the lines that are to be sent to
//! the solver, in order, and remembers for which state indices the
//! variables are declared in which frame. Whoever owns the process takes
//! the lines with [`Driver::take_lines`], sends them, and hands the
//! solver's answers back as values.

use vstd::prelude::*;
use crate::semantics::Fact;
use crate::term::{symbol, write_symbol, Term, Var};

verus! {

/// What the solver answers to `(check-sat)`.
#[derive(Clone, Copy, Debug, PartialEq, Eq, Structural)]
pub enum SatResult {
    Sat,
    Unsat,
    Unknown,
}

/// What can go wrong in a session or between two results.
#[derive(Clone, Copy, Debug, PartialEq, Eq, Structural)]
pub enum Error {
    /// The solver's reply to `(check-sat)` is none of `sat`, `unsat`,
    /// `unknown`.
    UnexpectedReply,
    /// A frame was popped that was never pushed.
    UnbalancedPop,
    /// An answer was handed over that had not been asked for.
    OutOfTurn,
    /// Two results were combined that do not speak of the same candidates.
    DifferentSystems,
    /// A candidate was named that the system does not have.
    UnknownCandidate,
    /// A candidate was falsified a second time.
    AlreadyFalsified,
    /// The system cannot be unrolled further: the depth does not fit the
    /// machine's integers.
    TooDeep,
}

/// The line that opens every session: models are wanted, and no logic is
/// fixed, so that integers, rationals and Booleans can be mixed.
pub open spec fn opening_line() -> Seq<char> {
    "(set-option :produce-models true)"@
}

/// The declaration of one variable in state `s`.
pub open spec fn declare_line(v: Var, s: nat) -> Seq<char> {
    "(declare-const "@ + symbol(v.id@, s) + " "@ + v.sort.smt_name() + ")"@
}

/// The declarations of all variables in state `s`, in order.
pub open spec fn declare_lines(decls: Seq<Var>, s: nat) -> Seq<Seq<char>> {
    Seq::new(decls.len(), |i: int| declare_line(decls[i], s))
}

/// The assertion of a term under the state index `s`.
pub open spec fn assert_line(t: Term, s: nat) -> Seq<char> {
    "(assert "@ + t.smt(s) + ")"@
}

/// The assertion of the negation of a term under the state index `s`.
pub open spec fn refute_line(t: Term, s: nat) -> Seq<char> {
    "(assert (not "@ + t.smt(s) + "))"@
}

/// The line that opens a frame.
pub open spec fn push_line() -> Seq<char> {
    "(push 1)"@
}

/// The line that closes a frame.
pub open spec fn pop_line() -> Seq<char> {
    "(pop 1)"@
}

/// The satisfiability query.
pub open spec fn check_sat_line() -> Seq<char> {
    "(check-sat)"@
}

/// The line that ends a session.
pub open spec fn exit_line() -> Seq<char> {
    "(exit)"@
}

/// Texts with one space between each two.
pub open spec fn joined(texts: Seq<Seq<char>>) -> Seq<char>
    decreases texts.len(),
{
    if texts.len() == 0 {
        Seq::empty()
    } else if texts.len() == 1 {
        texts[0]
    } else {
        joined(texts.drop_last()) + " "@ + texts.last()
    }
}

/// The symbols of all variables in state `s`, in order.
pub open spec fn symbols_at(decls: Seq<Var>, s: nat) -> Seq<Seq<char>> {
    Seq::new(decls.len(), |i: int| symbol(decls[i].id@, s))
}

/// The symbols of all variables in the first `n` states, state by state.
pub open spec fn symbols_upto(decls: Seq<Var>, n: nat) -> Seq<Seq<char>>
    decreases n,
{
    if n == 0 {
        Seq::empty()
    } else {
        symbols_upto(decls, (n - 1) as nat) + symbols_at(decls, (n - 1) as nat)
    }
}

/// The request for the values of all variables in the states `0` to `k`.
pub open spec fn get_value_line(decls: Seq<Var>, k: nat) -> Seq<char> {
    "(get-value ("@ + joined(symbols_upto(decls, k + 1)) + "))"@
}

/// The texts of a list of lines.
pub open spec fn texts_of(lines: Seq<String>) -> Seq<Seq<char>> {
    Seq::new(lines.len(), |i: int| lines[i]@)
}

/// True when `s` is in one of the frames.
pub open spec fn in_frames(frames: Seq<Seq<usize>>, s: nat) -> bool {
    exists|f: int, j: int|
        0 <= f < frames.len() && 0 <= j < frames[f].len() && (#[trigger] frames[f][j]) == s
}

/// True when every state index up to `k` is in one of the frames.
pub open spec fn covers(frames: Seq<Seq<usize>>, k: nat) -> bool {
    forall|s: nat| s <= k ==> #[trigger] in_frames(frames, s)
}

/// The script and the frames of one solver session.
pub struct Driver {
    /// The state indices declared in each frame, the bottom frame first.
    frames: Vec<Vec<usize>>,
    /// Every line written so far.
    lines: Vec<String>,
    /// How many of the lines have been taken.
    taken: usize,
    /// What was asserted in each frame and is not retracted.
    facts: Ghost<Seq<Seq<Fact>>>,
}

impl Error {
    /// What went wrong, in words.
    pub open spec fn message(self) -> Seq<char> {
        match self {
            Error::UnexpectedReply => "unexpected reply to check-sat"@,
            Error::UnbalancedPop => "a frame was popped that was never pushed"@,
            Error::OutOfTurn => "an answer was handed over that was not waited for"@,
            Error::DifferentSystems => "asked to merge two inconsistent base/step check results"@,
            Error::UnknownCandidate => "failed to retrieve definition for candidate"@,
            Error::AlreadyFalsified => "trying to register a candidate as falsified twice"@,
            Error::TooDeep => "the system cannot be unrolled further"@,
        }
    }

    /// What went wrong, in words.
    pub fn describe(self) -> (r: &'static str)
        ensures
            r@ == self.message(),
    {
        match self {
            Error::UnexpectedReply => "unexpected reply to check-sat",
            Error::UnbalancedPop => "a frame was popped that was never pushed",
            Error::OutOfTurn => "an answer was handed over that was not waited for",
            Error::DifferentSystems => "asked to merge two inconsistent base/step check results",
            Error::UnknownCandidate => "failed to retrieve definition for candidate",
            Error::AlreadyFalsified => "trying to register a candidate as falsified twice",
            Error::TooDeep => "the system cannot be unrolled further",
        }
    }
}

impl SatResult {
    /// The answer that stands for what a solver front end hands over:
    /// whether the query is satisfiable, if the solver knows.
    pub fn of(answer: Option<bool>) -> (r: SatResult)
        ensures
            r == match answer {
                Some(true) => SatResult::Sat,
                Some(false) => SatResult::Unsat,
                None => SatResult::Unknown,
            },
    {
        match answer {
            Some(true) => SatResult::Sat,
            Some(false) => SatResult::Unsat,
            None => SatResult::Unknown,
        }
    }

    /// The text of the answer.
    pub open spec fn text(self) -> Seq<char> {
        match self {
            SatResult::Sat => "sat"@,
            SatResult::Unsat => "unsat"@,
            SatResult::Unknown => "unknown"@,
        }
    }

    /// Reads the solver's reply to `(check-sat)`. Any other token than the
    /// three answers is an error.
    pub fn parse(reply: &str) -> (r: Result<SatResult, Error>)
        ensures
            match r {
                Ok(a) => reply@ == a.text(),
                Err(e) => {
                    &&& e == Error::UnexpectedReply
                    &&& reply@ != "sat"@
                    &&& reply@ != "unsat"@
                    &&& reply@ != "unknown"@
                },
            },
    {
        if crate::sys::same_text(reply, "sat") {
            Ok(SatResult::Sat)
        } else if crate::sys::same_text(reply, "unsat") {
            Ok(SatResult::Unsat)
        } else if crate::sys::same_text(reply, "unknown") {
            Ok(SatResult::Unknown)
        } else {
            Err(Error::UnexpectedReply)
        }
    }
}

impl Driver {
    /// The frames: the state indices declared in each, the bottom frame
    /// first.
    pub closed spec fn frames(&self) -> Seq<Seq<usize>> {
        Seq::new(self.frames@.len(), |i: int| self.frames@[i]@)
    }

    /// Every line written so far, in order.
    pub closed spec fn script(&self) -> Seq<Seq<char>> {
        texts_of(self.lines@)
    }

    /// How many lines have been taken.
    pub closed spec fn taken(&self) -> nat {
        self.taken as nat
    }

    /// What the solver holds true: the terms that were asserted and their
    /// negations, frame by frame, the bottom frame first. What was asserted
    /// in a frame goes with the frame when it is closed.
    pub closed spec fn asserted(&self) -> Seq<Seq<Fact>> {
        self.facts@
    }

    /// The invariant of a driver: there is always the bottom frame.
    pub open spec fn wf(&self) -> bool {
        &&& self.frames().len() >= 1
        &&& self.taken() <= self.script().len()
        &&& self.asserted().len() == self.frames().len()
    }

    /// The number of frames that are open.
    pub open spec fn depth(&self) -> nat {
        (self.frames().len() - 1) as nat
    }

    /// True when the variables are declared for the state index `s`.
    pub open spec fn declared(&self, s: nat) -> bool {
        in_frames(self.frames(), s)
    }

    /// Opens a session: no frame is open, nothing is declared, and the
    /// script holds the opening line.
    pub fn new() -> (r: Driver)
        ensures
            r.wf(),
            r.script() == seq![opening_line()],
            r.frames() == seq![Seq::<usize>::empty()],
            r.asserted() == seq![Seq::<Fact>::empty()],
            r.taken() == 0,
    {
        let mut frames: Vec<Vec<usize>> = Vec::new();
        frames.push(Vec::new());
        let mut lines: Vec<String> = Vec::new();
        lines.push(String::from_str("(set-option :produce-models true)"));
        let ghost none = Seq::<Seq<Fact>>::empty().push(Seq::<Fact>::empty());
        let r = Driver { frames, lines, taken: 0, facts: Ghost(none) };
        assert(r.asserted() =~= seq![Seq::<Fact>::empty()]);
        assert(r.script() =~= seq![opening_line()]);
        assert(r.frames() =~= seq![Seq::<usize>::empty()]);
        r
    }

    /// Writes one line.
    fn emit(&mut self, line: String)
        requires
            old(self).wf(),
        ensures
            final(self).wf(),
            final(self).script() == old(self).script().push(line@),
            final(self).frames() == old(self).frames(),
            final(self).asserted() == old(self).asserted(),
            final(self).taken() == old(self).taken(),
    {
        self.lines.push(line);
        assert(self.script() =~= old(self).script().push(line@));
        assert(self.frames() =~= old(self).frames());
    }

    /// The number of frames that are open.
    pub fn get_depth(&self) -> (r: usize)
        requires
            self.wf(),
        ensures
            r == self.depth(),
    {
        self.frames.len() - 1
    }

    /// Tells whether the variables are declared for the state index `s`.
    pub fn is_declared(&self, s: usize) -> (r: bool)
        ensures
            r == self.declared(s as nat),
    {
        let mut f: usize = 0;
        while f < self.frames.len()
            invariant
                f <= self.frames@.len(),
                forall|g: int, j: int|
                    0 <= g < f && 0 <= j < self.frames()[g].len() ==> (
                    #[trigger] self.frames()[g][j]) != s,
            decreases self.frames@.len() - f,
        {
            let frame: &Vec<usize> = &self.frames[f];
            assert(frame@ == self.frames()[f as int]);
            let mut j: usize = 0;
            while j < frame.len()
                invariant
                    j <= frame@.len(),
                    f < self.frames@.len(),
                    frame@ == self.frames()[f as int],
                    forall|k: int| 0 <= k < j ==> frame@[k] != s,
                decreases frame@.len() - j,
            {
                if frame[j] == s {
                    assert(self.frames()[f as int][j as int] == s);
                    return true;
                }
                j = j + 1;
            }
            f = f + 1;
        }
        false
    }

    /// Declares every variable for the state index `s`, in the innermost
    /// frame, unless they are declared for it already: then nothing is
    /// written.
    pub fn declare_vars(&mut self, decls: &Vec<Var>, s: usize)
        requires
            old(self).wf(),
        ensures
            final(self).wf(),
            final(self).taken() == old(self).taken(),
            final(self).depth() == old(self).depth(),
            final(self).asserted() == old(self).asserted(),
            old(self).declared(s as nat) ==> {
                &&& final(self).script() == old(self).script()
                &&& final(self).frames() == old(self).frames()
            },
            !old(self).declared(s as nat) ==> {
                &&& final(self).script() == old(self).script() + declare_lines(decls@, s as nat)
                &&& final(self).frames() == old(self).frames().drop_last().push(
                    old(self).frames().last().push(s),
                )
            },
            forall|t: nat|
                final(self).declared(t) <==> (old(self).declared(t) || t == s),
    {
        if self.is_declared(s) {
            return ;
        }
        let mut i: usize = 0;
        while i < decls.len()
            invariant
                i <= decls.len(),
                self.wf(),
                self.taken() == old(self).taken(),
                self.frames() == old(self).frames(),
                self.asserted() == old(self).asserted(),
                self.script() == old(self).script() + declare_lines(decls@, s as nat).subrange(
                    0,
                    i as int,
                ),
            decreases decls.len() - i,
        {
            let mut line: String = String::from_str("(declare-const ");
            write_symbol(&decls[i].id, s, &mut line);
            line.append(" ");
            line.append(decls[i].sort.smt_str());
            line.append(")");
            assert(line@ =~= declare_line(decls[i as int], s as nat));
            self.emit(line);
            assert(self.script() =~= old(self).script() + declare_lines(decls@, s as nat).subrange(
                0,
                i + 1,
            ));
            i = i + 1;
        }
        assert(declare_lines(decls@, s as nat).subrange(0, decls.len() as int) =~= declare_lines(
            decls@,
            s as nat,
        ));
        let ghost before = self.frames();
        let mut top: Vec<usize> = self.frames.pop().unwrap();
        top.push(s);
        self.frames.push(top);
        proof {
            let after = self.frames();
            assert(after =~= before.drop_last().push(before.last().push(s)));
            assert(self.script() =~= old(self).script() + declare_lines(decls@, s as nat));
            let last = (before.len() - 1) as int;
            assert forall|t: nat| self.declared(t) <==> (old(self).declared(t) || t == s) by {
                if old(self).declared(t) {
                    let (f, j) = choose|f: int, j: int|
                        0 <= f < before.len() && 0 <= j < before[f].len() && (
                        #[trigger] before[f][j]) == t;
                    assert(after[f][j] == t);
                }
                if t == s {
                    assert(after[last][before[last].len() as int] == s);
                }
                if self.declared(t) {
                    let (f, j) = choose|f: int, j: int|
                        0 <= f < after.len() && 0 <= j < after[f].len() && (
                        #[trigger] after[f][j]) == t;
                    if f == last && j == before[last].len() {
                    } else {
                        assert(before[f][j] == t);
                    }
                }
            }
        }
    }

    /// Asserts `t` with its variables pinned to the state `s`, and those
    /// under `pre` to the state before.
    pub fn assert_term(&mut self, t: &Term, s: usize)
        requires
            old(self).wf(),
            t.well_sorted(),
            s >= 1 || !t.has_pre(),
            old(self).declared(s as nat),
            t.has_pre() ==> old(self).declared((s - 1) as nat),
        ensures
            final(self).wf(),
            final(self).script() == old(self).script().push(assert_line(*t, s as nat)),
            final(self).frames() == old(self).frames(),
            final(self).taken() == old(self).taken(),
            final(self).asserted() == old(self).asserted().drop_last().push(
                old(self).asserted().last().push(Fact::Holds(*t, s as nat)),
            ),
    {
        let mut line: String = String::from_str("(assert ");
        t.write(s, &mut line);
        line.append(")");
        assert(line@ =~= assert_line(*t, s as nat));
        self.emit(line);
        self.facts = Ghost(
            self.facts@.drop_last().push(self.facts@.last().push(Fact::Holds(*t, s as nat))),
        );
    }

    /// Asserts the negation of `t` with its variables pinned to the state
    /// `s`.
    pub fn assert_not(&mut self, t: &Term, s: usize)
        requires
            old(self).wf(),
            t.well_sorted(),
            s >= 1 || !t.has_pre(),
            old(self).declared(s as nat),
            t.has_pre() ==> old(self).declared((s - 1) as nat),
        ensures
            final(self).wf(),
            final(self).script() == old(self).script().push(refute_line(*t, s as nat)),
            final(self).frames() == old(self).frames(),
            final(self).taken() == old(self).taken(),
            final(self).asserted() == old(self).asserted().drop_last().push(
                old(self).asserted().last().push(Fact::Fails(*t, s as nat)),
            ),
    {
        let mut line: String = String::from_str("(assert (not ");
        t.write(s, &mut line);
        line.append("))");
        assert(line@ =~= refute_line(*t, s as nat));
        self.emit(line);
        self.facts = Ghost(
            self.facts@.drop_last().push(self.facts@.last().push(Fact::Fails(*t, s as nat))),
        );
    }

    /// Opens a frame.
    pub fn push(&mut self)
        requires
            old(self).wf(),
        ensures
            final(self).wf(),
            final(self).script() == old(self).script().push(push_line()),
            final(self).frames() == old(self).frames().push(Seq::<usize>::empty()),
            final(self).asserted() == old(self).asserted().push(Seq::<Fact>::empty()),
            final(self).taken() == old(self).taken(),
    {
        self.emit(String::from_str("(push 1)"));
        self.frames.push(Vec::new());
        self.facts = Ghost(self.facts@.push(Seq::<Fact>::empty()));
        assert(self.frames() =~= old(self).frames().push(Seq::<usize>::empty()));
        assert(self.script() =~= old(self).script().push(push_line()));
    }

    /// Closes the innermost frame: what was asserted and declared in it is
    /// gone. With no frame open this is an error, and nothing changes.
    pub fn pop(&mut self) -> (r: Result<(), Error>)
        requires
            old(self).wf(),
        ensures
            final(self).wf(),
            final(self).taken() == old(self).taken(),
            match r {
                Ok(_) => {
                    &&& old(self).depth() > 0
                    &&& final(self).script() == old(self).script().push(pop_line())
                    &&& final(self).frames() == old(self).frames().drop_last()
                    &&& final(self).asserted() == old(self).asserted().drop_last()
                },
                Err(e) => {
                    &&& e == Error::UnbalancedPop
                    &&& old(self).depth() == 0
                    &&& final(self).script() == old(self).script()
                    &&& final(self).frames() == old(self).frames()
                    &&& final(self).asserted() == old(self).asserted()
                },
            },
    {
        if self.frames.len() <= 1 {
            return Err(Error::UnbalancedPop);
        }
        self.emit(String::from_str("(pop 1)"));
        let _ = self.frames.pop();
        self.facts = Ghost(self.facts@.drop_last());
        assert(self.frames() =~= old(self).frames().drop_last());
        assert(self.script() =~= old(self).script().push(pop_line()));
        Ok(())
    }

    /// Asks whether what is asserted can hold.
    pub fn check_sat(&mut self)
        requires
            old(self).wf(),
        ensures
            final(self).wf(),
            final(self).script() == old(self).script().push(check_sat_line()),
            final(self).frames() == old(self).frames(),
            final(self).asserted() == old(self).asserted(),
            final(self).taken() == old(self).taken(),
    {
        self.emit(String::from_str("(check-sat)"));
    }

    /// Asks for the values of all variables in the states `0` to `k`.
    pub fn get_values(&mut self, decls: &Vec<Var>, k: usize)
        requires
            old(self).wf(),
            k < usize::MAX,
            forall|s: nat| s <= k ==> old(self).declared(s),
        ensures
            final(self).wf(),
            final(self).script() == old(self).script().push(get_value_line(decls@, k as nat)),
            final(self).frames() == old(self).frames(),
            final(self).asserted() == old(self).asserted(),
            final(self).taken() == old(self).taken(),
    {
        let mut line: String = String::from_str("(get-value (");
        let mut s: usize = 0;
        let mut first: bool = true;
        while s <= k
            invariant
                s <= k + 1,
                k < usize::MAX,
                first <==> symbols_upto(decls@, s as nat).len() == 0,
                line@ == "(get-value ("@ + joined(symbols_upto(decls@, s as nat)),
            decreases k + 1 - s,
        {
            let ghost done = symbols_upto(decls@, s as nat);
            let mut i: usize = 0;
            while i < decls.len()
                invariant
                    i <= decls.len(),
                    done == symbols_upto(decls@, s as nat),
                    first <==> (done + symbols_at(decls@, s as nat).subrange(0, i as int)).len()
                        == 0,
                    line@ == "(get-value ("@ + joined(
                        done + symbols_at(decls@, s as nat).subrange(0, i as int),
                    ),
                decreases decls.len() - i,
            {
                let ghost sofar = done + symbols_at(decls@, s as nat).subrange(0, i as int);
                let ghost next = done + symbols_at(decls@, s as nat).subrange(0, i + 1);
                proof {
                    assert(next.drop_last() =~= sofar);
                    assert(next.last() == symbol(decls[i as int].id@, s as nat));
                }
                if first {
                    first = false;
                    proof {
                        assert(sofar =~= Seq::<Seq<char>>::empty());
                        assert(joined(sofar) =~= Seq::<char>::empty());
                        assert(next.len() == 1);
                    }
                    write_symbol(&decls[i].id, s, &mut line);
                    assert(line@ =~= "(get-value ("@ + joined(next));
                } else {
                    line.append(" ");
                    write_symbol(&decls[i].id, s, &mut line);
                    assert(line@ =~= "(get-value ("@ + joined(next));
                }
                i = i + 1;
            }
            proof {
                assert(symbols_at(decls@, s as nat).subrange(0, decls.len() as int)
                    =~= symbols_at(decls@, s as nat));
                assert(symbols_upto(decls@, (s + 1) as nat) == done + symbols_at(
                    decls@,
                    s as nat,
                ));
            }
            s = s + 1;
        }
        line.append("))");
        assert(line@ =~= get_value_line(decls@, k as nat));
        self.emit(line);
    }

    /// Ends the session.
    pub fn close(&mut self)
        requires
            old(self).wf(),
        ensures
            final(self).wf(),
            final(self).script() == old(self).script().push(exit_line()),
            final(self).frames() == old(self).frames(),
            final(self).asserted() == old(self).asserted(),
            final(self).taken() == old(self).taken(),
    {
        self.emit(String::from_str("(exit)"));
    }

    /// Hands out the lines that were written since the last call, in
    /// order. They are to be sent to the solver, and written to the log if
    /// one is kept.
    pub fn take_lines(&mut self) -> (r: Vec<String>)
        requires
            old(self).wf(),
        ensures
            final(self).wf(),
            final(self).script() == old(self).script(),
            final(self).frames() == old(self).frames(),
            final(self).asserted() == old(self).asserted(),
            final(self).taken() == old(self).script().len(),
            texts_of(r@) == old(self).script().subrange(
                old(self).taken() as int,
                old(self).script().len() as int,
            ),
    {
        let mut out: Vec<String> = Vec::new();
        let start: usize = self.taken;
        let mut i: usize = self.taken;
        while i < self.lines.len()
            invariant
                start <= i <= self.lines@.len(),
                out@.len() == i - start,
                forall|j: int| 0 <= j < out@.len() ==> (#[trigger] out@[j])@ == self.lines@[start + j]@,
            decreases self.lines@.len() - i,
        {
            out.push(self.lines[i].clone());
            i = i + 1;
        }
        self.taken = self.lines.len();
        assert(texts_of(out@) =~= old(self).script().subrange(
            start as int,
            old(self).script().len() as int,
        ));
        assert(self.frames() =~= old(self).frames());
        out
    }
}

} // verus!
