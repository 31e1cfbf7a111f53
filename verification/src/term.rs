//! Typed terms over state variables, and their text for the solver.
//!
//! A term speaks of one state, the current one, and through `pre` of the
//! state before it. Written out under a state index `s`, a variable `v`
//! becomes the symbol `v@s` and `pre v` becomes `v@(s-1)`.

use vstd::prelude::*;
use crate::cst::Cst;
use crate::numeral::{decimal_text, Numeral};
use crate::op::{Op, SortError};
use crate::sort::Sort;

verus! {

/// A state variable: its name and its sort.
#[derive(Debug)]
pub struct Var {
    pub id: String,
    pub sort: Sort,
}

/// A term of the state logic.
#[derive(Debug)]
pub enum Term {
    /// A literal.
    Cst(Cst),
    /// A variable, in the current state.
    Var(Var),
    /// A variable, in the previous state.
    Pre(Var),
    /// An operator applied to operands.
    App(Op, Vec<Term>),
    /// A choice between two terms of one sort, by a condition.
    Ite(Box<Term>, Box<Term>, Box<Term>),
}

/// The solver's symbol for the variable `id` in state `s`.
pub open spec fn symbol(id: Seq<char>, s: nat) -> Seq<char> {
    id + "@"@ + decimal_text(s)
}

/// The texts of operands, each after one space.
pub open spec fn spaced(texts: Seq<Seq<char>>) -> Seq<char>
    decreases texts.len(),
{
    if texts.len() == 0 {
        Seq::empty()
    } else {
        spaced(texts.drop_last()) + " "@ + texts.last()
    }
}

/// True when `decls` holds a variable of that name and sort.
pub open spec fn declares(decls: Seq<Var>, id: Seq<char>, sort: Sort) -> bool {
    exists|j: int| 0 <= j < decls.len() && (#[trigger] decls[j]).id@ == id && decls[j].sort == sort
}

impl Var {
    /// A variable of the given name and sort.
    pub fn new(id: &str, sort: Sort) -> (r: Var)
        ensures
            r.id@ == id@,
            r.sort == sort,
    {
        Var { id: String::from_str(id), sort }
    }

    /// A copy of the variable.
    pub fn duplicate(&self) -> (r: Var)
        ensures
            r.id@ == self.id@,
            r.sort == self.sort,
    {
        Var { id: self.id.clone(), sort: self.sort }
    }
}

impl Term {
    /// The sort of the term if the term is sort-correct, and `None` if it
    /// is not: an operator with the wrong number of operands or operands of
    /// the wrong sorts, a condition that is not Boolean, two branches of
    /// different sorts, or a malformed literal.
    pub open spec fn typing(&self) -> Option<Sort>
        decreases self, 0nat,
    {
        match self {
            Term::Cst(c) => if c.wf() {
                Some(c.sort())
            } else {
                None
            },
            Term::Var(v) => Some(v.sort),
            Term::Pre(v) => Some(v.sort),
            Term::App(op, args) => {
                if forall|i: int| 0 <= i < args.len() ==> (#[trigger] args[i]).typing() is Some {
                    match op.typing(Self::sorts_of(args@)) {
                        Ok(s) => Some(s),
                        Err(_) => None,
                    }
                } else {
                    None
                }
            },
            Term::Ite(c, t, e) => {
                if c.typing() == Some(Sort::Bool) && t.typing() is Some && t.typing()
                    == e.typing() {
                    t.typing()
                } else {
                    None
                }
            },
        }
    }

    /// The sorts of the operands of an application; an operand that is not
    /// sort-correct counts as Boolean.
    pub open spec fn sorts_of(args: Seq<Term>) -> Seq<Sort>
        decreases args, 1nat,
    {
        Seq::new(
            args.len(),
            |i: int|
                if 0 <= i < args.len() {
                    match args[i].typing() {
                        Some(s) => s,
                        None => Sort::Bool,
                    }
                } else {
                    Sort::Bool
                },
        )
    }

    /// True when every subterm is sort-correct.
    pub open spec fn well_sorted(&self) -> bool {
        self.typing() is Some
    }

    /// The sort of a sort-correct term.
    pub open spec fn sort(&self) -> Sort
        recommends
            self.well_sorted(),
    {
        self.typing().unwrap()
    }

    /// True when the term refers to the previous state.
    pub open spec fn has_pre(&self) -> bool
        decreases self,
    {
        match self {
            Term::Cst(_) => false,
            Term::Var(_) => false,
            Term::Pre(_) => true,
            Term::App(_, args) => exists|i: int|
                0 <= i < args.len() && (#[trigger] args[i]).has_pre(),
            Term::Ite(c, t, e) => c.has_pre() || t.has_pre() || e.has_pre(),
        }
    }

    /// True when every variable of the term is declared in `decls`, with
    /// the sort it has in the term.
    pub open spec fn closed_under(&self, decls: Seq<Var>) -> bool
        decreases self,
    {
        match self {
            Term::Cst(_) => true,
            Term::Var(v) => declares(decls, v.id@, v.sort),
            Term::Pre(v) => declares(decls, v.id@, v.sort),
            Term::App(_, args) => forall|i: int|
                0 <= i < args.len() ==> (#[trigger] args[i]).closed_under(decls),
            Term::Ite(c, t, e) => {
                c.closed_under(decls) && t.closed_under(decls) && e.closed_under(decls)
            },
        }
    }

    /// The SMT-LIB text of the term under the state index `s`.
    pub open spec fn smt(&self, s: nat) -> Seq<char>
        decreases self, 0nat,
    {
        match self {
            Term::Cst(c) => c.text(),
            Term::Var(v) => symbol(v.id@, s),
            Term::Pre(v) => symbol(v.id@, (s - 1) as nat),
            Term::App(op, args) => "("@ + op.smt_name() + spaced(Self::smts_of(args@, s)) + ")"@,
            Term::Ite(c, t, e) => "(ite "@ + c.smt(s) + " "@ + t.smt(s) + " "@ + e.smt(s) + ")"@,
        }
    }

    /// The texts of the operands of an application.
    pub open spec fn smts_of(args: Seq<Term>, s: nat) -> Seq<Seq<char>>
        decreases args, 1nat,
    {
        Seq::new(
            args.len(),
            |i: int|
                if 0 <= i < args.len() {
                    args[i].smt(s)
                } else {
                    Seq::empty()
                },
        )
    }

    /// What `sorts_of` holds, operand by operand.
    pub proof fn lemma_sorts_of(args: Seq<Term>)
        ensures
            Self::sorts_of(args).len() == args.len(),
            forall|i: int|
                0 <= i < args.len() && (#[trigger] args[i]).well_sorted() ==> Self::sorts_of(
                    args,
                )[i] == args[i].sort(),
    {
    }

    /// A literal.
    pub fn cst(c: Cst) -> (r: Term)
        ensures
            r == Term::Cst(c),
    {
        Term::Cst(c)
    }

    /// A variable, in the current state.
    pub fn var(id: &str, sort: Sort) -> (r: Term)
        ensures
            r matches Term::Var(v) && v.id@ == id@ && v.sort == sort,
    {
        Term::Var(Var::new(id, sort))
    }

    /// A variable, in the previous state.
    pub fn pre(id: &str, sort: Sort) -> (r: Term)
        ensures
            r matches Term::Pre(v) && v.id@ == id@ && v.sort == sort,
    {
        Term::Pre(Var::new(id, sort))
    }

    /// Applies an operator. The operands must be sort-correct; the
    /// application is built when the operator takes that many operands of
    /// those sorts, and refused with the reason otherwise.
    pub fn app(op: Op, args: Vec<Term>) -> (r: Result<Term, SortError>)
        requires
            forall|i: int| 0 <= i < args.len() ==> (#[trigger] args[i]).well_sorted(),
        ensures
            match r {
                Ok(t) => t == Term::App(op, args) && t.well_sorted() && op.typing(
                    Self::sorts_of(args@),
                ) == Ok::<Sort, SortError>(t.sort()),
                Err(e) => op.typing(Self::sorts_of(args@)) == Err::<Sort, SortError>(e),
            },
    {
        let mut sorts: Vec<Sort> = Vec::new();
        let mut i: usize = 0;
        while i < args.len()
            invariant
                i <= args.len(),
                forall|j: int| 0 <= j < args.len() ==> (#[trigger] args[j]).well_sorted(),
                sorts@ =~= Self::sorts_of(args@).subrange(0, i as int),
            decreases args.len() - i,
        {
            let s: Sort = args[i].get_sort();
            sorts.push(s);
            i = i + 1;
        }
        assert(sorts@ =~= Self::sorts_of(args@));
        match op.type_check(&sorts) {
            Ok(_) => Ok(Term::App(op, args)),
            Err(e) => Err(e),
        }
    }

    /// A choice between `thn` and `els` by `cnd`. The three must be
    /// sort-correct; the choice is built when the condition is Boolean and
    /// the branches have one sort, and refused otherwise.
    pub fn ite(cnd: Term, thn: Term, els: Term) -> (r: Result<Term, SortError>)
        requires
            cnd.well_sorted(),
            thn.well_sorted(),
            els.well_sorted(),
        ensures
            r is Ok <==> cnd.sort() == Sort::Bool && thn.sort() == els.sort(),
            r matches Ok(t) ==> t == Term::Ite(Box::new(cnd), Box::new(thn), Box::new(els))
                && t.well_sorted() && t.sort() == thn.sort(),
            r matches Err(e) ==> e == SortError::Operand,
    {
        if cnd.get_sort() == Sort::Bool && thn.get_sort() == els.get_sort() {
            Ok(Term::Ite(Box::new(cnd), Box::new(thn), Box::new(els)))
        } else {
            Err(SortError::Operand)
        }
    }

    /// The sort of a sort-correct term.
    pub fn get_sort(&self) -> (r: Sort)
        requires
            self.well_sorted(),
        ensures
            r == self.sort(),
        decreases self,
    {
        match self {
            Term::Cst(c) => c.get_sort(),
            Term::Var(v) => v.sort,
            Term::Pre(v) => v.sort,
            Term::App(op, args) => {
                proof {
                    Self::lemma_sorts_of(args@);
                }
                let first: Sort = args[0].get_sort();
                match op {
                    Op::And | Op::Or | Op::Not | Op::Implies | Op::Eq | Op::Lt | Op::Le | Op::Ge
                    | Op::Gt => Sort::Bool,
                    Op::Add | Op::Sub | Op::Mul => first,
                    Op::IDiv | Op::Mod => Sort::Int,
                    Op::Div => Sort::Rat,
                }
            },
            Term::Ite(_, t, _) => t.get_sort(),
        }
    }

    /// Checks the sorts of the whole term.
    pub fn check_sorts(&self) -> (r: Option<Sort>)
        ensures
            r == self.typing(),
        decreases self,
    {
        match self {
            Term::Cst(c) => {
                if cst_is_wf(c) {
                    Some(c.get_sort())
                } else {
                    None
                }
            },
            Term::Var(v) => Some(v.sort),
            Term::Pre(v) => Some(v.sort),
            Term::App(op, args) => {
                let mut sorts: Vec<Sort> = Vec::new();
                let mut i: usize = 0;
                while i < args.len()
                    invariant
                        i <= args.len(),
                        *self == Term::App(*op, *args),
                        forall|j: int| 0 <= j < i ==> (#[trigger] args[j]).well_sorted(),
                        sorts@.len() == i,
                        forall|j: int| 0 <= j < i ==> sorts@[j] == (#[trigger] args[j]).sort(),
                    decreases args.len() - i,
                {
                    match args[i].check_sorts() {
                        Some(s) => {
                            sorts.push(s);
                        },
                        None => {
                            assert(!args[i as int].well_sorted());
                            return None;
                        },
                    }
                    i = i + 1;
                }
                assert(sorts@ =~= Self::sorts_of(args@));
                match op.type_check(&sorts) {
                    Ok(s) => Some(s),
                    Err(_) => None,
                }
            },
            Term::Ite(c, t, e) => {
                let cs: Option<Sort> = c.check_sorts();
                let ts: Option<Sort> = t.check_sorts();
                let es: Option<Sort> = e.check_sorts();
                match (cs, ts, es) {
                    (Some(Sort::Bool), Some(a), Some(b)) => {
                        if a == b {
                            Some(a)
                        } else {
                            None
                        }
                    },
                    _ => None,
                }
            },
        }
    }

    /// Tells whether the term refers to the previous state.
    pub fn mentions_pre(&self) -> (r: bool)
        ensures
            r == self.has_pre(),
        decreases self,
    {
        match self {
            Term::Cst(_) => false,
            Term::Var(_) => false,
            Term::Pre(_) => true,
            Term::App(_, args) => {
                let mut i: usize = 0;
                while i < args.len()
                    invariant
                        i <= args.len(),
                        *self matches Term::App(_, a) && a == *args,
                        forall|j: int| 0 <= j < i ==> !(#[trigger] args[j]).has_pre(),
                    decreases args.len() - i,
                {
                    if args[i].mentions_pre() {
                        return true;
                    }
                    i = i + 1;
                }
                false
            },
            Term::Ite(c, t, e) => c.mentions_pre() || t.mentions_pre() || e.mentions_pre(),
        }
    }

    /// Tells whether every variable of the term is declared in `decls`
    /// with the sort it has in the term.
    pub fn is_closed_under(&self, decls: &Vec<Var>) -> (r: bool)
        ensures
            r == self.closed_under(decls@),
        decreases self,
    {
        match self {
            Term::Cst(_) => true,
            Term::Var(v) => is_declared(decls, v),
            Term::Pre(v) => is_declared(decls, v),
            Term::App(_, args) => {
                let mut i: usize = 0;
                while i < args.len()
                    invariant
                        i <= args.len(),
                        *self matches Term::App(_, a) && a == *args,
                        forall|j: int| 0 <= j < i ==> (#[trigger] args[j]).closed_under(decls@),
                    decreases args.len() - i,
                {
                    if !args[i].is_closed_under(decls) {
                        return false;
                    }
                    i = i + 1;
                }
                true
            },
            Term::Ite(c, t, e) => {
                c.is_closed_under(decls) && t.is_closed_under(decls) && e.is_closed_under(decls)
            },
        }
    }

    /// The SMT-LIB text of the term under the state index `s`.
    pub fn to_smt(&self, s: usize) -> (r: String)
        requires
            self.well_sorted(),
            s >= 1 || !self.has_pre(),
        ensures
            r@ == self.smt(s as nat),
    {
        let mut out: String = String::new();
        self.write(s, &mut out);
        assert(out@ =~= self.smt(s as nat));
        out
    }

    /// Appends the SMT-LIB text of the term under the state index `s` to
    /// `out`. A term that refers to the previous state has no text under
    /// index 0.
    pub fn write(&self, s: usize, out: &mut String)
        requires
            self.well_sorted(),
            s >= 1 || !self.has_pre(),
        ensures
            final(out)@ == old(out)@ + self.smt(s as nat),
        decreases self,
    {
        match self {
            Term::Cst(c) => {
                c.write(out);
            },
            Term::Var(v) => {
                write_symbol(&v.id, s, out);
            },
            Term::Pre(v) => {
                write_symbol(&v.id, s - 1, out);
            },
            Term::App(op, args) => {
                out.append("(");
                out.append(op.smt_str());
                let ghost texts = Self::smts_of(args@, s as nat);
                proof {
                    assert(texts.subrange(0, 0) =~= Seq::<Seq<char>>::empty());
                }
                let mut i: usize = 0;
                while i < args.len()
                    invariant
                        i <= args.len(),
                        *self matches Term::App(o, a) && a == *args && o == *op,
                        s >= 1 || !self.has_pre(),
                        forall|j: int| 0 <= j < args.len() ==> (#[trigger] args[j]).well_sorted(),
                        texts == Self::smts_of(args@, s as nat),
                        out@ == old(out)@ + "("@ + op.smt_name() + spaced(
                            texts.subrange(0, i as int),
                        ),
                    decreases args.len() - i,
                {
                    out.append(" ");
                    assert(args[i as int].has_pre() ==> self.has_pre());
                    args[i].write(s, out);
                    proof {
                        let head = texts.subrange(0, i + 1);
                        assert(head.drop_last() =~= texts.subrange(0, i as int));
                        assert(head.last() == args[i as int].smt(s as nat));
                        assert(out@ =~= old(out)@ + "("@ + op.smt_name() + spaced(head));
                    }
                    i = i + 1;
                }
                assert(texts.subrange(0, args.len() as int) =~= texts);
                out.append(")");
                assert(out@ =~= old(out)@ + ("("@ + op.smt_name() + spaced(texts) + ")"@));
            },
            Term::Ite(c, t, e) => {
                out.append("(ite ");
                c.write(s, out);
                out.append(" ");
                t.write(s, out);
                out.append(" ");
                e.write(s, out);
                out.append(")");
                assert(out@ =~= old(out)@ + ("(ite "@ + c.smt(s as nat) + " "@ + t.smt(s as nat)
                    + " "@ + e.smt(s as nat) + ")"@));
            },
        }
    }
}

/// Tells whether a literal is well formed.
pub fn cst_is_wf(c: &Cst) -> (r: bool)
    ensures
        r == c.wf(),
{
    match c {
        Cst::B(_) => true,
        Cst::I { neg, mag } => mag.is_wf() && !(*neg && mag.is_zero()),
        Cst::R { neg, num, den } => {
            num.is_wf() && den.is_wf() && !den.is_zero() && !(*neg && num.is_zero())
        },
    }
}

/// Tells whether `decls` holds a variable of the name and sort of `v`.
pub fn is_declared(decls: &Vec<Var>, v: &Var) -> (r: bool)
    ensures
        r == declares(decls@, v.id@, v.sort),
{
    let mut i: usize = 0;
    while i < decls.len()
        invariant
            i <= decls.len(),
            forall|j: int|
                0 <= j < i ==> !((#[trigger] decls[j]).id@ == v.id@ && decls[j].sort == v.sort),
        decreases decls.len() - i,
    {
        if decls[i].id == v.id && decls[i].sort == v.sort {
            return true;
        }
        i = i + 1;
    }
    false
}

/// Appends the symbol of the variable `id` in state `s` to `out`.
pub fn write_symbol(id: &String, s: usize, out: &mut String)
    ensures
        final(out)@ == old(out)@ + symbol(id@, s as nat),
{
    out.append(id.as_str());
    out.append("@");
    let index: Numeral = Numeral::from_u64(s as u64);
    index.write(out);
    proof {
        index.lemma_text_of_value();
        assert(out@ =~= old(out)@ + (id@ + "@"@ + decimal_text(s as nat)));
    }
}

} // verus!
