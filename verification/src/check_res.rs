//! The result of a check: which candidates are still considered safe, and
//! which have a counterexample.

use vstd::prelude::*;
use crate::cex::{Cex, CexView};
use crate::solver::Error;
use crate::sys::{same_text, Sys};
use crate::term::Var;

verus! {

/// Where a candidate stands in a result.
#[derive(Debug)]
pub enum Status {
    /// Not falsified by this check. A search for a falsification may go
    /// on.
    Open,
    /// Not falsified, and proved: it holds in the initial states and is
    /// preserved by the transition relation. No search is needed.
    Discharged,
    /// Falsified, with the counterexample.
    Falsified(Cex),
}

/// Where a candidate stands, as plain data.
pub enum Mark {
    Open,
    Discharged,
    Falsified(CexView),
}

/// The result of a check over a fixed list of candidates.
///
/// Every candidate is either okay or falsified, never both: `okay` and the
/// keys of `cexs` partition the candidates.
#[derive(Debug)]
pub struct CheckRes {
    names: Vec<String>,
    slots: Vec<Status>,
}

/// The result of a base check. It wraps a [`CheckRes`], and is a type of
/// its own so that it cannot be taken for the result of a step check.
#[derive(Debug)]
pub struct BaseRes {
    res: CheckRes,
}

/// The result of a step check. It wraps a [`CheckRes`], and is a type of
/// its own so that it cannot be taken for the result of a base check.
#[derive(Debug)]
pub struct StepRes {
    res: CheckRes,
}

/// True when no two of the names are the same.
pub open spec fn distinct(names: Seq<Seq<char>>) -> bool {
    forall|i: int, j: int| 0 <= i < j < names.len() ==> #[trigger] names[i] != #[trigger] names[j]
}

/// A choice among the candidates of a result, by where they stand.
#[derive(Clone, Copy, Debug, PartialEq, Eq, Structural)]
pub enum Which {
    /// Those not falsified.
    Okay,
    /// Those not falsified for which a search may go on.
    Pending,
    /// Those not falsified that are proved.
    Discharged,
    /// Those with a counterexample.
    Falsified,
}

impl Which {
    /// True when the choice takes a candidate with that mark.
    pub open spec fn admits(self, m: Mark) -> bool {
        match self {
            Which::Okay => !(m is Falsified),
            Which::Pending => m is Open,
            Which::Discharged => m is Discharged,
            Which::Falsified => m is Falsified,
        }
    }
}

/// The names that a choice takes, in order.
pub open spec fn selected(names: Seq<Seq<char>>, marks: Seq<Mark>, which: Which) -> Seq<Seq<char>>
    recommends
        names.len() == marks.len(),
    decreases names.len(),
{
    if names.len() == 0 {
        Seq::empty()
    } else {
        let rest = selected(names.drop_last(), marks.drop_last(), which);
        if which.admits(marks.last()) {
            rest.push(names.last())
        } else {
            rest
        }
    }
}

/// The mark of a candidate of a seed for bounded model checking, from its
/// marks in the base and in the step result.
pub open spec fn seed_mark(base: Mark, step: Mark) -> Mark {
    match base {
        Mark::Falsified(c) => Mark::Falsified(c),
        _ => match step {
            Mark::Falsified(_) => Mark::Open,
            _ => Mark::Discharged,
        },
    }
}

impl Status {
    /// Every value of the counterexample, if there is one, is a
    /// well-formed constant of the sort that `decls` gives its variable.
    pub open spec fn sorted(&self, decls: Seq<Var>) -> bool {
        self matches Status::Falsified(c) ==> c.sorted(decls)
    }

    /// The status as plain data.
    pub open spec fn mark(&self) -> Mark {
        match self {
            Status::Open => Mark::Open,
            Status::Discharged => Mark::Discharged,
            Status::Falsified(c) => Mark::Falsified(c@),
        }
    }
}

impl CheckRes {
    /// The names of the candidates, in the order of the system.
    pub closed spec fn names(&self) -> Seq<Seq<char>> {
        Seq::new(self.names@.len(), |i: int| self.names@[i]@)
    }

    /// Where each candidate stands, in the same order.
    pub closed spec fn marks(&self) -> Seq<Mark> {
        Seq::new(self.slots@.len(), |i: int| self.slots@[i].mark())
    }

    /// Every counterexample held is numbered from 0 on.
    pub closed spec fn cexs_wf(&self) -> bool {
        forall|i: int|
            0 <= i < self.slots@.len() ==> (#[trigger] self.slots@[i] matches Status::Falsified(c)
                ==> c.wf())
    }

    /// Every value in every counterexample held is a well-formed constant
    /// of the sort that `decls` gives its variable.
    pub closed spec fn sorted(&self, decls: Seq<Var>) -> bool {
        forall|i: int| 0 <= i < self.slots@.len() ==> (#[trigger] self.slots@[i]).sorted(decls)
    }

    /// The invariant of a result: one mark for each candidate, and no name
    /// twice.
    pub open spec fn wf(&self) -> bool {
        &&& self.names().len() == self.marks().len()
        &&& distinct(self.names())
        &&& self.cexs_wf()
    }

    /// The candidates that the result speaks of.
    pub open spec fn all(&self) -> Set<Seq<char>> {
        Set::new(|n: Seq<char>| exists|i: int| 0 <= i < self.names().len() && #[trigger] self.names()[i] == n)
    }

    /// The candidates still considered safe.
    pub open spec fn okay(&self) -> Set<Seq<char>> {
        Set::new(
            |n: Seq<char>|
                exists|i: int|
                    0 <= i < self.names().len() && #[trigger] self.names()[i] == n && !(
                    self.marks()[i] is Falsified),
        )
    }

    /// The candidates still considered safe for which a search may go on.
    pub open spec fn pending(&self) -> Set<Seq<char>> {
        Set::new(
            |n: Seq<char>|
                exists|i: int|
                    0 <= i < self.names().len() && #[trigger] self.names()[i] == n
                        && self.marks()[i] is Open,
        )
    }

    /// The candidates that have a counterexample.
    pub open spec fn falsified(&self) -> Set<Seq<char>> {
        Set::new(
            |n: Seq<char>|
                exists|i: int|
                    0 <= i < self.names().len() && #[trigger] self.names()[i] == n
                        && self.marks()[i] is Falsified,
        )
    }

    /// The position of a candidate.
    pub open spec fn index_of(&self, n: Seq<char>) -> int {
        choose|i: int| 0 <= i < self.names().len() && #[trigger] self.names()[i] == n
    }

    /// The counterexamples, by candidate.
    pub open spec fn cexs(&self) -> Map<Seq<char>, CexView> {
        Map::new(
            |n: Seq<char>| self.falsified().contains(n),
            |n: Seq<char>| self.marks()[self.index_of(n)]->Falsified_0,
        )
    }

    /// True when this result comes after `before` in one check: the
    /// candidates are the same, `okay` and `pending` have only lost
    /// candidates, and every counterexample that was held is still held,
    /// unchanged. A candidate that was falsified never returns to `okay`.
    pub open spec fn shrinks_from(&self, before: &CheckRes) -> bool {
        &&& self.names() == before.names()
        &&& self.okay().subset_of(before.okay())
        &&& self.pending().subset_of(before.pending())
        &&& before.cexs().submap_of(self.cexs())
    }

    /// `okay` and the keys of `cexs` partition the candidates.
    pub proof fn lemma_partition(&self)
        requires
            self.wf(),
        ensures
            self.okay().union(self.cexs().dom()) == self.all(),
            self.okay().disjoint(self.cexs().dom()),
            self.cexs().dom() == self.falsified(),
            self.pending().subset_of(self.okay()),
    {
        assert(self.cexs().dom() =~= self.falsified());
        assert(self.okay().union(self.falsified()) =~= self.all());
        assert forall|n: Seq<char>| !(self.okay().contains(n) && self.falsified().contains(n)) by {
            if self.okay().contains(n) && self.falsified().contains(n) {
                let i = choose|i: int|
                    0 <= i < self.names().len() && #[trigger] self.names()[i] == n && !(
                    self.marks()[i] is Falsified);
                let j = choose|j: int|
                    0 <= j < self.names().len() && #[trigger] self.names()[j] == n
                        && self.marks()[j] is Falsified;
                if i < j {
                    assert(self.names()[i] != self.names()[j]);
                } else if j < i {
                    assert(self.names()[j] != self.names()[i]);
                }
            }
        }
    }

    /// In a well-formed result, a name stands at one position only.
    pub proof fn lemma_index(&self, i: int)
        requires
            self.wf(),
            0 <= i < self.names().len(),
        ensures
            self.index_of(self.names()[i]) == i,
            self.all().contains(self.names()[i]),
            self.okay().contains(self.names()[i]) <==> !(self.marks()[i] is Falsified),
            self.pending().contains(self.names()[i]) <==> self.marks()[i] is Open,
            self.falsified().contains(self.names()[i]) <==> self.marks()[i] is Falsified,
            self.marks()[i] matches Mark::Falsified(c) ==> self.cexs()[self.names()[i]] == c,
    {
        let n = self.names()[i];
        let k = self.index_of(n);
        if k < i {
            assert(self.names()[k] != self.names()[i]);
        } else if i < k {
            assert(self.names()[i] != self.names()[k]);
        }
        assert forall|j: int| 0 <= j < self.names().len() && #[trigger] self.names()[j] == n implies j
            == i by {
            if j < i {
                assert(self.names()[j] != self.names()[i]);
            } else if i < j {
                assert(self.names()[i] != self.names()[j]);
            }
        }
    }

    /// The result in which every candidate of the system is okay, and
    /// open.
    pub fn new(sys: &Sys) -> (r: CheckRes)
        requires
            sys.wf(),
        ensures
            r.wf(),
            r.names() == sys.names(),
            r.marks() == Seq::new(sys.names().len(), |i: int| Mark::Open),
            r.okay() == r.all(),
            r.pending() == r.all(),
            r.cexs() == Map::<Seq<char>, CexView>::empty(),
            forall|d: Seq<Var>| r.sorted(d),
    {
        let cands = sys.get_candidates();
        let mut names: Vec<String> = Vec::new();
        let mut slots: Vec<Status> = Vec::new();
        let mut i: usize = 0;
        while i < cands.len()
            invariant
                i <= cands.len(),
                cands@ == sys.cands(),
                names@.len() == i,
                slots@.len() == i,
                forall|j: int| 0 <= j < i ==> (#[trigger] names@[j])@ == cands@[j].name@,
                forall|j: int| 0 <= j < i ==> #[trigger] slots@[j] is Open,
            decreases cands.len() - i,
        {
            names.push(cands[i].name.clone());
            slots.push(Status::Open);
            i = i + 1;
        }
        let r = CheckRes { names, slots };
        proof {
            sys.lemma_names_distinct();
            assert(r.names() =~= sys.names());
            assert(r.marks() =~= Seq::new(sys.names().len(), |i: int| Mark::Open));
            assert(r.okay() =~= r.all());
            assert(r.pending() =~= r.all());
            assert(r.cexs() =~= Map::<Seq<char>, CexView>::empty());
        }
        r
    }

    /// The number of candidates.
    pub fn len(&self) -> (r: usize)
        requires
            self.wf(),
        ensures
            r == self.names().len(),
    {
        self.names.len()
    }

    /// The name of the candidate at position `i`.
    pub fn name_at(&self, i: usize) -> (r: &String)
        requires
            i < self.names().len(),
        ensures
            r@ == self.names()[i as int],
    {
        &self.names[i]
    }

    /// The status of the candidate at position `i`.
    pub fn status_at(&self, i: usize) -> (r: &Status)
        requires
            self.wf(),
            i < self.names().len(),
        ensures
            r.mark() == self.marks()[i as int],
            r matches Status::Falsified(c) ==> c.wf(),
            forall|d: Seq<Var>| self.sorted(d) ==> (r matches Status::Falsified(c) ==> c.sorted(d)),
    {
        &self.slots[i]
    }

    /// The position of the candidate of that name, if there is one.
    pub fn position(&self, name: &str) -> (r: Option<usize>)
        requires
            self.wf(),
        ensures
            match r {
                Some(i) => i < self.names().len() && self.names()[i as int] == name@,
                None => !self.all().contains(name@),
            },
    {
        let mut i: usize = 0;
        while i < self.names.len()
            invariant
                i <= self.names@.len(),
                forall|j: int| 0 <= j < i ==> #[trigger] self.names()[j] != name@,
            decreases self.names@.len() - i,
        {
            if same_text(self.names[i].as_str(), name) {
                return Some(i);
            }
            i = i + 1;
        }
        None
    }

    /// Tells whether the candidate of that name is still considered safe.
    pub fn is_okay(&self, name: &str) -> (r: bool)
        requires
            self.wf(),
        ensures
            r == self.okay().contains(name@),
    {
        match self.position(name) {
            Some(i) => {
                proof {
                    self.lemma_index(i as int);
                }
                match &self.slots[i] {
                    Status::Falsified(_) => false,
                    _ => true,
                }
            },
            None => false,
        }
    }

    /// The counterexample of the candidate of that name, if it has one.
    pub fn cex(&self, name: &str) -> (r: Option<&Cex>)
        requires
            self.wf(),
        ensures
            r is Some <==> self.cexs().dom().contains(name@),
            r matches Some(c) ==> c@ == self.cexs()[name@] && c.wf(),
            forall|d: Seq<Var>| self.sorted(d) ==> (r matches Some(c) ==> c.sorted(d)),
    {
        match self.position(name) {
            Some(i) => {
                proof {
                    self.lemma_index(i as int);
                }
                match &self.slots[i] {
                    Status::Falsified(c) => Some(c),
                    _ => None,
                }
            },
            None => None,
        }
    }

    /// True when no candidate is okay: all have been falsified.
    pub fn all_falsified(&self) -> (r: bool)
        requires
            self.wf(),
        ensures
            r == (self.okay() == Set::<Seq<char>>::empty()),
    {
        let mut i: usize = 0;
        while i < self.slots.len()
            invariant
                i <= self.slots@.len(),
                self.wf(),
                forall|j: int| 0 <= j < i ==> #[trigger] self.marks()[j] is Falsified,
            decreases self.slots@.len() - i,
        {
            match &self.slots[i] {
                Status::Falsified(_) => {},
                _ => {
                    proof {
                        self.lemma_index(i as int);
                    }
                    return false;
                },
            }
            i = i + 1;
        }
        assert(self.okay() =~= Set::<Seq<char>>::empty());
        true
    }

    /// True when some candidate has been falsified.
    pub fn has_falsifications(&self) -> (r: bool)
        requires
            self.wf(),
        ensures
            r == (self.cexs().dom() != Set::<Seq<char>>::empty()),
    {
        let mut i: usize = 0;
        while i < self.slots.len()
            invariant
                i <= self.slots@.len(),
                self.wf(),
                forall|j: int| 0 <= j < i ==> !(#[trigger] self.marks()[j] is Falsified),
            decreases self.slots@.len() - i,
        {
            match &self.slots[i] {
                Status::Falsified(_) => {
                    proof {
                        self.lemma_index(i as int);
                    }
                    return true;
                },
                _ => {},
            }
            i = i + 1;
        }
        assert(self.cexs().dom() =~= Set::<Seq<char>>::empty());
        false
    }

    /// True when no search is left to do: every candidate is falsified or
    /// discharged.
    pub fn nothing_pending(&self) -> (r: bool)
        requires
            self.wf(),
        ensures
            r == (self.pending() == Set::<Seq<char>>::empty()),
    {
        let mut i: usize = 0;
        while i < self.slots.len()
            invariant
                i <= self.slots@.len(),
                self.wf(),
                forall|j: int| 0 <= j < i ==> !(#[trigger] self.marks()[j] is Open),
            decreases self.slots@.len() - i,
        {
            match &self.slots[i] {
                Status::Open => {
                    proof {
                        self.lemma_index(i as int);
                    }
                    return false;
                },
                _ => {},
            }
            i = i + 1;
        }
        assert(self.pending() =~= Set::<Seq<char>>::empty());
        true
    }

    /// Records the counterexample of the candidate at position `i`, which
    /// must be okay.
    pub fn falsify_at(&mut self, i: usize, cex: Cex)
        requires
            old(self).wf(),
            i < old(self).names().len(),
            !(old(self).marks()[i as int] is Falsified),
            cex.wf(),
        ensures
            final(self).wf(),
            final(self).names() == old(self).names(),
            final(self).marks() == old(self).marks().update(i as int, Mark::Falsified(cex@)),
            final(self).okay() == old(self).okay().remove(old(self).names()[i as int]),
            final(self).pending() == old(self).pending().remove(old(self).names()[i as int]),
            final(self).cexs() == old(self).cexs().insert(old(self).names()[i as int], cex@),
            final(self).shrinks_from(old(self)),
            forall|d: Seq<Var>| old(self).sorted(d) && cex.sorted(d) ==> final(self).sorted(d),
    {
        self.slots.set(i, Status::Falsified(cex));
        proof {
            assert(self.names() =~= old(self).names());
            assert(self.marks() =~= old(self).marks().update(i as int, Mark::Falsified(cex@)));
            let n = self.names()[i as int];
            old(self).lemma_index(i as int);
            self.lemma_index(i as int);
            assert forall|m: Seq<char>| self.okay().contains(m) <==> old(self).okay().remove(
                n,
            ).contains(m) by {
                if self.okay().contains(m) {
                    let j = choose|j: int|
                        0 <= j < self.names().len() && #[trigger] self.names()[j] == m && !(
                        self.marks()[j] is Falsified);
                    assert(j != i);
                    assert(old(self).names()[j] == m);
                }
                if old(self).okay().remove(n).contains(m) {
                    let j = choose|j: int|
                        0 <= j < old(self).names().len() && #[trigger] old(self).names()[j] == m
                            && !(old(self).marks()[j] is Falsified);
                    assert(j != i);
                    assert(self.names()[j] == m);
                }
            }
            assert(self.okay() =~= old(self).okay().remove(n));
            assert forall|m: Seq<char>| self.pending().contains(m) <==> old(self).pending().remove(
                n,
            ).contains(m) by {
                if self.pending().contains(m) {
                    let j = choose|j: int|
                        0 <= j < self.names().len() && #[trigger] self.names()[j] == m
                            && self.marks()[j] is Open;
                    assert(j != i);
                    assert(old(self).names()[j] == m);
                }
                if old(self).pending().remove(n).contains(m) {
                    let j = choose|j: int|
                        0 <= j < old(self).names().len() && #[trigger] old(self).names()[j] == m
                            && old(self).marks()[j] is Open;
                    assert(j != i);
                    assert(self.names()[j] == m);
                }
            }
            assert(self.pending() =~= old(self).pending().remove(n));
            assert forall|m: Seq<char>| self.falsified().contains(m) <==> old(
                self,
            ).falsified().insert(n).contains(m) by {
                if self.falsified().contains(m) && m != n {
                    let j = choose|j: int|
                        0 <= j < self.names().len() && #[trigger] self.names()[j] == m
                            && self.marks()[j] is Falsified;
                    assert(j != i);
                    assert(old(self).names()[j] == m);
                }
                if old(self).falsified().contains(m) {
                    let j = choose|j: int|
                        0 <= j < old(self).names().len() && #[trigger] old(self).names()[j] == m
                            && old(self).marks()[j] is Falsified;
                    assert(j != i);
                    assert(self.names()[j] == m);
                }
            }
            assert forall|m: Seq<char>| self.cexs().dom().contains(m) implies #[trigger] self.cexs()[m]
                == old(self).cexs().insert(n, cex@)[m] by {
                if m != n {
                    let j = self.index_of(m);
                    assert(j != i);
                    assert(old(self).names()[j] == m);
                    old(self).lemma_index(j);
                    self.lemma_index(j);
                }
            }
            assert(self.cexs() =~= old(self).cexs().insert(n, cex@));
        }
    }

    /// Records that the candidate of that name is falsified, with its
    /// counterexample. A name that the result does not know, and a
    /// candidate that is falsified already, are errors, and nothing
    /// changes.
    pub fn register_falsification(&mut self, name: &str, cex: Cex) -> (r: Result<(), Error>)
        requires
            old(self).wf(),
            cex.wf(),
        ensures
            final(self).wf(),
            final(self).names() == old(self).names(),
            match r {
                Ok(_) => {
                    &&& old(self).okay().contains(name@)
                    &&& final(self).okay() == old(self).okay().remove(name@)
                    &&& final(self).pending() == old(self).pending().remove(name@)
                    &&& final(self).cexs() == old(self).cexs().insert(name@, cex@)
                },
                Err(e) => {
                    &&& final(self).marks() == old(self).marks()
                    &&& final(self).okay() == old(self).okay()
                    &&& final(self).cexs() == old(self).cexs()
                    &&& !old(self).okay().contains(name@)
                    &&& e == if old(self).all().contains(name@) {
                        Error::AlreadyFalsified
                    } else {
                        Error::UnknownCandidate
                    }
                },
            },
            forall|d: Seq<Var>| old(self).sorted(d) && cex.sorted(d) ==> final(self).sorted(d),
    {
        let at: Option<usize> = self.position(name);
        match at {
            Some(i) => {
                proof {
                    self.lemma_index(i as int);
                }
                let taken: bool = match &self.slots[i] {
                    Status::Falsified(_) => true,
                    _ => false,
                };
                if taken {
                    Err(Error::AlreadyFalsified)
                } else {
                    self.falsify_at(i, cex);
                    Ok(())
                }
            },
            None => {
                proof {
                    assert(!old(self).okay().contains(name@)) by {
                        if old(self).okay().contains(name@) {
                            let j = choose|j: int|
                                0 <= j < self.names().len() && #[trigger] self.names()[j] == name@
                                    && !(self.marks()[j] is Falsified);
                        }
                    }
                }
                Err(Error::UnknownCandidate)
            },
        }
    }

    /// The names of the candidates that `which` selects, in the order of
    /// the system.
    pub fn names_where(&self, which: Which) -> (r: Vec<String>)
        requires
            self.wf(),
        ensures
            crate::solver::texts_of(r@) == selected(self.names(), self.marks(), which),
    {
        let mut out: Vec<String> = Vec::new();
        let mut i: usize = 0;
        assert(self.names().subrange(0, 0) =~= Seq::<Seq<char>>::empty());
        while i < self.names.len()
            invariant
                i <= self.names@.len(),
                self.wf(),
                crate::solver::texts_of(out@) == selected(
                    self.names().subrange(0, i as int),
                    self.marks().subrange(0, i as int),
                    which,
                ),
            decreases self.names@.len() - i,
        {
            proof {
                let ns = self.names().subrange(0, i + 1);
                let ms = self.marks().subrange(0, i + 1);
                assert(ns.drop_last() =~= self.names().subrange(0, i as int));
                assert(ms.drop_last() =~= self.marks().subrange(0, i as int));
                assert(ns.last() == self.names()[i as int]);
                assert(ms.last() == self.marks()[i as int]);
            }
            let keep: bool = match (&self.slots[i], which) {
                (Status::Falsified(_), Which::Falsified) => true,
                (Status::Open, Which::Okay) => true,
                (Status::Discharged, Which::Okay) => true,
                (Status::Open, Which::Pending) => true,
                (Status::Discharged, Which::Discharged) => true,
                _ => false,
            };
            if keep {
                let ghost before = crate::solver::texts_of(out@);
                out.push(self.names[i].clone());
                assert(crate::solver::texts_of(out@) =~= before.push(self.names()[i as int]));
            }
            i = i + 1;
        }
        assert(self.names().subrange(0, self.names().len() as int) =~= self.names());
        assert(self.marks().subrange(0, self.marks().len() as int) =~= self.marks());
        out
    }

    /// A copy of the result.
    pub fn duplicate(&self) -> (r: CheckRes)
        requires
            self.wf(),
        ensures
            r.wf(),
            r.names() == self.names(),
            r.marks() == self.marks(),
            r.okay() == self.okay(),
            r.pending() == self.pending(),
            r.cexs() == self.cexs(),
            forall|d: Seq<Var>| self.sorted(d) ==> r.sorted(d),
    {
        let mut names: Vec<String> = Vec::new();
        let mut slots: Vec<Status> = Vec::new();
        let mut i: usize = 0;
        while i < self.names.len()
            invariant
                i <= self.names@.len(),
                self.wf(),
                names@.len() == i,
                slots@.len() == i,
                forall|j: int| 0 <= j < i ==> (#[trigger] names@[j])@ == self.names()[j],
                forall|j: int| 0 <= j < i ==> (#[trigger] slots@[j]).mark() == self.marks()[j],
                forall|j: int|
                    0 <= j < i ==> (#[trigger] slots@[j] matches Status::Falsified(c) ==> c.wf()),
                forall|j: int, d: Seq<Var>|
                    0 <= j < i && self.sorted(d) ==> #[trigger] slots@[j].sorted(d),
            decreases self.names@.len() - i,
        {
            names.push(self.names[i].clone());
            let slot: Status = match &self.slots[i] {
                Status::Open => Status::Open,
                Status::Discharged => Status::Discharged,
                Status::Falsified(c) => Status::Falsified(c.duplicate()),
            };
            slots.push(slot);
            i = i + 1;
        }
        let r = CheckRes { names, slots };
        proof {
            assert(r.names() =~= self.names());
            assert(r.marks() =~= self.marks());
            assert(r.okay() =~= self.okay());
            assert(r.pending() =~= self.pending());
            assert(r.falsified() =~= self.falsified());
            assert(r.cexs() =~= self.cexs());
        }
        r
    }

    /// Tells whether two results speak of the same candidates, in the same
    /// order.
    pub fn same_candidates(&self, other: &CheckRes) -> (r: bool)
        ensures
            r == (self.names() == other.names()),
    {
        if self.names.len() != other.names.len() {
            assert(self.names().len() != other.names().len());
            return false;
        }
        let mut i: usize = 0;
        while i < self.names.len()
            invariant
                i <= self.names@.len(),
                self.names@.len() == other.names@.len(),
                forall|j: int| 0 <= j < i ==> self.names()[j] == other.names()[j],
            decreases self.names@.len() - i,
        {
            if self.names[i] != other.names[i] {
                assert(self.names()[i as int] != other.names()[i as int]);
                return false;
            }
            i = i + 1;
        }
        assert(self.names() =~= other.names());
        true
    }
}

impl BaseRes {
    /// The result that is wrapped.
    pub closed spec fn inner(&self) -> CheckRes {
        self.res
    }

    /// Wraps the result of a base check.
    pub fn wrap(res: CheckRes) -> (r: BaseRes)
        ensures
            r.inner() == res,
    {
        BaseRes { res }
    }

    /// The result that is wrapped.
    pub fn as_inner(&self) -> (r: &CheckRes)
        ensures
            *r == self.inner(),
    {
        &self.res
    }

    /// Gives up the wrapper.
    pub fn into_inner(self) -> (r: CheckRes)
        ensures
            r == self.inner(),
    {
        self.res
    }

    /// The seed of a bounded model checking run, from the results of the
    /// base and the step check of one system.
    ///
    /// In the seed, `okay` and `cexs` are those of the base result: what
    /// was falsified in the initial states is reported as such. Of the
    /// candidates that are okay, those that the step check falsified are
    /// pending, so that a falsification is searched for, and the others are
    /// discharged. The merge fails only when the two results do not speak
    /// of the same candidates.
    pub fn merge_base_with_step(&self, step: &StepRes) -> (r: Result<CheckRes, Error>)
        requires
            self.inner().wf(),
            step.inner().wf(),
        ensures
            match r {
                Ok(seed) => {
                    &&& self.inner().names() == step.inner().names()
                    &&& seed.wf()
                    &&& seed.names() == self.inner().names()
                    &&& seed.marks() == Seq::new(
                        seed.names().len(),
                        |i: int| seed_mark(self.inner().marks()[i], step.inner().marks()[i]),
                    )
                    &&& seed.okay() == self.inner().okay()
                    &&& seed.cexs() == self.inner().cexs()
                    &&& seed.pending() == self.inner().okay().intersect(step.inner().falsified())
                    &&& forall|d: Seq<Var>| self.inner().sorted(d) ==> seed.sorted(d)
                },
                Err(e) => e == Error::DifferentSystems && self.inner().names()
                    != step.inner().names(),
            },
    {
        let base: &CheckRes = &self.res;
        let other: &CheckRes = &step.res;
        if !base.same_candidates(other) {
            return Err(Error::DifferentSystems);
        }
        let mut names: Vec<String> = Vec::new();
        let mut slots: Vec<Status> = Vec::new();
        let mut i: usize = 0;
        while i < base.names.len()
            invariant
                i <= base.names@.len(),
                base.wf(),
                other.wf(),
                base.names() == other.names(),
                names@.len() == i,
                slots@.len() == i,
                forall|j: int| 0 <= j < i ==> (#[trigger] names@[j])@ == base.names()[j],
                forall|j: int|
                    0 <= j < i ==> (#[trigger] slots@[j]).mark() == seed_mark(
                        base.marks()[j],
                        other.marks()[j],
                    ),
                forall|j: int|
                    0 <= j < i ==> (#[trigger] slots@[j] matches Status::Falsified(c) ==> c.wf()),
                forall|j: int, d: Seq<Var>|
                    0 <= j < i && base.sorted(d) ==> #[trigger] slots@[j].sorted(d),
            decreases base.names@.len() - i,
        {
            names.push(base.names[i].clone());
            let slot: Status = match &base.slots[i] {
                Status::Falsified(c) => Status::Falsified(c.duplicate()),
                _ => match &other.slots[i] {
                    Status::Falsified(_) => Status::Open,
                    _ => Status::Discharged,
                },
            };
            slots.push(slot);
            i = i + 1;
        }
        let seed = CheckRes { names, slots };
        proof {
            assert(seed.names() =~= base.names());
            assert(seed.marks() =~= Seq::new(
                seed.names().len(),
                |i: int| seed_mark(base.marks()[i], other.marks()[i]),
            ));
            assert forall|n: Seq<char>| seed.okay().contains(n) <==> base.okay().contains(n) by {
                if seed.okay().contains(n) {
                    let j = choose|j: int|
                        0 <= j < seed.names().len() && #[trigger] seed.names()[j] == n && !(
                        seed.marks()[j] is Falsified);
                    assert(base.names()[j] == n);
                }
                if base.okay().contains(n) {
                    let j = choose|j: int|
                        0 <= j < base.names().len() && #[trigger] base.names()[j] == n && !(
                        base.marks()[j] is Falsified);
                    assert(seed.names()[j] == n);
                }
            }
            assert(seed.okay() =~= base.okay());
            assert forall|n: Seq<char>| seed.falsified().contains(n) <==> base.falsified().contains(
                n,
            ) by {
                if seed.falsified().contains(n) {
                    let j = choose|j: int|
                        0 <= j < seed.names().len() && #[trigger] seed.names()[j] == n
                            && seed.marks()[j] is Falsified;
                    assert(base.names()[j] == n);
                }
                if base.falsified().contains(n) {
                    let j = choose|j: int|
                        0 <= j < base.names().len() && #[trigger] base.names()[j] == n
                            && base.marks()[j] is Falsified;
                    assert(seed.names()[j] == n);
                }
            }
            assert forall|n: Seq<char>| seed.cexs().dom().contains(n) implies #[trigger] seed.cexs()[n]
                == base.cexs()[n] by {
                let j = seed.index_of(n);
                assert(base.names()[j] == n);
                seed.lemma_index(j);
                base.lemma_index(j);
            }
            assert(seed.cexs() =~= base.cexs());
            assert forall|n: Seq<char>|
                seed.pending().contains(n) <==> base.okay().intersect(other.falsified()).contains(
                    n,
                ) by {
                if seed.pending().contains(n) {
                    let j = choose|j: int|
                        0 <= j < seed.names().len() && #[trigger] seed.names()[j] == n
                            && seed.marks()[j] is Open;
                    assert(base.names()[j] == n);
                    assert(other.names()[j] == n);
                }
                if base.okay().contains(n) && other.falsified().contains(n) {
                    let j = choose|j: int|
                        0 <= j < base.names().len() && #[trigger] base.names()[j] == n && !(
                        base.marks()[j] is Falsified);
                    let k = choose|k: int|
                        0 <= k < other.names().len() && #[trigger] other.names()[k] == n
                            && other.marks()[k] is Falsified;
                    other.lemma_index(j);
                    other.lemma_index(k);
                    assert(j == k);
                    assert(seed.names()[j] == n);
                }
            }
            assert(seed.pending() =~= base.okay().intersect(other.falsified()));
        }
        Ok(seed)
    }
}

impl StepRes {
    /// The result that is wrapped.
    pub closed spec fn inner(&self) -> CheckRes {
        self.res
    }

    /// Wraps the result of a step check.
    pub fn wrap(res: CheckRes) -> (r: StepRes)
        ensures
            r.inner() == res,
    {
        StepRes { res }
    }

    /// The result that is wrapped.
    pub fn as_inner(&self) -> (r: &CheckRes)
        ensures
            *r == self.inner(),
    {
        &self.res
    }

    /// Gives up the wrapper.
    pub fn into_inner(self) -> (r: CheckRes)
        ensures
            r == self.inner(),
    {
        self.res
    }
}

} // verus!
