//! How a counterexample is laid out for the reader: the candidate and its
//! definition, then state by state the variables, aligned, with their
//! values, then what else the solver reported.

use vstd::prelude::*;
use crate::cex::Cex;
use crate::numeral::{decimal_text, Numeral};
use crate::solver::Error;
use crate::sys::{widest, Sys};
use crate::term::{spaced, Term};

verus! {

/// One variable of a state, as shown.
#[derive(Debug)]
pub struct Row {
    /// The name of the variable, aligned to the right.
    pub var: String,
    /// The text of its value.
    pub value: String,
}

/// One state of a trace, as shown.
#[derive(Debug)]
pub struct Block {
    /// The label of the state.
    pub label: String,
    /// The variables bound in the state.
    pub rows: Vec<Row>,
}

/// A counterexample, as shown.
#[derive(Debug)]
pub struct Page {
    /// The name of the candidate.
    pub candidate: String,
    /// The definition of the candidate.
    pub definition: String,
    /// The states of the trace.
    pub blocks: Vec<Block>,
    /// What else the solver reported: on what, and what.
    pub unexpected: Vec<Row>,
}

/// The text of a term as it is shown: variables by their names, and a
/// variable of the previous state under `pre`.
pub open spec fn plain(t: Term) -> Seq<char>
    decreases t, 0nat,
{
    match t {
        Term::Cst(c) => c.text(),
        Term::Var(v) => v.id@,
        Term::Pre(v) => "(pre "@ + v.id@ + ")"@,
        Term::App(op, args) => "("@ + op.smt_name() + spaced(plains(args@)) + ")"@,
        Term::Ite(c, t, e) => "(ite "@ + plain(*c) + " "@ + plain(*t) + " "@ + plain(*e) + ")"@,
    }
}

/// The texts of the operands of an application, as they are shown.
pub open spec fn plains(args: Seq<Term>) -> Seq<Seq<char>>
    decreases args, 1nat,
{
    Seq::new(
        args.len(),
        |i: int|
            if 0 <= i < args.len() {
                plain(args[i])
            } else {
                Seq::empty()
            },
    )
}

/// The label of a state. In a counterexample from the initial states it
/// is the index of the state. In any other the first state is some state
/// `k`, and the others are counted from it.
pub open spec fn label_text(step: nat, from_init: bool) -> Seq<char> {
    if from_init {
        decimal_text(step)
    } else if step == 0 {
        "k"@
    } else {
        "k + "@ + decimal_text(step)
    }
}

/// A run of spaces.
pub open spec fn spaces(n: nat) -> Seq<char> {
    Seq::new(n, |i: int| ' ')
}

/// A name aligned to the right in a column of the given width. A name
/// that is wider than the column is left as it is.
pub open spec fn padded(name: Seq<char>, width: nat) -> Seq<char> {
    if name.len() < width {
        spaces((width - name.len()) as nat) + name
    } else {
        name
    }
}

/// Appends the text of a term as it is shown to `out`.
pub fn write_plain(t: &Term, out: &mut String)
    requires
        t.well_sorted(),
    ensures
        final(out)@ == old(out)@ + plain(*t),
    decreases t,
{
    match t {
        Term::Cst(c) => {
            c.write(out);
        },
        Term::Var(v) => {
            out.append(v.id.as_str());
        },
        Term::Pre(v) => {
            out.append("(pre ");
            out.append(v.id.as_str());
            out.append(")");
            assert(out@ =~= old(out)@ + ("(pre "@ + v.id@ + ")"@));
        },
        Term::App(op, args) => {
            out.append("(");
            out.append(op.smt_str());
            let ghost texts = plains(args@);
            proof {
                assert(texts.subrange(0, 0) =~= Seq::<Seq<char>>::empty());
            }
            let mut i: usize = 0;
            while i < args.len()
                invariant
                    i <= args.len(),
                    *t matches Term::App(o, a) && a == *args && o == *op,
                    forall|j: int| 0 <= j < args.len() ==> (#[trigger] args[j]).well_sorted(),
                    texts == plains(args@),
                    out@ == old(out)@ + "("@ + op.smt_name() + spaced(texts.subrange(0, i as int)),
                decreases args.len() - i,
            {
                out.append(" ");
                write_plain(&args[i], out);
                proof {
                    let head = texts.subrange(0, i + 1);
                    assert(head.drop_last() =~= texts.subrange(0, i as int));
                    assert(head.last() == plain(args[i as int]));
                    assert(out@ =~= old(out)@ + "("@ + op.smt_name() + spaced(head));
                }
                i = i + 1;
            }
            assert(texts.subrange(0, args.len() as int) =~= texts);
            out.append(")");
            assert(out@ =~= old(out)@ + ("("@ + op.smt_name() + spaced(texts) + ")"@));
        },
        Term::Ite(c, thn, els) => {
            out.append("(ite ");
            write_plain(c, out);
            out.append(" ");
            write_plain(thn, out);
            out.append(" ");
            write_plain(els, out);
            out.append(")");
            assert(out@ =~= old(out)@ + ("(ite "@ + plain(**c) + " "@ + plain(**thn) + " "@ + plain(
                **els,
            ) + ")"@));
        },
    }
}

/// The label of a state.
pub fn step_label(step: usize, from_init: bool) -> (r: String)
    ensures
        r@ == label_text(step as nat, from_init),
{
    let mut out: String = String::new();
    if from_init {
        let n: Numeral = Numeral::from_u64(step as u64);
        n.write(&mut out);
        proof {
            n.lemma_text_of_value();
            assert(out@ =~= decimal_text(step as nat));
        }
    } else if step == 0 {
        out.append("k");
        assert(out@ =~= "k"@);
    } else {
        out.append("k + ");
        let n: Numeral = Numeral::from_u64(step as u64);
        n.write(&mut out);
        proof {
            n.lemma_text_of_value();
            assert(out@ =~= "k + "@ + decimal_text(step as nat));
        }
    }
    out
}

/// A name aligned to the right in a column of the given width.
pub fn pad(name: &str, width: usize) -> (r: String)
    ensures
        r@ == padded(name@, width as nat),
{
    let len: usize = name.unicode_len();
    let mut out: String = String::new();
    if len < width {
        let gap: usize = width - len;
        let mut i: usize = 0;
        proof {
            reveal_strlit(" ");
        }
        while i < gap
            invariant
                i <= gap,
                out@ == spaces(i as nat),
                " "@ == seq![' '],
            decreases gap - i,
        {
            out.append(" ");
            assert(out@ =~= spaces((i + 1) as nat));
            i = i + 1;
        }
    } else {
        assert(out@ =~= Seq::<char>::empty());
    }
    let ghost before = out@;
    out.append(name);
    assert(out@ =~= before + name@);
    out
}

/// Lays out the counterexample of a candidate. The names of the variables
/// are aligned to the width of the longest name that the system declares.
/// A candidate that the system does not have is an error.
pub fn present_cex(sys: &Sys, candidate: &str, cex: &Cex, from_init: bool) -> (r: Result<Page, Error>)
    requires
        sys.wf(),
        cex.sorted(sys.decls()),
    ensures
        match r {
            Ok(page) => {
                &&& page.candidate@ == candidate@
                &&& exists|i: int|
                    0 <= i < sys.cands().len() && (#[trigger] sys.cands()[i]).name@ == candidate@
                        && page.definition@ == plain(sys.cands()[i].prop)
                &&& page.blocks@.len() == cex.trace@.len()
                &&& forall|s: int|
                    0 <= s < cex.trace@.len() ==> {
                        &&& (#[trigger] page.blocks@[s]).label@ == label_text(
                            cex.trace@[s].step as nat,
                            from_init,
                        )
                        &&& page.blocks@[s].rows@.len() == cex.trace@[s].values@.len()
                        &&& forall|j: int|
                            0 <= j < cex.trace@[s].values@.len() ==> {
                                &&& (#[trigger] page.blocks@[s].rows@[j]).var@ == padded(
                                    cex.trace@[s].values@[j].var@,
                                    widest(sys.decls()),
                                )
                                &&& page.blocks@[s].rows@[j].value@
                                    == cex.trace@[s].values@[j].value.text()
                            }
                    }
                &&& page.unexpected@.len() == cex.unexpected@.len()
                &&& forall|u: int|
                    0 <= u < cex.unexpected@.len() ==> (#[trigger] page.unexpected@[u]).var@
                        == cex.unexpected@[u].what@ && page.unexpected@[u].value@
                        == cex.unexpected@[u].value@
            },
            Err(e) => e == Error::UnknownCandidate && forall|i: int|
                0 <= i < sys.cands().len() ==> (#[trigger] sys.cands()[i]).name@ != candidate@,
        },
{
    let def: &Term = match sys.find(candidate) {
        Some(t) => t,
        None => {
            return Err(Error::UnknownCandidate);
        },
    };
    let ghost at = choose|i: int|
        0 <= i < sys.cands().len() && (#[trigger] sys.cands()[i]).name@ == candidate@
            && sys.cands()[i].prop == *def;
    assert(crate::sys::state_pred(sys.cands()[at].prop, sys.decls()));
    let width: usize = sys.max_id_len();
    let mut definition: String = String::new();
    write_plain(def, &mut definition);
    assert(definition@ =~= plain(*def));
    let mut blocks: Vec<Block> = Vec::new();
    let mut s: usize = 0;
    while s < cex.trace.len()
        invariant
            s <= cex.trace@.len(),
            cex.sorted(sys.decls()),
            blocks@.len() == s,
            forall|b: int|
                0 <= b < s ==> {
                    &&& (#[trigger] blocks@[b]).label@ == label_text(
                        cex.trace@[b].step as nat,
                        from_init,
                    )
                    &&& blocks@[b].rows@.len() == cex.trace@[b].values@.len()
                    &&& forall|j: int|
                        0 <= j < cex.trace@[b].values@.len() ==> {
                            &&& (#[trigger] blocks@[b].rows@[j]).var@ == padded(
                                cex.trace@[b].values@[j].var@,
                                width as nat,
                            )
                            &&& blocks@[b].rows@[j].value@ == cex.trace@[b].values@[j].value.text()
                        }
                },
        decreases cex.trace@.len() - s,
    {
        let st = &cex.trace[s];
        assert(st.sorted(sys.decls()));
        let mut rows: Vec<Row> = Vec::new();
        let mut j: usize = 0;
        while j < st.values.len()
            invariant
                j <= st.values@.len(),
                st.sorted(sys.decls()),
                rows@.len() == j,
                forall|m: int|
                    0 <= m < j ==> {
                        &&& (#[trigger] rows@[m]).var@ == padded(st.values@[m].var@, width as nat)
                        &&& rows@[m].value@ == st.values@[m].value.text()
                    },
            decreases st.values@.len() - j,
        {
            let mut value: String = String::new();
            st.values[j].value.write(&mut value);
            assert(value@ =~= st.values@[j as int].value.text());
            rows.push(Row { var: pad(st.values[j].var.as_str(), width), value });
            j = j + 1;
        }
        blocks.push(Block { label: step_label(st.step, from_init), rows });
        s = s + 1;
    }
    let mut unexpected: Vec<Row> = Vec::new();
    let mut u: usize = 0;
    while u < cex.unexpected.len()
        invariant
            u <= cex.unexpected@.len(),
            unexpected@.len() == u,
            forall|m: int|
                0 <= m < u ==> (#[trigger] unexpected@[m]).var@ == cex.unexpected@[m].what@
                    && unexpected@[m].value@ == cex.unexpected@[m].value@,
        decreases cex.unexpected@.len() - u,
    {
        unexpected.push(
            Row { var: cex.unexpected[u].what.clone(), value: cex.unexpected[u].value.clone() },
        );
        u = u + 1;
    }
    Ok(Page { candidate: String::from_str(candidate), definition, blocks, unexpected })
}

} // verus!
