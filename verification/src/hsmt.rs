//! Systems written in hsmt, the human-readable syntax of `mikino_api`.
//!
//! The text is parsed by `mikino_api`. What its parser yields is taken
//! apart here, piece by piece, and built again from the terms of this
//! library, so that every system goes through [`Sys::new`] and is checked.
//!
//! In hsmt the transition predicate speaks of the current and of the next
//! state. Here it speaks of the previous and of the current state: a
//! variable of the next state becomes a plain variable, and a variable of
//! the current state becomes a variable under `pre`.

use vstd::prelude::*;
use mikino_api::expr::HasTyp;
use mikino_api::expr::Cst as ParsedCst;
use mikino_api::expr::Op as ParsedOp;
use mikino_api::trans::Sys as Parsed;
use crate::cex::{read_symbol, step_read, symbol_name, ModelEntry, Reported};
use crate::cst::{Cst, Shape};
use crate::numeral::{digits_value, lemma_digits_written, signed_written, Numeral};
use crate::op::Op;
use crate::sort::Sort;
use crate::sys::{refusal, same_text, Candidate, Sys, SysError};
use crate::term::{Term, Var};

verus! {

/// A parsed system of `mikino_api`. Nothing is known of it but what the
/// functions below hand out.
#[verifier::external_type_specification]
#[verifier::external_body]
pub struct ExParsed(Parsed);

/// A type of `mikino_api`: `bool`, `int` or `rat`.
#[verifier::external_type_specification]
#[verifier::external_body]
pub struct ExTyp(mikino_api::expr::Typ);

/// A constant of `mikino_api`.
#[verifier::external_type_specification]
#[verifier::external_body]
pub struct ExParsedCst(ParsedCst);

/// An operator of `mikino_api`.
#[verifier::external_type_specification]
#[verifier::external_body]
pub struct ExParsedOp(ParsedOp);

/// A constant as it comes from the parser: integers as decimal text with
/// a minus sign where they are negative.
#[derive(Debug)]
pub enum RawCst {
    B(bool),
    I(String),
    R(String, String),
}

/// A constant as it comes from the parser, as plain data.
pub enum RawView {
    B(bool),
    I(Seq<char>),
    R(Seq<char>, Seq<char>),
}

impl RawCst {
    /// The parts as plain data.
    pub open spec fn view(&self) -> RawView {
        match self {
            RawCst::B(b) => RawView::B(*b),
            RawCst::I(t) => RawView::I(t@),
            RawCst::R(n, d) => RawView::R(n@, d@),
        }
    }
}

/// The constant of this library that the parts give, as it is written: a
/// truth value as it is; an integer when its text is canonical decimal,
/// with a minus sign before the digits where it is negative, and is not a
/// negative zero; a rational when both texts are such, the denominator has
/// no sign and is not zero, and the whole is not a negative zero. Other
/// parts give none.
pub open spec fn shape_of(raw: RawView) -> Option<Shape> {
    match raw {
        RawView::B(b) => Some(Shape::B(b)),
        RawView::I(t) => match signed_written(t) {
            Some((neg, d)) => if neg && digits_value(d) == 0 {
                None
            } else {
                Some(Shape::I(neg, d))
            },
            None => None,
        },
        RawView::R(n, d) => match (signed_written(n), signed_written(d)) {
            (Some((neg, nd)), Some((false, dd))) => if digits_value(dd) == 0 || (neg
                && digits_value(nd) == 0) {
                None
            } else {
                Some(Shape::R(neg, nd, dd))
            },
            _ => None,
        },
    }
}

/// True when `k` is the constant of this library that the parts give, or
/// there is none and the parts give none.
pub open spec fn cst_made(raw: RawView, k: Option<Cst>) -> bool {
    match shape_of(raw) {
        Some(shape) => k matches Some(c) && c.wf() && c.shape() == shape,
        None => k is None,
    }
}

/// Why a text gives no system.
#[derive(Debug)]
pub enum HsmtError {
    /// The parser refuses the text, with this message.
    Syntax(String),
    /// The text uses an operator or a constant that this library does not
    /// have.
    Unsupported,
    /// The system is not well formed.
    Refused(SysError),
}

/// What the grammar of `mikino_api` makes of the text of a system: the
/// parsed system, or the message of its error.
pub uninterp spec fn hsmt_parse(text: Seq<char>) -> Result<Parsed, Seq<char>>;

/// `mikino_api::parse::rules::hsmt_trans`, the grammar rule for a whole
/// system, parses the text. The rule is called itself, not the function
/// `parse::trans` around it: that function lays its errors out over the
/// lines of the text and panics on some texts. An error of the grammar or
/// of the system is handed out as the message that its `Display` gives.
/// What comes out depends on the text alone; nothing more is claimed of
/// it.
#[verifier::external_body]
fn parse_text(text: &str) -> (r: Result<Parsed, String>)
    ensures
        match r {
            Ok(p) => hsmt_parse(text@) == Ok::<Parsed, Seq<char>>(p),
            Err(m) => hsmt_parse(text@) == Err::<Parsed, Seq<char>>(m@),
        },
{
    match mikino_api::parse::rules::hsmt_trans(text) {
        Ok(Ok(sys)) => Ok(sys),
        Ok(Err(e)) => Err(e.to_string()),
        Err(e) => Err(e.to_string()),
    }
}

/// The variables that a parsed system declares, each with its name and its
/// type, in the order in which `mikino_api` lists them.
pub uninterp spec fn decl_list(p: Parsed) -> Seq<(String, mikino_api::expr::Typ)>;

/// `Sys::decls` and `Decls::all` of `mikino_api` list the variables that
/// the system declares; each is handed out as its name and its type. The
/// list depends on the system alone; nothing more is claimed of it.
#[verifier::external_body]
fn declared(sys: &Parsed) -> (r: Vec<(String, mikino_api::expr::Typ)>)
    ensures
        r@ == decl_list(*sys),
{
    sys.decls().all().map(|v| (v.id().to_string(), v.typ())).collect()
}

/// The sort that stands for a type of `mikino_api`: `Bool` for `bool`,
/// `Int` for `int`, `Rat` for `rat`.
pub uninterp spec fn typ_sort(typ: mikino_api::expr::Typ) -> Sort;

/// The three variants of `mikino_api::expr::Typ` are told apart. The sort
/// depends on the type alone; nothing more is claimed of it.
#[verifier::external_body]
fn sort_of(typ: mikino_api::expr::Typ) -> (r: Sort)
    ensures
        r == typ_sort(typ),
{
    match typ {
        mikino_api::expr::Typ::Bool => Sort::Bool,
        mikino_api::expr::Typ::Int => Sort::Int,
        mikino_api::expr::Typ::Rat => Sort::Rat,
    }
}

/// The parts of a constant of `mikino_api`: a truth value, the text that
/// `Display` gives for an integer, or the texts that it gives for the
/// numerator and the denominator of a rational.
pub uninterp spec fn cst_raw(c: ParsedCst) -> RawView;

/// The three variants of `mikino_api::expr::Cst` are told apart, and the
/// numbers are handed out as the texts that `Display` of `num` gives for
/// them. The parts depend on the constant alone; nothing more is claimed of
/// them.
#[verifier::external_body]
fn cst_parts(c: &ParsedCst) -> (r: RawCst)
    ensures
        r.view() == cst_raw(*c),
{
    match c {
        ParsedCst::B(b) => RawCst::B(*b),
        ParsedCst::I(i) => RawCst::I(i.to_string()),
        ParsedCst::R(q) => RawCst::R(q.numer().to_string(), q.denom().to_string()),
    }
}

/// The name under which `mikino_api` prints an operator: what `Display`
/// gives for it.
pub uninterp spec fn op_name(op: ParsedOp) -> Seq<char>;

/// `Display` of `mikino_api::expr::Op` prints the name of an operator. The
/// name depends on the operator alone; nothing more is claimed of it.
#[verifier::external_body]
fn op_text(op: ParsedOp) -> (r: String)
    ensures
        r@ == op_name(op),
{
    op.to_string()
}

/// The term of this library that the initial predicate of a parsed system
/// folds into, if it folds into one.
pub uninterp spec fn init_term(p: Parsed) -> Option<Term>;

/// `Sys::init` and `PExpr::fold` of `mikino_api`: the initial predicate is
/// folded, bottom-up, into a term of this library. The term depends on the
/// system alone; nothing more is claimed of it.
#[verifier::external_body]
fn init_of(sys: &Parsed) -> (r: Option<Term>)
    ensures
        r == init_term(*sys),
{
    sys.init().fold(|v| leaf(v.id(), v.typ(), true), |c| literal(c), |op, args| node(op, args))
}

/// The term of this library that the transition predicate of a parsed
/// system folds into, if it folds into one.
pub uninterp spec fn trans_term(p: Parsed) -> Option<Term>;

/// `Sys::trans` and `PExpr::fold` of `mikino_api`: the transition
/// predicate is folded, bottom-up, into a term of this library. The term
/// depends on the system alone; nothing more is claimed of it.
#[verifier::external_body]
fn trans_of(sys: &Parsed) -> (r: Option<Term>)
    ensures
        r == trans_term(*sys),
{
    sys.trans().fold(
        |v| leaf(v.id(), v.typ(), v.is_next()),
        |c| literal(c),
        |op, args| node(op, args),
    )
}

/// The names of the candidates of a parsed system, in the order in which
/// `mikino_api` keeps them.
pub uninterp spec fn cand_names(p: Parsed) -> Seq<String>;

/// `Sys::po_s` of `mikino_api`: the names of the candidates, in the order
/// in which it keeps them. The names depend on the system alone; nothing
/// more is claimed of them.
#[verifier::external_body]
fn candidate_names(sys: &Parsed) -> (r: Vec<String>)
    ensures
        r@ == cand_names(*sys),
{
    sys.po_s().keys().cloned().collect()
}

/// The term of this library that the candidate of that name folds into, if
/// the parsed system has it and it folds into one.
pub uninterp spec fn cand_term(p: Parsed, name: Seq<char>) -> Option<Term>;

/// `Sys::po_s` and `PExpr::fold` of `mikino_api`: the candidate of that
/// name is folded, bottom-up, into a term of this library. The term
/// depends on the system and the name alone; nothing more is claimed of
/// it.
#[verifier::external_body]
fn candidate_of(sys: &Parsed, name: &str) -> (r: Option<Term>)
    ensures
        r == cand_term(*sys, name@),
{
    match sys.po_s().get(name) {
        Some(e) => {
            e.fold(|v| leaf(v.id(), v.typ(), true), |c| literal(c), |op, args| node(op, args))
        },
        None => None,
    }
}

/// The constant that `mikino_api` reads off the beginning of a text, if it
/// reads one.
pub uninterp spec fn cst_at(text: Seq<char>) -> Option<ParsedCst>;

/// True of an ASCII character that is not a line feed.
pub open spec fn is_plain(c: char) -> bool {
    (c as u32) < 128 && c != '\n'
}

/// True of a text on one line in ASCII: every character is an ASCII
/// character, and none is a line feed.
pub open spec fn plain_line(text: Seq<char>) -> bool {
    forall|i: int| 0 <= i < text.len() ==> is_plain(#[trigger] text[i])
}

/// `Parser::new` and `Parser::try_cst` of `mikino_api` read a constant
/// off the beginning of a text, if one stands there. The parser panics on
/// a numeric character outside ASCII, and where it lays an error out over
/// the lines of a text that ends in a line feed: such texts are kept out.
/// What is read depends on the text alone; nothing more is claimed of it.
#[verifier::external_body]
fn try_cst(text: &str) -> (r: Option<ParsedCst>)
    requires
        plain_line(text@),
    ensures
        r == cst_at(text@),
{
    match mikino_api::parse::Parser::new(text).try_cst() {
        Ok(found) => found,
        Err(_) => None,
    }
}

/// What is made of the value that the solver reports: the constant of
/// this library that `mikino_api` reads off the text, where the text is on
/// one line in ASCII, a constant is read and this library has it; and the
/// text itself otherwise.
pub open spec fn value_read(text: Seq<char>, r: Reported) -> bool {
    let found = if plain_line(text) {
        match cst_at(text) {
            Some(c) => shape_of(cst_raw(c)),
            None => None,
        }
    } else {
        None
    };
    match found {
        Some(shape) => r matches Reported::Value(k) && k.wf() && k.shape() == shape,
        None => r matches Reported::Other(t) && t@ == text,
    }
}

/// Tells whether a text is on one line in ASCII.
pub fn is_plain_line(text: &str) -> (r: bool)
    ensures
        r == plain_line(text@),
{
    let n: usize = text.unicode_len();
    let mut i: usize = 0;
    while i < n
        invariant
            i <= n,
            n == text@.len(),
            forall|j: int| 0 <= j < i ==> is_plain(#[trigger] text@[j]),
        decreases n - i,
    {
        let c: char = text.get_char(i);
        if (c as u32) >= 128 || c == '\n' {
            return false;
        }
        i = i + 1;
    }
    true
}

/// Reads what the solver reports as the value of a symbol: a constant
/// where the text is on one line in ASCII and begins with a constant that
/// this library has, and the text itself otherwise.
pub fn read_value(text: &str) -> (r: Reported)
    ensures
        value_read(text@, r),
{
    if !is_plain_line(text) {
        return Reported::Other(String::from_str(text));
    }
    match try_cst(text) {
        Some(c) => match cst_of(cst_parts(&c)) {
            Some(k) => Reported::Value(k),
            None => Reported::Other(String::from_str(text)),
        },
        None => Reported::Other(String::from_str(text)),
    }
}

/// Reads one entry of a model from the symbol and the value that the
/// solver reports.
pub fn read_entry(symbol: &str, value: &str) -> (r: ModelEntry)
    ensures
        r.wf(),
        r.name@ == symbol_name(symbol@),
        step_read(symbol@, r.step),
        value_read(value@, r.value),
{
    let (name, step) = read_symbol(symbol);
    ModelEntry { name, step, value: read_value(value) }
}

/// The term of a variable: a plain variable when it is of the state that
/// the predicate is about, a variable under `pre` when it is of the state
/// before.
fn leaf(id: &str, typ: mikino_api::expr::Typ, here: bool) -> (r: Option<Term>)
    ensures
        match r {
            Some(Term::Var(v)) => here && v.id@ == id@ && v.sort == typ_sort(typ),
            Some(Term::Pre(v)) => !here && v.id@ == id@ && v.sort == typ_sort(typ),
            _ => false,
        },
{
    let v = Var::new(id, sort_of(typ));
    if here {
        Some(Term::Var(v))
    } else {
        Some(Term::Pre(v))
    }
}

/// Reads an integer from its decimal text, with a minus sign before the
/// digits where it is negative.
fn signed_numeral(text: &str) -> (r: Option<(bool, Numeral)>)
    ensures
        match r {
            Some((neg, mag)) => mag.wf() && signed_written(text@) == Some((neg, mag.digits())),
            None => signed_written(text@) is None,
        },
{
    let n: usize = text.unicode_len();
    if n > 0 && text.get_char(0) == '-' {
        let rest: &str = text.substring_char(1, n);
        match Numeral::from_text(rest) {
            Some(mag) => {
                proof {
                    lemma_digits_written(rest@, mag.digits());
                }
                Some((true, mag))
            },
            None => None,
        }
    } else {
        match Numeral::from_text(text) {
            Some(mag) => {
                proof {
                    lemma_digits_written(text@, mag.digits());
                }
                Some((false, mag))
            },
            None => None,
        }
    }
}

/// The constant of this library that the parts give, if they give one.
fn cst_of(raw: RawCst) -> (r: Option<Cst>)
    ensures
        cst_made(raw.view(), r),
{
    match raw {
        RawCst::B(b) => Some(Cst::B(b)),
        RawCst::I(text) => match signed_numeral(text.as_str()) {
            Some((neg, mag)) => Cst::int_of(neg, mag),
            None => None,
        },
        RawCst::R(num, den) => match (signed_numeral(num.as_str()), signed_numeral(den.as_str())) {
            (Some((neg, n)), Some((false, d))) => Cst::rat_of(neg, n, d),
            _ => None,
        },
    }
}

/// The term of a constant of `mikino_api`: the literal of the constant of
/// this library that its parts give, if they give one.
fn literal(c: &ParsedCst) -> (r: Option<Term>)
    ensures
        match shape_of(cst_raw(*c)) {
            Some(shape) => r matches Some(Term::Cst(k)) && k.wf() && k.shape() == shape,
            None => r is None,
        },
{
    match cst_of(cst_parts(c)) {
        Some(k) => Some(Term::Cst(k)),
        None => None,
    }
}

/// True when every operand is there.
pub open spec fn all_there(args: Seq<Option<Term>>) -> bool {
    forall|i: int| 0 <= i < args.len() ==> #[trigger] args[i] is Some
}

/// True when `r` is the term of the application named `name` to the
/// operands `args`: an if-then-else of the three operands when the name is
/// `ite`, and otherwise the application of the operator of that name to the
/// operands, in order. There is none when an operand is missing, when the
/// name is that of no operator, or when an if-then-else does not have three
/// operands. The sorts are not looked at.
pub open spec fn node_made(name: Seq<char>, args: Seq<Option<Term>>, r: Option<Term>) -> bool {
    &&& r is Some <==> all_there(args) && (if name == "ite"@ {
        args.len() == 3
    } else {
        Op::named(name) is Some
    })
    &&& r matches Some(t) ==> match t {
        Term::Ite(c, t, e) => {
            &&& name == "ite"@
            &&& *c == args[0]->0
            &&& *t == args[1]->0
            &&& *e == args[2]->0
        },
        Term::App(op, operands) => {
            &&& name != "ite"@
            &&& Op::named(name) == Some(op)
            &&& operands@.len() == args.len()
            &&& forall|i: int| 0 <= i < args.len() ==> #[trigger] operands@[i] == args[i]->0
        },
        _ => false,
    }
}

/// The term of an application: of the operator named, or an
/// if-then-else, to the operands, in order.
fn node_of(name: &str, args: Vec<Option<Term>>) -> (r: Option<Term>)
    ensures
        node_made(name@, args@, r),
{
    let ghost given = args@;
    let mut rest: Vec<Option<Term>> = args;
    let mut rev: Vec<Term> = Vec::new();
    while rest.len() > 0
        invariant
            given == args@,
            rest@.len() + rev@.len() == given.len(),
            rest@ =~= given.subrange(0, rest@.len() as int),
            forall|k: int|
                0 <= k < rev@.len() ==> (#[trigger] given[given.len() - 1 - k]) is Some && rev@[k]
                    == given[given.len() - 1 - k]->0,
        decreases rest@.len(),
    {
        let ghost at = rest@.len() - 1;
        let ghost before = rev@;
        let last: Option<Option<Term>> = rest.pop();
        assert(last == Some(given[at]));
        match last {
            Some(Some(t)) => {
                rev.push(t);
                assert forall|k: int| 0 <= k < rev@.len() implies (#[trigger] given[given.len() - 1
                    - k]) is Some && rev@[k] == given[given.len() - 1 - k]->0 by {
                    if k < before.len() {
                        assert(rev@[k] == before[k]);
                    } else {
                        assert(given.len() - 1 - k == at);
                    }
                }
            },
            _ => {
                assert(given[at] is None);
                assert(!all_there(given));
                return None;
            },
        }
    }
    assert(all_there(given)) by {
        assert forall|i: int| 0 <= i < given.len() implies #[trigger] given[i] is Some by {
            let k = given.len() - 1 - i;
            assert(given[given.len() - 1 - k] is Some);
        }
    }
    if same_text(name, "ite") {
        if rev.len() != 3 {
            return None;
        }
        proof {
            assert(given[given.len() - 1 - 2] is Some && rev@[2] == given[given.len() - 1 - 2]->0);
            assert(given[given.len() - 1 - 1] is Some && rev@[1] == given[given.len() - 1 - 1]->0);
            assert(given[given.len() - 1 - 0] is Some && rev@[0] == given[given.len() - 1 - 0]->0);
        }
        let c: Term = rev.pop().unwrap();
        let t: Term = rev.pop().unwrap();
        let e: Term = rev.pop().unwrap();
        return Some(Term::Ite(Box::new(c), Box::new(t), Box::new(e)));
    }
    let op: Op = match Op::of_name(name) {
        Some(op) => op,
        None => {
            return None;
        },
    };
    let ghost turned = rev@;
    let mut operands: Vec<Term> = Vec::new();
    while rev.len() > 0
        invariant
            rev@.len() + operands@.len() == given.len(),
            turned.len() == given.len(),
            rev@ =~= turned.subrange(0, rev@.len() as int),
            forall|k: int|
                0 <= k < turned.len() ==> #[trigger] turned[k] == given[given.len() - 1 - k]->0,
            forall|i: int| 0 <= i < operands@.len() ==> #[trigger] operands@[i] == given[i]->0,
        decreases rev@.len(),
    {
        let ghost at = rev@.len() - 1;
        match rev.pop() {
            Some(t) => {
                assert(t == turned[at]);
                operands.push(t);
            },
            None => {},
        }
    }
    Some(Term::App(op, operands))
}

/// The term of an application of an operator of `mikino_api`, which is
/// known by the name under which `mikino_api` prints it: an if-then-else
/// of the three operands when that name is `ite`, and otherwise the
/// application of the operator of that name to the operands, in order.
fn node(op: ParsedOp, args: Vec<Option<Term>>) -> (r: Option<Term>)
    ensures
        node_made(op_name(op), args@, r),
{
    let name: String = op_text(op);
    node_of(name.as_str(), args)
}

/// The system of the parts that a text gave. A part that is missing makes
/// the text unsupported; otherwise the system is built, or refused for the
/// reason that [`refusal`] gives.
pub fn assemble(decls: Vec<Var>, init: Option<Term>, trans: Option<Term>, cands: Vec<Candidate>) -> (r:
    Result<Sys, HsmtError>)
    ensures
        match r {
            Ok(sys) => {
                &&& init is Some
                &&& trans is Some
                &&& refusal(decls@, init->0, trans->0, cands@) is None
                &&& sys.wf()
                &&& sys.decls() == decls@
                &&& sys.init() == init->0
                &&& sys.trans() == trans->0
                &&& sys.cands() == cands@
            },
            Err(HsmtError::Unsupported) => init is None || trans is None,
            Err(HsmtError::Refused(e)) => init is Some && trans is Some && refusal(
                decls@,
                init->0,
                trans->0,
                cands@,
            ) == Some(e),
            Err(HsmtError::Syntax(_)) => false,
        },
{
    match (init, trans) {
        (Some(i), Some(t)) => match Sys::new(decls, i, t, cands) {
            Ok(sys) => Ok(sys),
            Err(e) => Err(HsmtError::Refused(e)),
        },
        _ => Err(HsmtError::Unsupported),
    }
}

/// The variables that a parsed system declares, as variables of this
/// library.
pub open spec fn decls_of(p: Parsed) -> Seq<Var> {
    Seq::new(
        decl_list(p).len(),
        |i: int| Var { id: decl_list(p)[i].0, sort: typ_sort(decl_list(p)[i].1) },
    )
}

/// True when every candidate of a parsed system folds into a term of this
/// library.
pub open spec fn cands_there(p: Parsed) -> bool {
    forall|j: int|
        0 <= j < cand_names(p).len() ==> cand_term(p, (#[trigger] cand_names(p)[j])@) is Some
}

/// The candidates of a parsed system, as candidates of this library.
pub open spec fn cands_of(p: Parsed) -> Seq<Candidate> {
    Seq::new(
        cand_names(p).len(),
        |j: int| Candidate { name: cand_names(p)[j], prop: cand_term(p, cand_names(p)[j]@)->0 },
    )
}

/// True when `r` is what reading a text comes to.
///
/// A text that the parser refuses is a syntax error, with the parser's
/// message. A text of which a predicate folds into no term of this library
/// is unsupported. Otherwise the system is made of the variables, the
/// predicates and the candidates that were parsed: it is refused for the
/// reason that [`refusal`] gives, or it comes out, well formed.
pub open spec fn parse_made(text: Seq<char>, r: Result<Sys, HsmtError>) -> bool {
    match hsmt_parse(text) {
        Err(m) => r matches Err(HsmtError::Syntax(s)) && s@ == m,
        Ok(p) => if !cands_there(p) || init_term(p) is None || trans_term(p) is None {
            r matches Err(HsmtError::Unsupported)
        } else {
            match refusal(decls_of(p), init_term(p)->0, trans_term(p)->0, cands_of(p)) {
                Some(e) => r matches Err(HsmtError::Refused(x)) && x == e,
                None => {
                    &&& r matches Ok(sys)
                    &&& sys.wf()
                    &&& sys.decls() == decls_of(p)
                    &&& sys.init() == init_term(p)->0
                    &&& sys.trans() == trans_term(p)->0
                    &&& sys.cands() == cands_of(p)
                },
            }
        },
    }
}

/// Reads a system from its text in hsmt: the text is parsed by
/// `mikino_api`, and the system is made of what was parsed.
pub fn parse(text: &str) -> (r: Result<Sys, HsmtError>)
    ensures
        parse_made(text@, r),
{
    let parsed = match parse_text(text) {
        Ok(p) => p,
        Err(msg) => {
            return Err(HsmtError::Syntax(msg));
        },
    };
    let listed: Vec<(String, mikino_api::expr::Typ)> = declared(&parsed);
    let mut decls: Vec<Var> = Vec::new();
    let mut i: usize = 0;
    while i < listed.len()
        invariant
            i <= listed.len(),
            listed@ == decl_list(parsed),
            decls@.len() == i,
            forall|k: int| 0 <= k < i ==> #[trigger] decls@[k] == decls_of(parsed)[k],
        decreases listed.len() - i,
    {
        decls.push(Var { id: listed[i].0.clone(), sort: sort_of(listed[i].1) });
        i = i + 1;
    }
    assert(decls@ =~= decls_of(parsed));
    let names: Vec<String> = candidate_names(&parsed);
    let mut cands: Vec<Candidate> = Vec::new();
    let mut j: usize = 0;
    while j < names.len()
        invariant
            j <= names.len(),
            names@ == cand_names(parsed),
            hsmt_parse(text@) == Ok::<Parsed, Seq<char>>(parsed),
            cands@.len() == j,
            forall|k: int| 0 <= k < j ==> cand_term(parsed, (#[trigger] names@[k])@) is Some,
            forall|k: int| 0 <= k < j ==> #[trigger] cands@[k] == cands_of(parsed)[k],
        decreases names.len() - j,
    {
        match candidate_of(&parsed, names[j].as_str()) {
            Some(prop) => {
                cands.push(Candidate { name: names[j].clone(), prop });
            },
            None => {
                assert(cand_term(parsed, cand_names(parsed)[j as int]@) is None);
                return Err(HsmtError::Unsupported);
            },
        }
        j = j + 1;
    }
    assert(cands@ =~= cands_of(parsed));
    assert(cands_there(parsed));
    assemble(decls, init_of(&parsed), trans_of(&parsed), cands)
}

} // verus!
