//! Numbers, constants, terms, systems, the driver and counterexamples.

use mikino::cex::{read_symbol, Cex, ModelEntry, Reported};
use mikino::check_res::{CheckRes, Which};
use mikino::cst::Cst;
use mikino::hsmt::{is_plain_line, read_entry, read_value};
use mikino::numeral::{digit_of, read_usize, Numeral};
use mikino::op::{Op, SortError};
use mikino::present::{pad, present_cex, step_label, write_plain};
use mikino::solver::{Driver, Error, SatResult};
use mikino::sort::Sort;
use mikino::sys::{same_text, Candidate, Sys, SysError};
use mikino::term::{Term, Var};

fn text_of(n: &Numeral) -> String {
    let mut out = String::new();
    n.write(&mut out);
    out
}

fn num(i: i64) -> Term {
    Term::cst(Cst::integer(i))
}

fn x() -> Term {
    Term::var("x", Sort::Int)
}

fn flag() -> Term {
    Term::var("b", Sort::Bool)
}

fn truth() -> Term {
    Term::cst(Cst::boolean(true))
}

fn decls() -> Vec<Var> {
    vec![Var::new("x", Sort::Int), Var::new("b", Sort::Bool)]
}

fn x_is(i: i64) -> Term {
    Term::app(Op::Eq, vec![x(), num(i)]).unwrap()
}

fn stays() -> Term {
    Term::app(Op::Eq, vec![x(), Term::pre("x", Sort::Int)]).unwrap()
}

fn small() -> Sys {
    let cands = vec![Candidate::new("zero", x_is(0)), Candidate::new("flag", flag())];
    Sys::new(decls(), x_is(0), stays(), cands).unwrap()
}

#[test]
fn numerals_are_written_in_decimal() {
    assert_eq!(text_of(&Numeral::from_u64(0)), "0");
    assert_eq!(text_of(&Numeral::from_u64(7)), "7");
    assert_eq!(text_of(&Numeral::from_u64(10)), "10");
    assert_eq!(text_of(&Numeral::from_u64(1203)), "1203");
    assert_eq!(text_of(&Numeral::from_u64(u64::MAX)), "18446744073709551615");
    assert!(Numeral::from_u64(0).is_zero());
    assert!(!Numeral::from_u64(10).is_zero());
    assert!(Numeral::from_u64(42).is_wf());
}

#[test]
fn numerals_are_read_from_canonical_text_only() {
    let big = "123456789012345678901234567890";
    assert_eq!(text_of(&Numeral::from_text(big).unwrap()), big);
    assert_eq!(text_of(&Numeral::from_text("0").unwrap()), "0");
    assert!(Numeral::from_text("").is_none());
    assert!(Numeral::from_text("007").is_none());
    assert!(Numeral::from_text("00").is_none());
    assert!(Numeral::from_text("12a").is_none());
    assert!(Numeral::from_text("-1").is_none());
    assert!(Numeral::from_text("+1").is_none());
    assert!(Numeral::from_text("٣").is_none());
    assert!(Numeral::from_text("12").unwrap().same(&Numeral::from_u64(12)));
    assert!(!Numeral::from_text("12").unwrap().same(&Numeral::from_u64(21)));
    assert!(!Numeral::from_text("12").unwrap().same(&Numeral::from_u64(120)));
    assert_eq!(text_of(&Numeral::from_u64(908).duplicate()), "908");
}

#[test]
fn numerals_fit_machine_integers_or_not() {
    assert_eq!(Numeral::from_u64(65535).to_usize(), Some(65535));
    assert_eq!(Numeral::from_text("0").unwrap().to_usize(), Some(0));
    let max = usize::MAX.to_string();
    assert_eq!(Numeral::from_text(&max).unwrap().to_usize(), Some(usize::MAX));
    let beyond = format!("{}0", max);
    assert_eq!(Numeral::from_text(&beyond).unwrap().to_usize(), None);
    assert_eq!(read_usize("11"), Some(11));
    assert_eq!(read_usize("011"), None);
    assert_eq!(read_usize(&beyond), None);
    assert_eq!(digit_of('7'), Some(7));
    assert_eq!(digit_of('a'), None);
}

#[test]
fn constants_are_written_exactly() {
    assert_eq!(Cst::boolean(true).to_text(), "true");
    assert_eq!(Cst::boolean(false).to_text(), "false");
    assert_eq!(Cst::integer(0).to_text(), "0");
    assert_eq!(Cst::integer(17).to_text(), "17");
    assert_eq!(Cst::integer(-1).to_text(), "(- 1)");
    assert_eq!(Cst::integer(i64::MIN).to_text(), "(- 9223372036854775808)");
    assert_eq!(Cst::integer(i64::MAX).to_text(), "9223372036854775807");
    let third = Cst::rat_of(false, Numeral::from_u64(1), Numeral::from_u64(3)).unwrap();
    assert_eq!(third.to_text(), "(/ 1 3)");
    assert_eq!(third.get_sort(), Sort::Rat);
    let minus = Cst::rat_of(true, Numeral::from_u64(22), Numeral::from_u64(7)).unwrap();
    assert_eq!(minus.to_text(), "(- (/ 22 7))");
    assert_eq!(minus.duplicate().to_text(), "(- (/ 22 7))");
    assert_eq!(Cst::integer(5).get_sort(), Sort::Int);
    assert_eq!(Cst::boolean(true).get_sort(), Sort::Bool);
}

#[test]
fn malformed_constants_are_refused() {
    assert!(Cst::rat_of(false, Numeral::from_u64(1), Numeral::from_u64(0)).is_none());
    assert!(Cst::rat_of(true, Numeral::from_u64(0), Numeral::from_u64(2)).is_none());
    assert!(Cst::rat_of(false, Numeral::from_u64(0), Numeral::from_u64(2)).is_some());
    assert!(Cst::int_of(true, Numeral::from_u64(0)).is_none());
    assert!(Cst::int_of(false, Numeral::from_u64(0)).is_some());
    assert_eq!(Cst::int_of(true, Numeral::from_u64(4)).unwrap().to_text(), "(- 4)");
}

#[test]
fn constants_are_compared_as_written() {
    assert!(Cst::integer(3).same(&Cst::integer(3)));
    assert!(!Cst::integer(3).same(&Cst::integer(-3)));
    assert!(!Cst::integer(1).same(&Cst::boolean(true)));
    assert!(Cst::boolean(false).same(&Cst::boolean(false)));
    let half = || Cst::rat_of(false, Numeral::from_u64(1), Numeral::from_u64(2)).unwrap();
    let two_quarters = Cst::rat_of(false, Numeral::from_u64(2), Numeral::from_u64(4)).unwrap();
    assert!(half().same(&half()));
    assert!(!half().same(&two_quarters));
}

#[test]
fn sorts_and_operators_have_their_names() {
    assert_eq!(Sort::Bool.smt_str(), "Bool");
    assert_eq!(Sort::Int.smt_str(), "Int");
    assert_eq!(Sort::Rat.smt_str(), "Real");
    assert!(!Sort::Bool.is_arith());
    assert!(Sort::Int.is_arith());
    assert!(Sort::Rat.is_arith());
    let table = [
        (Op::And, "and"),
        (Op::Or, "or"),
        (Op::Not, "not"),
        (Op::Implies, "=>"),
        (Op::Eq, "="),
        (Op::Add, "+"),
        (Op::Sub, "-"),
        (Op::Mul, "*"),
        (Op::IDiv, "div"),
        (Op::Mod, "mod"),
        (Op::Div, "/"),
        (Op::Lt, "<"),
        (Op::Le, "<="),
        (Op::Ge, ">="),
        (Op::Gt, ">"),
    ];
    for (op, name) in table {
        assert_eq!(op.smt_str(), name);
        assert_eq!(Op::of_name(name), Some(op));
    }
    assert_eq!(Op::of_name("%"), Some(Op::Mod));
    assert_eq!(Op::of_name("ite"), None);
    assert_eq!(Op::of_name("add"), None);
}

#[test]
fn operators_have_their_arities() {
    for op in [Op::And, Op::Or, Op::Add, Op::Sub, Op::Mul] {
        assert!(!op.takes(0));
        assert!(op.takes(1));
        assert!(op.takes(5));
    }
    assert!(Op::Not.takes(1));
    assert!(!Op::Not.takes(2));
    assert!(!Op::Implies.takes(1));
    assert!(Op::Implies.takes(2));
    assert!(Op::Implies.takes(3));
    for op in [Op::Eq, Op::IDiv, Op::Mod, Op::Div, Op::Lt, Op::Le, Op::Ge, Op::Gt] {
        assert!(!op.takes(1));
        assert!(op.takes(2));
        assert!(!op.takes(3));
    }
}

#[test]
fn operators_are_typed_as_in_the_table() {
    assert_eq!(Op::And.type_check(&vec![Sort::Bool, Sort::Bool, Sort::Bool]), Ok(Sort::Bool));
    assert_eq!(Op::And.type_check(&vec![Sort::Bool, Sort::Int]), Err(SortError::Operand));
    assert_eq!(Op::And.type_check(&vec![]), Err(SortError::Arity));
    assert_eq!(Op::Not.type_check(&vec![Sort::Bool]), Ok(Sort::Bool));
    assert_eq!(Op::Not.type_check(&vec![Sort::Bool, Sort::Bool]), Err(SortError::Arity));
    assert_eq!(Op::Implies.type_check(&vec![Sort::Bool]), Err(SortError::Arity));
    assert_eq!(Op::Eq.type_check(&vec![Sort::Int, Sort::Int]), Ok(Sort::Bool));
    assert_eq!(Op::Eq.type_check(&vec![Sort::Bool, Sort::Bool]), Ok(Sort::Bool));
    assert_eq!(Op::Eq.type_check(&vec![Sort::Rat, Sort::Rat]), Ok(Sort::Bool));
    assert_eq!(Op::Eq.type_check(&vec![Sort::Int, Sort::Rat]), Err(SortError::Operand));
    assert_eq!(Op::Eq.type_check(&vec![Sort::Int, Sort::Int, Sort::Int]), Err(SortError::Arity));
    assert_eq!(Op::Add.type_check(&vec![Sort::Int, Sort::Int, Sort::Int]), Ok(Sort::Int));
    assert_eq!(Op::Add.type_check(&vec![Sort::Rat]), Ok(Sort::Rat));
    assert_eq!(Op::Sub.type_check(&vec![Sort::Int]), Ok(Sort::Int));
    assert_eq!(Op::Mul.type_check(&vec![Sort::Bool, Sort::Bool]), Err(SortError::Operand));
    assert_eq!(Op::Add.type_check(&vec![Sort::Int, Sort::Rat]), Err(SortError::Operand));
    assert_eq!(Op::IDiv.type_check(&vec![Sort::Int, Sort::Int]), Ok(Sort::Int));
    assert_eq!(Op::Mod.type_check(&vec![Sort::Int, Sort::Int]), Ok(Sort::Int));
    assert_eq!(Op::Mod.type_check(&vec![Sort::Rat, Sort::Rat]), Err(SortError::Operand));
    assert_eq!(Op::Div.type_check(&vec![Sort::Rat, Sort::Rat]), Ok(Sort::Rat));
    assert_eq!(Op::Div.type_check(&vec![Sort::Int, Sort::Int]), Err(SortError::Operand));
    for op in [Op::Lt, Op::Le, Op::Ge, Op::Gt] {
        assert_eq!(op.type_check(&vec![Sort::Int, Sort::Int]), Ok(Sort::Bool));
        assert_eq!(op.type_check(&vec![Sort::Rat, Sort::Rat]), Ok(Sort::Bool));
        assert_eq!(op.type_check(&vec![Sort::Bool, Sort::Bool]), Err(SortError::Operand));
        assert_eq!(op.type_check(&vec![Sort::Int, Sort::Rat]), Err(SortError::Operand));
    }
}

#[test]
fn terms_are_checked_when_they_are_built() {
    assert_eq!(Term::app(Op::Not, vec![x()]).unwrap_err(), SortError::Operand);
    assert_eq!(Term::app(Op::Not, vec![]).unwrap_err(), SortError::Arity);
    assert_eq!(Term::app(Op::Lt, vec![x()]).unwrap_err(), SortError::Arity);
    assert_eq!(Term::ite(x(), x(), x()).unwrap_err(), SortError::Operand);
    assert_eq!(Term::ite(flag(), x(), flag()).unwrap_err(), SortError::Operand);
    let choice = Term::ite(flag(), x(), num(2)).unwrap();
    assert_eq!(choice.get_sort(), Sort::Int);
    assert_eq!(choice.check_sorts(), Some(Sort::Int));
    let sum = Term::app(Op::Add, vec![choice, num(1)]).unwrap();
    assert_eq!(sum.get_sort(), Sort::Int);
    let cmp = Term::app(Op::Le, vec![sum, x()]).unwrap();
    assert_eq!(cmp.get_sort(), Sort::Bool);
    // A term put together by hand is found out.
    let bad = Term::App(Op::And, vec![x(), flag()]);
    assert_eq!(bad.check_sorts(), None);
    let nested = Term::App(Op::Not, vec![Term::App(Op::Not, vec![num(1)])]);
    assert_eq!(nested.check_sorts(), None);
}

#[test]
fn terms_are_written_under_a_state_index() {
    assert_eq!(x().to_smt(0), "x@0");
    assert_eq!(x().to_smt(12), "x@12");
    assert_eq!(Term::pre("x", Sort::Int).to_smt(1), "x@0");
    assert_eq!(Term::pre("x", Sort::Int).to_smt(100), "x@99");
    assert_eq!(num(-3).to_smt(4), "(- 3)");
    assert_eq!(truth().to_smt(0), "true");
    let t = Term::app(
        Op::Implies,
        vec![flag(), Term::app(Op::Ge, vec![x(), Term::pre("x", Sort::Int)]).unwrap(), truth()],
    )
    .unwrap();
    assert_eq!(t.to_smt(3), "(=> b@3 (>= x@3 x@2) true)");
    let neg = Term::app(Op::Sub, vec![x()]).unwrap();
    assert_eq!(neg.to_smt(0), "(- x@0)");
    let ite = Term::ite(flag(), x(), neg).unwrap();
    assert_eq!(ite.to_smt(7), "(ite b@7 x@7 (- x@7))");
    let mut plain = String::new();
    write_plain(&t, &mut plain);
    assert_eq!(plain, "(=> b (>= x (pre x)) true)");
}

#[test]
fn terms_know_what_they_mention() {
    assert!(!x().mentions_pre());
    assert!(Term::pre("x", Sort::Int).mentions_pre());
    assert!(stays().mentions_pre());
    assert!(!x_is(3).mentions_pre());
    assert!(Term::ite(flag(), stays(), truth()).unwrap().mentions_pre());
    assert!(x_is(1).is_closed_under(&decls()));
    assert!(stays().is_closed_under(&decls()));
    assert!(!Term::var("y", Sort::Int).is_closed_under(&decls()));
    // A variable must be used with the sort it was declared with.
    assert!(!Term::var("x", Sort::Bool).is_closed_under(&decls()));
    assert!(num(1).is_closed_under(&vec![]));
}

#[test]
fn systems_are_checked_when_they_are_built() {
    let ok = |r: Result<Sys, SysError>| r.map(|_| ());
    assert_eq!(ok(Sys::new(decls(), x_is(0), stays(), vec![])), Ok(()));
    let twice = vec![Var::new("x", Sort::Int), Var::new("x", Sort::Bool)];
    assert_eq!(ok(Sys::new(twice, truth(), truth(), vec![])), Err(SysError::Decls));
    let nameless = vec![Var::new("", Sort::Int)];
    assert_eq!(ok(Sys::new(nameless, truth(), truth(), vec![])), Err(SysError::Decls));
    assert_eq!(ok(Sys::new(decls(), stays(), stays(), vec![])), Err(SysError::Init));
    assert_eq!(ok(Sys::new(decls(), x(), stays(), vec![])), Err(SysError::Init));
    let y = Term::var("y", Sort::Bool);
    assert_eq!(ok(Sys::new(decls(), y, stays(), vec![])), Err(SysError::Init));
    assert_eq!(ok(Sys::new(decls(), x_is(0), num(1), vec![])), Err(SysError::Trans));
    let bad = Term::App(Op::Not, vec![x()]);
    assert_eq!(ok(Sys::new(decls(), x_is(0), bad, vec![])), Err(SysError::Trans));
    let with_pre = vec![Candidate::new("p", stays())];
    assert_eq!(ok(Sys::new(decls(), x_is(0), stays(), with_pre)), Err(SysError::Candidates));
    let not_bool = vec![Candidate::new("p", x())];
    assert_eq!(ok(Sys::new(decls(), x_is(0), stays(), not_bool)), Err(SysError::Candidates));
    let same_name = vec![Candidate::new("p", x_is(0)), Candidate::new("p", x_is(1))];
    assert_eq!(ok(Sys::new(decls(), x_is(0), stays(), same_name)), Err(SysError::Candidates));
    // The first reason is given.
    let all_wrong = vec![Var::new("", Sort::Int)];
    assert_eq!(ok(Sys::new(all_wrong, x(), x(), vec![])), Err(SysError::Decls));
    assert!(!SysError::Init.describe().is_empty());
}

#[test]
fn systems_hand_out_their_parts() {
    let sys = small();
    assert_eq!(sys.get_decls().len(), 2);
    assert_eq!(sys.get_init().to_smt(0), "(= x@0 0)");
    assert_eq!(sys.get_trans().to_smt(1), "(= x@1 x@0)");
    assert_eq!(sys.get_candidates()[1].name, "flag");
    assert_eq!(sys.find("zero").unwrap().to_smt(2), "(= x@2 0)");
    assert!(sys.find("none").is_none());
    assert_eq!(sys.max_id_len(), 1);
    let wide = Sys::new(
        vec![Var::new("a", Sort::Int), Var::new("counter", Sort::Int), Var::new("éé", Sort::Int)],
        truth(),
        truth(),
        vec![],
    )
    .unwrap();
    assert_eq!(wide.max_id_len(), 7);
    assert!(same_text("abc", "abc"));
    assert!(!same_text("abc", "abd"));
    assert!(!same_text("abc", "ab"));
}

#[test]
fn the_driver_writes_the_script() {
    let mut d = Driver::new();
    assert_eq!(d.take_lines(), vec!["(set-option :produce-models true)"]);
    assert!(d.take_lines().is_empty());
    assert!(!d.is_declared(0));
    d.declare_vars(&decls(), 0);
    assert!(d.is_declared(0));
    assert!(!d.is_declared(1));
    assert_eq!(d.take_lines(), vec!["(declare-const x@0 Int)", "(declare-const b@0 Bool)"]);
    // At most once for each state index.
    d.declare_vars(&decls(), 0);
    assert!(d.take_lines().is_empty());
    d.assert_term(&x_is(4), 0);
    d.declare_vars(&decls(), 1);
    d.assert_term(&stays(), 1);
    d.assert_not(&flag(), 1);
    d.check_sat();
    d.get_values(&decls(), 1);
    d.close();
    assert_eq!(
        d.take_lines(),
        vec![
            "(assert (= x@0 4))",
            "(declare-const x@1 Int)",
            "(declare-const b@1 Bool)",
            "(assert (= x@1 x@0))",
            "(assert (not b@1))",
            "(check-sat)",
            "(get-value (x@0 b@0 x@1 b@1))",
            "(exit)",
        ]
    );
}

#[test]
fn frames_take_their_declarations_with_them() {
    let mut d = Driver::new();
    d.declare_vars(&decls(), 0);
    assert_eq!(d.get_depth(), 0);
    assert_eq!(d.pop(), Err(Error::UnbalancedPop));
    d.push();
    assert_eq!(d.get_depth(), 1);
    d.declare_vars(&decls(), 1);
    d.push();
    d.declare_vars(&decls(), 2);
    assert!(d.is_declared(0) && d.is_declared(1) && d.is_declared(2));
    assert_eq!(d.pop(), Ok(()));
    assert!(d.is_declared(1) && !d.is_declared(2));
    assert_eq!(d.pop(), Ok(()));
    assert!(d.is_declared(0) && !d.is_declared(1));
    assert_eq!(d.get_depth(), 0);
    let _ = d.take_lines();
    // An unbalanced pop writes nothing.
    assert_eq!(d.pop(), Err(Error::UnbalancedPop));
    assert!(d.take_lines().is_empty());
    // What was declared in a frame that is gone is declared again.
    d.declare_vars(&decls(), 1);
    assert_eq!(d.take_lines().len(), 2);
}

#[test]
fn the_answers_of_the_solver_are_read() {
    assert_eq!(SatResult::parse("sat"), Ok(SatResult::Sat));
    assert_eq!(SatResult::parse("unsat"), Ok(SatResult::Unsat));
    assert_eq!(SatResult::parse("unknown"), Ok(SatResult::Unknown));
    assert_eq!(SatResult::parse("timeout"), Err(Error::UnexpectedReply));
    assert_eq!(SatResult::parse(""), Err(Error::UnexpectedReply));
    assert_eq!(SatResult::parse("sat "), Err(Error::UnexpectedReply));
    assert_eq!(SatResult::of(Some(true)), SatResult::Sat);
    assert_eq!(SatResult::of(Some(false)), SatResult::Unsat);
    assert_eq!(SatResult::of(None), SatResult::Unknown);
    for e in [
        Error::UnexpectedReply,
        Error::UnbalancedPop,
        Error::OutOfTurn,
        Error::DifferentSystems,
        Error::UnknownCandidate,
        Error::AlreadyFalsified,
        Error::TooDeep,
    ] {
        assert!(!e.describe().is_empty());
    }
}

#[test]
fn symbols_are_taken_apart() {
    assert_eq!(read_symbol("cnt@0"), ("cnt".to_string(), Some(0)));
    assert_eq!(read_symbol("cnt@17"), ("cnt".to_string(), Some(17)));
    assert_eq!(read_symbol("cnt"), ("cnt".to_string(), None));
    assert_eq!(read_symbol("cnt@"), ("cnt".to_string(), None));
    assert_eq!(read_symbol("cnt@x"), ("cnt".to_string(), None));
    assert_eq!(read_symbol("cnt@01"), ("cnt".to_string(), None));
    assert_eq!(read_symbol("a@3@4"), ("a".to_string(), Some(3)));
    assert_eq!(read_symbol("@3"), ("".to_string(), Some(3)));
    assert_eq!(read_symbol(""), ("".to_string(), None));
    assert_eq!(read_symbol("é@2"), ("é".to_string(), Some(2)));
}

#[test]
fn values_are_read_with_the_constant_parser() {
    match read_value("42") {
        Reported::Value(c) => assert_eq!(c.to_text(), "42"),
        other => panic!("unexpected {:?}", other),
    }
    match read_value("false") {
        Reported::Value(c) => assert_eq!(c.to_text(), "false"),
        other => panic!("unexpected {:?}", other),
    }
    match read_value("(let ((a 1)) a)") {
        Reported::Other(t) => assert_eq!(t, "(let ((a 1)) a)"),
        other => panic!("unexpected {:?}", other),
    }
    // A constant in parentheses, as the solver writes a negative number.
    match read_value("(- 5)") {
        Reported::Value(c) => assert_eq!(c.to_text(), "(- 5)"),
        other => panic!("unexpected {:?}", other),
    }
    match read_value("(/ 1 3)") {
        Reported::Value(c) => assert_eq!(c.to_text(), "(/ 1 3)"),
        other => panic!("unexpected {:?}", other),
    }
    // Texts that are not on one line in ASCII are kept as they are.
    for text in ["\u{663}", "\u{b2}", "1\u{663}", "(/ 1 2\n", "(/ 1 0)\n", "7\n", "é"] {
        assert!(!is_plain_line(text));
        match read_value(text) {
            Reported::Other(t) => assert_eq!(t, text),
            other => panic!("unexpected {:?}", other),
        }
    }
    assert!(is_plain_line(""));
    assert!(is_plain_line("(- 5)\t\r"));
    // A rational that divides by zero, and one that is cut short.
    for text in ["(/ 1 0)", "(/ 1 2", ""] {
        match read_value(text) {
            Reported::Other(t) => assert_eq!(t, text),
            other => panic!("unexpected {:?}", other),
        }
    }
    let e = read_entry("cnt", "7");
    assert_eq!(e.step, None);
    let e = read_entry("cnt@3", "7");
    assert_eq!(e.name, "cnt");
    assert_eq!(e.step, Some(3));
    assert!(matches!(e.value, Reported::Value(_)));
}

#[test]
fn a_model_becomes_a_trace() {
    let model = vec![
        ModelEntry::value("x", Some(1), Cst::integer(5)),
        ModelEntry::value("b", Some(0), Cst::boolean(true)),
        // Not declared.
        ModelEntry::value("y", Some(0), Cst::integer(1)),
        // Not of the declared sort.
        ModelEntry::value("b", Some(1), Cst::integer(1)),
        // Not a state of the trace.
        ModelEntry::value("x", Some(2), Cst::integer(9)),
        // No state index.
        ModelEntry::value("x", None, Cst::integer(-2)),
        // Bound already.
        ModelEntry::value("x", Some(1), Cst::integer(6)),
        // Not a constant.
        ModelEntry::other("x", Some(0), "(+ 1 1)"),
        ModelEntry::value("x", Some(0), Cst::integer(4)),
    ];
    let cex = Cex::extract(&decls(), 2, &model);
    assert_eq!(cex.len(), 2);
    assert_eq!(cex.trace[0].step, 0);
    assert_eq!(cex.trace[1].step, 1);
    let names = |s: usize| -> Vec<&str> {
        cex.trace[s].values.iter().map(|b| b.var.as_str()).collect()
    };
    assert_eq!(names(0), vec!["b", "x"]);
    assert_eq!(names(1), vec!["x"]);
    assert_eq!(cex.trace[0].get("x").unwrap().to_text(), "4");
    assert_eq!(cex.trace[0].get("b").unwrap().to_text(), "true");
    assert_eq!(cex.trace[1].get("x").unwrap().to_text(), "5");
    assert!(cex.trace[1].get("b").is_none());
    let unexpected: Vec<(&str, &str)> =
        cex.unexpected.iter().map(|n| (n.what.as_str(), n.value.as_str())).collect();
    assert_eq!(
        unexpected,
        vec![
            ("y@0", "1"),
            ("b@1", "1"),
            ("x@2", "9"),
            ("x", "(- 2)"),
            ("x@1", "6"),
            ("x@0", "(+ 1 1)"),
        ]
    );
    // Every value in the trace has the sort declared for its variable.
    for state in &cex.trace {
        for b in &state.values {
            let decl = decls().into_iter().find(|v| v.id == b.var).unwrap();
            assert_eq!(decl.sort, b.value.get_sort());
        }
    }
    let copy = cex.duplicate();
    assert_eq!(copy.len(), 2);
    assert_eq!(copy.unexpected.len(), 6);
    assert_eq!(copy.trace[1].get("x").unwrap().to_text(), "5");
}

#[test]
fn an_empty_model_gives_empty_states() {
    let cex = Cex::extract(&decls(), 3, &vec![]);
    assert_eq!(cex.len(), 3);
    assert!(cex.trace.iter().all(|s| s.values.is_empty()));
    assert!(cex.unexpected.is_empty());
    let none = Cex::inconclusive();
    assert_eq!(none.len(), 0);
    assert_eq!(none.unexpected[0].what, "check-sat");
}

#[test]
fn falsifications_are_registered_once() {
    let sys = small();
    let mut res = CheckRes::new(&sys);
    assert_eq!(res.len(), 2);
    assert_eq!(res.name_at(1), "flag");
    assert_eq!(res.position("flag"), Some(1));
    assert_eq!(res.position("none"), None);
    assert!(res.is_okay("zero") && res.is_okay("flag"));
    assert!(!res.is_okay("none"));
    assert!(!res.has_falsifications());
    assert!(!res.all_falsified());
    let cex = || Cex::extract(sys.get_decls(), 1, &vec![]);
    assert_eq!(res.register_falsification("none", cex()), Err(Error::UnknownCandidate));
    assert_eq!(res.register_falsification("flag", cex()), Ok(()));
    assert_eq!(res.register_falsification("flag", cex()), Err(Error::AlreadyFalsified));
    assert!(res.is_okay("zero") && !res.is_okay("flag"));
    assert!(res.cex("flag").is_some() && res.cex("zero").is_none());
    assert!(res.has_falsifications());
    assert!(!res.all_falsified());
    assert_eq!(res.names_where(Which::Okay), vec!["zero"]);
    assert_eq!(res.names_where(Which::Falsified), vec!["flag"]);
    assert_eq!(res.register_falsification("zero", cex()), Ok(()));
    assert!(res.all_falsified());
    assert!(res.nothing_pending());
    let copy = res.duplicate();
    assert!(copy.same_candidates(&res));
    assert_eq!(copy.names_where(Which::Falsified), vec!["zero", "flag"]);
}

#[test]
fn counterexamples_are_laid_out() {
    let sys = Sys::new(
        vec![Var::new("cnt", Sort::Int), Var::new("b", Sort::Bool)],
        truth(),
        truth(),
        vec![Candidate::new(
            "small",
            Term::app(Op::Le, vec![Term::var("cnt", Sort::Int), num(10)]).unwrap(),
        )],
    )
    .unwrap();
    let model = vec![
        ModelEntry::value("cnt", Some(0), Cst::integer(10)),
        ModelEntry::value("b", Some(0), Cst::boolean(false)),
        ModelEntry::value("cnt", Some(1), Cst::integer(-11)),
        ModelEntry::other("div0", None, "(lambda)"),
    ];
    let cex = Cex::extract(sys.get_decls(), 2, &model);
    let page = present_cex(&sys, "small", &cex, false).unwrap();
    assert_eq!(page.candidate, "small");
    assert_eq!(page.definition, "(<= cnt 10)");
    assert_eq!(page.blocks.len(), 2);
    assert_eq!(page.blocks[0].label, "k");
    assert_eq!(page.blocks[1].label, "k + 1");
    let rows: Vec<(&str, &str)> =
        page.blocks[0].rows.iter().map(|r| (r.var.as_str(), r.value.as_str())).collect();
    assert_eq!(rows, vec![("cnt", "10"), ("  b", "false")]);
    assert_eq!(page.blocks[1].rows[0].value, "(- 11)");
    assert_eq!(page.unexpected.len(), 1);
    assert_eq!(page.unexpected[0].var, "div0");
    assert_eq!(page.unexpected[0].value, "(lambda)");
    let page = present_cex(&sys, "small", &cex, true).unwrap();
    assert_eq!(page.blocks[0].label, "0");
    assert_eq!(page.blocks[1].label, "1");
    assert_eq!(present_cex(&sys, "big", &cex, true).unwrap_err(), Error::UnknownCandidate);
}

#[test]
fn labels_and_columns() {
    assert_eq!(step_label(0, true), "0");
    assert_eq!(step_label(12, true), "12");
    assert_eq!(step_label(0, false), "k");
    assert_eq!(step_label(1, false), "k + 1");
    assert_eq!(step_label(20, false), "k + 20");
    assert_eq!(pad("ab", 5), "   ab");
    assert_eq!(pad("ab", 2), "ab");
    assert_eq!(pad("abc", 1), "abc");
    assert_eq!(pad("", 2), "  ");
    assert_eq!(pad("é", 3), "  é");
}
