//! Systems read from their text.

use mikino::base::Base;
use mikino::hsmt::{parse, HsmtError};
use mikino::present::write_plain;
use mikino::solver::SatResult;
use mikino::sort::Sort;
use mikino::step::Step;
use mikino::sweep::Request;
use mikino::sys::{Sys, SysError};

const COUNTER: &str = "
svars { cnt: int, }
init { cnt = 0, }
trans { 'cnt = cnt + 1, }
candidates { \"nonneg\": cnt >= 0, }
";

fn plain(sys: &Sys, candidate: &str) -> String {
    let mut out = String::new();
    write_plain(sys.find(candidate).unwrap(), &mut out);
    out
}

fn base_lines(sys: &Sys) -> Vec<String> {
    let mut base = Base::new(sys);
    let mut lines = base.take_lines();
    while base.request() == Request::Answer {
        base.on_answer(SatResult::Unsat).unwrap();
        lines.extend(base.take_lines());
    }
    lines
}

fn step_lines(sys: &Sys) -> Vec<String> {
    let mut step = Step::new(sys);
    let mut lines = step.take_lines();
    while step.request() == Request::Answer {
        step.on_answer(SatResult::Unsat).unwrap();
        lines.extend(step.take_lines());
    }
    lines
}

#[test]
fn the_counter_is_read() {
    let sys = parse(COUNTER).unwrap();
    assert_eq!(sys.get_decls().len(), 1);
    assert_eq!(sys.get_decls()[0].id, "cnt");
    assert_eq!(sys.get_decls()[0].sort, Sort::Int);
    assert_eq!(sys.get_candidates().len(), 1);
    assert_eq!(sys.get_candidates()[0].name, "nonneg");
    assert_eq!(plain(&sys, "nonneg"), "(>= cnt 0)");
    assert_eq!(sys.get_init().to_smt(0), "(= cnt@0 0)");
    // The next state of the text is the current state here, and the
    // current state of the text is the state before.
    assert_eq!(sys.get_trans().to_smt(1), "(= cnt@1 (+ cnt@0 1))");
    assert_eq!(sys.get_trans().to_smt(8), "(= cnt@8 (+ cnt@7 1))");
}

#[test]
fn the_demo_system_is_read_and_checked() {
    let sys = parse(mikino_api::TRANS_DEMO).unwrap();
    let names: Vec<&str> = sys.get_decls().iter().map(|v| v.id.as_str()).collect();
    assert_eq!(names, vec!["cnt", "reset", "stop"]);
    let sorts: Vec<Sort> = sys.get_decls().iter().map(|v| v.sort).collect();
    assert_eq!(sorts, vec![Sort::Int, Sort::Bool, Sort::Bool]);
    let cands: Vec<&str> = sys.get_candidates().iter().map(|c| c.name.as_str()).collect();
    assert_eq!(cands, vec!["cnt is not -7", "cnt is positive", "if reset then cnt is 0"]);
    assert_eq!(plain(&sys, "cnt is not -7"), "(not (= cnt (- 7)))");
    assert_eq!(plain(&sys, "cnt is positive"), "(>= cnt 0)");
    assert_eq!(plain(&sys, "if reset then cnt is 0"), "(=> reset (= cnt 0))");

    assert_eq!(
        base_lines(&sys),
        vec![
            "(set-option :produce-models true)",
            "(declare-const cnt@0 Int)",
            "(declare-const reset@0 Bool)",
            "(declare-const stop@0 Bool)",
            "(assert (and (>= cnt@0 0) (=> reset@0 (= cnt@0 0))))",
            "(push 1)",
            "(assert (not (not (= cnt@0 (- 7)))))",
            "(check-sat)",
            "(pop 1)",
            "(push 1)",
            "(assert (not (>= cnt@0 0)))",
            "(check-sat)",
            "(pop 1)",
            "(push 1)",
            "(assert (not (=> reset@0 (= cnt@0 0))))",
            "(check-sat)",
            "(pop 1)",
            "(exit)",
        ]
    );
    let lines = step_lines(&sys);
    assert_eq!(
        &lines[..11],
        &[
            "(set-option :produce-models true)",
            "(declare-const cnt@0 Int)",
            "(declare-const reset@0 Bool)",
            "(declare-const stop@0 Bool)",
            "(declare-const cnt@1 Int)",
            "(declare-const reset@1 Bool)",
            "(declare-const stop@1 Bool)",
            "(assert (not (= cnt@0 (- 7))))",
            "(assert (>= cnt@0 0))",
            "(assert (=> reset@0 (= cnt@0 0)))",
            "(assert (= cnt@1 (ite reset@1 0 (ite stop@1 cnt@0 (+ cnt@0 1)))))",
        ]
    );
}

#[test]
fn a_text_that_is_no_system_is_refused() {
    match parse("svars { cnt: int, } init { cnt = } ") {
        Err(HsmtError::Syntax(msg)) => assert!(!msg.is_empty()),
        other => panic!("unexpected {:?}", other.map(|_| ())),
    }
}

#[test]
fn a_system_that_is_not_well_formed_is_refused() {
    // The parser takes a chain of comparisons; the operator table takes two
    // operands only.
    let text = "
svars { a b c: int, }
init { a = b, }
trans { 'a = a, 'b = b, 'c = c, }
candidates { \"chain\": (a <= b <= c), }
";
    match parse(text) {
        Err(HsmtError::Refused(e)) => assert_eq!(e, SysError::Candidates),
        other => panic!("unexpected {:?}", other.map(|_| ())),
    }
}

#[test]
fn several_conjuncts_and_primes_are_read() {
    let text = "
svars { a b: int, }
init { a = b, b >= 0, }
trans { 'a = b, 'b = a + 1, }
candidates { \"ordered\": a <= b + 1, }
";
    let sys = parse(text).unwrap();
    assert_eq!(sys.get_init().to_smt(0), "(and (= a@0 b@0) (>= b@0 0))");
    assert_eq!(sys.get_trans().to_smt(5), "(and (= a@5 b@4) (= b@5 (+ a@4 1)))");
    assert_eq!(plain(&sys, "ordered"), "(<= a (+ b 1))");
}

#[test]
fn a_text_that_ends_where_an_error_lies_is_refused() {
    // A line break alone, and a text cut short at the end of a line.
    for text in ["\n", "", " \n\n", "svars { cnt: int, }\n", "svars { cnt: int, }\ninit {\n"] {
        match parse(text) {
            Err(HsmtError::Syntax(msg)) => assert!(!msg.is_empty(), "{:?}", text),
            other => panic!("unexpected {:?} for {:?}", other.map(|_| ()), text),
        }
    }
}

#[test]
fn an_undeclared_variable_is_an_error_of_the_parser() {
    let text = "
svars { cnt: int, }
init { cnt = 0, }
trans { 'cnt = other + 1, }
candidates { \"nonneg\": cnt >= 0, }
";
    match parse(text) {
        Err(HsmtError::Syntax(msg)) => assert!(!msg.is_empty()),
        other => panic!("unexpected {:?}", other.map(|_| ())),
    }
}
