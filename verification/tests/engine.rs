//! The checks, run against a scripted solver.

use mikino::base::Base;
use mikino::bmc::Bmc;
use mikino::cex::ModelEntry;
use mikino::check_res::{BaseRes, CheckRes, StepRes, Which};
use mikino::cst::Cst;
use mikino::op::Op;
use mikino::report::{
    bmc_seed, bmc_verdict, fresh_falsifications, induction_report, search_goes_on, Verdict,
};
use mikino::solver::{Error, SatResult};
use mikino::sort::Sort;
use mikino::step::Step;
use mikino::sweep::Request;
use mikino::sys::{Candidate, Sys};
use mikino::term::{Term, Var};

fn num(i: i64) -> Term {
    Term::cst(Cst::integer(i))
}

fn cnt() -> Term {
    Term::var("cnt", Sort::Int)
}

fn app(op: Op, args: Vec<Term>) -> Term {
    Term::app(op, args).unwrap()
}

/// `cnt = (pre cnt) + 1`
fn increment() -> Term {
    app(Op::Eq, vec![cnt(), app(Op::Add, vec![Term::pre("cnt", Sort::Int), num(1)])])
}

fn counter(init: Term, cands: Vec<Candidate>) -> Sys {
    Sys::new(vec![Var::new("cnt", Sort::Int)], init, increment(), cands).unwrap()
}

fn nonneg() -> Candidate {
    Candidate::new("nonneg", app(Op::Ge, vec![cnt(), num(0)]))
}

fn le10() -> Candidate {
    Candidate::new("le10", app(Op::Le, vec![cnt(), num(10)]))
}

fn starts_at(i: i64) -> Term {
    app(Op::Eq, vec![cnt(), num(i)])
}

fn stopwatch() -> Sys {
    let stop = || Term::var("stop", Sort::Bool);
    let reset = || Term::var("reset", Sort::Bool);
    let cnt_is_0 = || app(Op::Eq, vec![cnt(), num(0)]);
    let init = app(
        Op::And,
        vec![app(Op::Ge, vec![cnt(), num(0)]), app(Op::Implies, vec![reset(), cnt_is_0()])],
    );
    let keep = app(Op::Eq, vec![cnt(), Term::pre("cnt", Sort::Int)]);
    let trans = Term::ite(reset(), cnt_is_0(), Term::ite(stop(), keep, increment()).unwrap())
        .unwrap();
    let cands = vec![
        Candidate::new("positive", app(Op::Ge, vec![cnt(), num(0)])),
        Candidate::new("not -7", app(Op::Not, vec![app(Op::Eq, vec![cnt(), num(-7)])])),
        Candidate::new("reset→0", app(Op::Implies, vec![reset(), cnt_is_0()])),
    ];
    let decls = vec![
        Var::new("stop", Sort::Bool),
        Var::new("reset", Sort::Bool),
        Var::new("cnt", Sort::Int),
    ];
    Sys::new(decls, init, trans, cands).unwrap()
}

/// A solver that answers from a script, and keeps count of its frames.
struct Scripted {
    answers: Vec<SatResult>,
    models: Vec<Vec<ModelEntry>>,
    next_answer: usize,
    next_model: usize,
    depth: i64,
    deepest: i64,
    log: Vec<String>,
}

impl Scripted {
    fn new(answers: Vec<SatResult>, models: Vec<Vec<ModelEntry>>) -> Scripted {
        Scripted { answers, models, next_answer: 0, next_model: 0, depth: 0, deepest: 0, log: vec![] }
    }

    fn send(&mut self, lines: Vec<String>) {
        for line in lines {
            if line == "(push 1)" {
                self.depth += 1;
            }
            if line == "(pop 1)" {
                self.depth -= 1;
            }
            assert!(self.depth >= 0, "a frame was popped that was never pushed");
            if self.depth > self.deepest {
                self.deepest = self.depth;
            }
            self.log.push(line);
        }
    }

    fn answer(&mut self) -> SatResult {
        let a = self.answers[self.next_answer];
        self.next_answer += 1;
        a
    }

    fn model(&mut self) -> &Vec<ModelEntry> {
        let m = &self.models[self.next_model];
        self.next_model += 1;
        m
    }
}

fn run_base(sys: &Sys, solver: &mut Scripted) -> BaseRes {
    let mut base = Base::new(sys);
    loop {
        solver.send(base.take_lines());
        match base.request() {
            Request::Answer => {
                let a = solver.answer();
                base.on_answer(a).unwrap();
            }
            Request::Model => {
                base.on_model(solver.model()).unwrap();
            }
            Request::Done => break,
        }
    }
    assert!(base.is_over());
    base.finish().unwrap()
}

fn run_step(sys: &Sys, solver: &mut Scripted) -> StepRes {
    let mut step = Step::new(sys);
    loop {
        solver.send(step.take_lines());
        match step.request() {
            Request::Answer => {
                let a = solver.answer();
                step.on_answer(a).unwrap();
            }
            Request::Model => {
                step.on_model(solver.model()).unwrap();
            }
            Request::Done => break,
        }
    }
    assert!(step.is_over());
    step.finish().unwrap()
}

/// Runs bounded model checking as the front end does: as long as a
/// candidate is pending and the depth does not exceed `max`.
fn run_bmc(sys: &Sys, seed: CheckRes, max: Option<usize>, solver: &mut Scripted) -> CheckRes {
    let mut bmc = Bmc::new(sys, seed).unwrap();
    solver.send(bmc.take_lines());
    while search_goes_on(&bmc, max) {
        let mut request = bmc.next_check().unwrap();
        loop {
            solver.send(bmc.take_lines());
            request = match request {
                Request::Answer => {
                    let a = solver.answer();
                    bmc.on_answer(a).unwrap()
                }
                Request::Model => bmc.on_model(solver.model()).unwrap(),
                Request::Done => break,
            };
        }
    }
    bmc.close().unwrap();
    solver.send(bmc.take_lines());
    bmc.destroy()
}

fn texts(names: Vec<String>) -> Vec<String> {
    names
}

fn value_of(res: &CheckRes, candidate: &str, step: usize, var: &str) -> String {
    let cex = res.cex(candidate).unwrap();
    cex.trace[step].get(var).unwrap().to_text()
}

fn entry(name: &str, step: usize, value: i64) -> ModelEntry {
    ModelEntry::value(name, Some(step), Cst::integer(value))
}

#[test]
fn base_script_of_the_safe_counter() {
    let sys = counter(starts_at(0), vec![nonneg()]);
    let mut solver = Scripted::new(vec![SatResult::Unsat], vec![]);
    let _ = run_base(&sys, &mut solver);
    assert_eq!(
        solver.log,
        vec![
            "(set-option :produce-models true)",
            "(declare-const cnt@0 Int)",
            "(assert (= cnt@0 0))",
            "(push 1)",
            "(assert (not (>= cnt@0 0)))",
            "(check-sat)",
            "(pop 1)",
            "(exit)",
        ]
    );
}

#[test]
fn step_script_of_the_safe_counter() {
    let sys = counter(starts_at(0), vec![nonneg()]);
    let mut solver = Scripted::new(vec![SatResult::Unsat], vec![]);
    let _ = run_step(&sys, &mut solver);
    assert_eq!(
        solver.log,
        vec![
            "(set-option :produce-models true)",
            "(declare-const cnt@0 Int)",
            "(declare-const cnt@1 Int)",
            "(assert (>= cnt@0 0))",
            "(assert (= cnt@1 (+ cnt@0 1)))",
            "(push 1)",
            "(assert (not (>= cnt@1 0)))",
            "(check-sat)",
            "(pop 1)",
            "(exit)",
        ]
    );
}

#[test]
fn trivial_safe_counter() {
    let sys = counter(starts_at(0), vec![nonneg()]);
    let base = run_base(&sys, &mut Scripted::new(vec![SatResult::Unsat], vec![]));
    let step = run_step(&sys, &mut Scripted::new(vec![SatResult::Unsat], vec![]));
    assert_eq!(texts(base.as_inner().names_where(Which::Okay)), vec!["nonneg"]);
    assert_eq!(texts(step.as_inner().names_where(Which::Okay)), vec!["nonneg"]);
    assert!(!base.as_inner().has_falsifications());
    assert!(!step.as_inner().has_falsifications());
    let report = induction_report(&base, &step).unwrap();
    assert_eq!(report.verdict, Verdict::Safe);
    // Everything is discharged: nothing is left for bounded model checking.
    let seed = bmc_seed(&base, Some(&step)).unwrap();
    assert!(seed.nothing_pending());
    let bmc = Bmc::new(&sys, seed).unwrap();
    assert!(bmc.is_done());
    assert!(!search_goes_on(&bmc, None));
}

#[test]
fn trivial_unsafe_init() {
    let sys = counter(starts_at(-1), vec![nonneg()]);
    let mut solver = Scripted::new(vec![SatResult::Sat], vec![vec![entry("cnt", 0, -1)]]);
    let base = run_base(&sys, &mut solver);
    assert!(solver.log.contains(&"(assert (= cnt@0 (- 1)))".to_string()));
    assert!(solver.log.contains(&"(get-value (cnt@0))".to_string()));
    assert!(!base.as_inner().is_okay("nonneg"));
    assert_eq!(texts(base.as_inner().names_where(Which::Falsified)), vec!["nonneg"]);
    let cex = base.as_inner().cex("nonneg").unwrap();
    assert_eq!(cex.len(), 1);
    assert_eq!(cex.trace[0].step, 0);
    assert_eq!(cex.trace[0].values.len(), 1);
    assert_eq!(value_of(base.as_inner(), "nonneg", 0, "cnt"), "(- 1)");
    assert!(cex.unexpected.is_empty());
    // The step check may still prove the candidate inductive.
    let step = run_step(&sys, &mut Scripted::new(vec![SatResult::Unsat], vec![]));
    assert!(step.as_inner().is_okay("nonneg"));
    let report = induction_report(&base, &step).unwrap();
    assert_eq!(report.verdict, Verdict::Unsafe);
    assert_eq!(report.not_initial, vec!["nonneg"]);
    assert!(report.not_inductive.is_empty());
}

#[test]
fn non_inductive_but_safe() {
    let sys = counter(starts_at(0), vec![le10()]);
    let base = run_base(&sys, &mut Scripted::new(vec![SatResult::Unsat], vec![]));
    assert_eq!(texts(base.as_inner().names_where(Which::Okay)), vec!["le10"]);
    let mut solver =
        Scripted::new(vec![SatResult::Sat], vec![vec![entry("cnt", 0, 10), entry("cnt", 1, 11)]]);
    let step = run_step(&sys, &mut solver);
    assert!(solver.log.contains(&"(get-value (cnt@0 cnt@1))".to_string()));
    assert_eq!(texts(step.as_inner().names_where(Which::Falsified)), vec!["le10"]);
    assert_eq!(step.as_inner().cex("le10").unwrap().len(), 2);
    assert_eq!(value_of(step.as_inner(), "le10", 0, "cnt"), "10");
    assert_eq!(value_of(step.as_inner(), "le10", 1, "cnt"), "11");
    let report = induction_report(&base, &step).unwrap();
    assert_eq!(report.verdict, Verdict::MightBeUnsafe);
    assert_eq!(report.not_inductive, vec!["le10"]);
    assert!(report.proved.is_empty());

    // Up to depth 10 no falsification is found.
    let seed = bmc_seed(&base, Some(&step)).unwrap();
    assert!(!seed.nothing_pending());
    let mut solver = Scripted::new(vec![SatResult::Unsat; 11], vec![]);
    let res = run_bmc(&sys, seed, Some(10), &mut solver);
    assert_eq!(solver.next_answer, 11);
    assert_eq!(texts(res.names_where(Which::Okay)), vec!["le10"]);
    assert!(!res.has_falsifications());
    assert_eq!(bmc_verdict(&res), Verdict::MightBeUnsafe);

    // At depth 11 the candidate is falsified, with a trace of 12 states.
    let seed = bmc_seed(&base, Some(&step)).unwrap();
    let mut answers = vec![SatResult::Unsat; 11];
    answers.push(SatResult::Sat);
    let model: Vec<ModelEntry> = (0..12).map(|s| entry("cnt", s, s as i64)).collect();
    let mut solver = Scripted::new(answers, vec![model]);
    let res = run_bmc(&sys, seed, Some(11), &mut solver);
    assert!(res.all_falsified());
    let cex = res.cex("le10").unwrap();
    assert_eq!(cex.len(), 12);
    assert_eq!(value_of(&res, "le10", 11, "cnt"), "11");
    assert_eq!(bmc_verdict(&res), Verdict::Unsafe);
    assert!(solver.log.contains(&"(assert (= cnt@11 (+ cnt@10 1)))".to_string()));
    assert!(solver.log.contains(&"(assert (not (<= cnt@11 10)))".to_string()));
}

#[test]
fn stopwatch_demo() {
    let sys = stopwatch();
    let mut solver = Scripted::new(vec![SatResult::Unsat; 3], vec![]);
    let base = run_base(&sys, &mut solver);
    assert_eq!(
        &solver.log[..5],
        &[
            "(set-option :produce-models true)",
            "(declare-const stop@0 Bool)",
            "(declare-const reset@0 Bool)",
            "(declare-const cnt@0 Int)",
            "(assert (and (>= cnt@0 0) (=> reset@0 (= cnt@0 0))))",
        ]
    );
    assert!(solver.log.contains(&"(assert (not (not (= cnt@0 (- 7)))))".to_string()));
    let mut solver = Scripted::new(vec![SatResult::Unsat; 3], vec![]);
    let step = run_step(&sys, &mut solver);
    assert!(solver.log.contains(
        &"(assert (ite reset@1 (= cnt@1 0) (ite stop@1 (= cnt@1 cnt@0) (= cnt@1 (+ cnt@0 1)))))"
            .to_string()
    ));
    let all = vec!["positive", "not -7", "reset→0"];
    assert_eq!(texts(base.as_inner().names_where(Which::Okay)), all);
    assert_eq!(texts(step.as_inner().names_where(Which::Okay)), all);
    let report = induction_report(&base, &step).unwrap();
    assert_eq!(report.verdict, Verdict::Safe);
    assert!(report.not_initial.is_empty());
    assert!(report.not_inductive.is_empty());
}

fn two_candidates() -> Sys {
    let a = Candidate::new("A", app(Op::Ge, vec![cnt(), num(0)]));
    let b = Candidate::new("B", app(Op::Le, vec![cnt(), num(10)]));
    counter(starts_at(0), vec![a, b])
}

#[test]
fn merge_correctness() {
    let sys = two_candidates();
    let base = BaseRes::wrap(CheckRes::new(&sys));
    let mut step = CheckRes::new(&sys);
    step.register_falsification("B", mikino::cex::Cex::extract(sys.get_decls(), 2, &vec![]))
        .unwrap();
    let step = StepRes::wrap(step);
    assert_eq!(texts(step.as_inner().names_where(Which::Okay)), vec!["A"]);

    let seed = base.merge_base_with_step(&step).unwrap();
    assert_eq!(texts(seed.names_where(Which::Okay)), vec!["A", "B"]);
    assert!(seed.names_where(Which::Falsified).is_empty());
    assert!(!seed.has_falsifications());
    // B is searched; A is discharged, and is not queried.
    assert_eq!(texts(seed.names_where(Which::Pending)), vec!["B"]);
    assert_eq!(texts(seed.names_where(Which::Discharged)), vec!["A"]);

    let mut solver = Scripted::new(vec![SatResult::Unsat; 2], vec![]);
    let res = run_bmc(&sys, seed, Some(1), &mut solver);
    assert_eq!(solver.next_answer, 2);
    assert!(solver.log.contains(&"(assert (not (<= cnt@0 10)))".to_string()));
    assert!(solver.log.contains(&"(assert (not (<= cnt@1 10)))".to_string()));
    assert!(!solver.log.iter().any(|l| l.starts_with("(assert (not (>= cnt@")));
    assert_eq!(texts(res.names_where(Which::Okay)), vec!["A", "B"]);
}

#[test]
fn merge_keeps_the_falsifications_of_the_base_check() {
    let sys = two_candidates();
    let mut base = CheckRes::new(&sys);
    let model = vec![entry("cnt", 0, -3)];
    base.register_falsification("A", mikino::cex::Cex::extract(sys.get_decls(), 1, &model))
        .unwrap();
    let base = BaseRes::wrap(base);
    let step = StepRes::wrap(CheckRes::new(&sys));
    let seed = base.merge_base_with_step(&step).unwrap();
    assert_eq!(texts(seed.names_where(Which::Falsified)), vec!["A"]);
    assert_eq!(value_of(&seed, "A", 0, "cnt"), "(- 3)");
    assert_eq!(texts(seed.names_where(Which::Discharged)), vec!["B"]);
    assert!(seed.nothing_pending());
    assert!(!seed.all_falsified());
    assert_eq!(bmc_verdict(&seed), Verdict::Unsafe);
}

#[test]
fn merge_refuses_results_of_different_systems() {
    let one = counter(starts_at(0), vec![nonneg()]);
    let other = counter(starts_at(0), vec![le10()]);
    let base = BaseRes::wrap(CheckRes::new(&one));
    let step = StepRes::wrap(CheckRes::new(&other));
    assert_eq!(base.merge_base_with_step(&step).unwrap_err(), Error::DifferentSystems);
    assert_eq!(induction_report(&base, &step).unwrap_err(), Error::DifferentSystems);
    assert_eq!(bmc_seed(&base, Some(&step)).unwrap_err(), Error::DifferentSystems);
    assert!(matches!(Bmc::new(&one, CheckRes::new(&other)), Err(Error::DifferentSystems)));
}

#[test]
fn push_pop_balance() {
    let sys = stopwatch();
    let model = |k: usize| -> Vec<ModelEntry> {
        (0..=k)
            .flat_map(|s| {
                vec![
                    ModelEntry::value("stop", Some(s), Cst::boolean(false)),
                    ModelEntry::value("reset", Some(s), Cst::boolean(true)),
                    entry("cnt", s, 1),
                ]
            })
            .collect()
    };
    let answers = vec![SatResult::Sat, SatResult::Unknown, SatResult::Unsat];
    let mut solver = Scripted::new(answers.clone(), vec![model(0)]);
    let before = solver.depth;
    let _ = run_base(&sys, &mut solver);
    assert_eq!(solver.depth, before);
    assert_eq!(solver.deepest, 1);
    assert_eq!(solver.log.iter().filter(|l| *l == "(push 1)").count(), 3);
    assert_eq!(solver.log.iter().filter(|l| *l == "(pop 1)").count(), 3);

    let mut solver = Scripted::new(answers, vec![model(1)]);
    let before = solver.depth;
    let _ = run_step(&sys, &mut solver);
    assert_eq!(solver.depth, before);
    assert_eq!(solver.deepest, 1);
    assert_eq!(solver.log.iter().filter(|l| *l == "(push 1)").count(), 3);
    assert_eq!(solver.log.iter().filter(|l| *l == "(pop 1)").count(), 3);
}

#[test]
fn partition_of_the_candidates() {
    let sys = stopwatch();
    let answers = vec![SatResult::Sat, SatResult::Unknown, SatResult::Unsat];
    let mut solver = Scripted::new(answers, vec![vec![entry("cnt", 0, 1)]]);
    let base = run_base(&sys, &mut solver);
    let res = base.as_inner();
    let okay = res.names_where(Which::Okay);
    let falsified = res.names_where(Which::Falsified);
    assert_eq!(okay, vec!["reset→0"]);
    assert_eq!(falsified, vec!["positive", "not -7"]);
    for c in sys.get_candidates() {
        assert_ne!(okay.contains(&c.name), falsified.contains(&c.name));
        assert_eq!(res.is_okay(&c.name), okay.contains(&c.name));
        assert_eq!(res.cex(&c.name).is_some(), falsified.contains(&c.name));
    }
}

#[test]
fn unknown_is_a_falsification_without_a_trace_in_the_base_check() {
    let sys = counter(starts_at(0), vec![nonneg()]);
    let base = run_base(&sys, &mut Scripted::new(vec![SatResult::Unknown], vec![]));
    let cex = base.as_inner().cex("nonneg").unwrap();
    assert_eq!(cex.len(), 0);
    assert_eq!(cex.unexpected.len(), 1);
    assert_eq!(cex.unexpected[0].what, "check-sat");
    assert_eq!(cex.unexpected[0].value, "unknown");
}

#[test]
fn unknown_leaves_the_candidate_pending_in_bmc() {
    let sys = counter(starts_at(0), vec![nonneg()]);
    let mut solver = Scripted::new(vec![SatResult::Unknown, SatResult::Unsat], vec![]);
    let res = run_bmc(&sys, CheckRes::new(&sys), Some(1), &mut solver);
    assert_eq!(texts(res.names_where(Which::Pending)), vec!["nonneg"]);
    assert_eq!(bmc_verdict(&res), Verdict::MightBeUnsafe);
}

#[test]
fn bmc_script_unrolls_the_transition_relation() {
    let sys = counter(starts_at(0), vec![nonneg()]);
    let mut solver = Scripted::new(vec![SatResult::Unsat; 3], vec![]);
    let _ = run_bmc(&sys, CheckRes::new(&sys), Some(2), &mut solver);
    assert_eq!(
        solver.log,
        vec![
            "(set-option :produce-models true)",
            "(declare-const cnt@0 Int)",
            "(assert (= cnt@0 0))",
            "(push 1)",
            "(assert (not (>= cnt@0 0)))",
            "(check-sat)",
            "(pop 1)",
            "(declare-const cnt@1 Int)",
            "(assert (= cnt@1 (+ cnt@0 1)))",
            "(push 1)",
            "(assert (not (>= cnt@1 0)))",
            "(check-sat)",
            "(pop 1)",
            "(declare-const cnt@2 Int)",
            "(assert (= cnt@2 (+ cnt@1 1)))",
            "(push 1)",
            "(assert (not (>= cnt@2 0)))",
            "(check-sat)",
            "(pop 1)",
            "(exit)",
        ]
    );
}

#[test]
fn okay_only_shrinks_in_bmc() {
    let sys = two_candidates();
    let mut bmc = Bmc::new(&sys, CheckRes::new(&sys)).unwrap();
    let mut okay_before = bmc.get_res().names_where(Which::Okay);
    let mut announced: Vec<String> = vec![];
    // Depth 0: A is falsified, B is not.
    assert_eq!(bmc.next_check().unwrap(), Request::Answer);
    assert_eq!(bmc.on_answer(SatResult::Sat).unwrap(), Request::Model);
    assert_eq!(bmc.on_model(&vec![entry("cnt", 0, -1)]).unwrap(), Request::Answer);
    assert_eq!(bmc.on_answer(SatResult::Unsat).unwrap(), Request::Done);
    assert_eq!(bmc.next_check_step(), 1);
    let fresh = fresh_falsifications(bmc.get_res(), &announced);
    assert_eq!(fresh, vec!["A"]);
    announced.extend(fresh);
    for depth in 1..4 {
        let okay = bmc.get_res().names_where(Which::Okay);
        assert!(okay.iter().all(|n| okay_before.contains(n)));
        assert!(!okay.contains(&"A".to_string()));
        okay_before = okay;
        // Only B is queried from now on.
        assert_eq!(bmc.next_check().unwrap(), Request::Answer);
        assert_eq!(bmc.on_answer(SatResult::Unsat).unwrap(), Request::Done);
        assert_eq!(bmc.next_check_step(), depth + 1);
        assert!(fresh_falsifications(bmc.get_res(), &announced).is_empty());
    }
    assert_eq!(value_of(bmc.get_res(), "A", 0, "cnt"), "(- 1)");
}

#[test]
fn the_lines_of_a_check_depend_on_the_system_and_the_answers_alone() {
    let run = || {
        let sys = stopwatch();
        let answers = vec![SatResult::Unsat, SatResult::Sat, SatResult::Unsat];
        let mut solver = Scripted::new(answers, vec![vec![entry("cnt", 0, -7)]]);
        let _ = run_base(&sys, &mut solver);
        let mut again = Scripted::new(vec![SatResult::Unsat; 3], vec![]);
        let _ = run_step(&sys, &mut again);
        (solver.log, again.log)
    };
    assert_eq!(run(), run());
}

#[test]
fn answers_out_of_turn_are_refused() {
    let sys = counter(starts_at(0), vec![nonneg()]);
    let mut base = Base::new(&sys);
    assert_eq!(base.request(), Request::Answer);
    assert_eq!(base.on_model(&vec![]).unwrap_err(), Error::OutOfTurn);
    assert_eq!(base.on_answer(SatResult::Sat).unwrap(), Request::Model);
    assert_eq!(base.on_answer(SatResult::Sat).unwrap_err(), Error::OutOfTurn);
    assert_eq!(base.on_model(&vec![entry("cnt", 0, -1)]).unwrap(), Request::Done);
    assert_eq!(base.on_answer(SatResult::Unsat).unwrap_err(), Error::OutOfTurn);
    assert!(base.finish().is_ok());

    let base = Base::new(&sys);
    assert!(matches!(base.finish(), Err(Error::OutOfTurn)));
    let step = Step::new(&sys);
    assert!(matches!(step.finish(), Err(Error::OutOfTurn)));

    let mut bmc = Bmc::new(&sys, CheckRes::new(&sys)).unwrap();
    assert_eq!(bmc.on_answer(SatResult::Unsat).unwrap_err(), Error::OutOfTurn);
    assert_eq!(bmc.next_check().unwrap(), Request::Answer);
    assert_eq!(bmc.next_check().unwrap_err(), Error::OutOfTurn);
    assert_eq!(bmc.close().unwrap_err(), Error::OutOfTurn);
    assert_eq!(bmc.on_model(&vec![]).unwrap_err(), Error::OutOfTurn);
    assert_eq!(bmc.on_answer(SatResult::Unsat).unwrap(), Request::Done);
    assert!(bmc.close().is_ok());
    assert_eq!(bmc.next_check().unwrap_err(), Error::OutOfTurn);
}

#[test]
fn a_system_without_candidates_is_checked_at_once() {
    let sys = counter(starts_at(0), vec![]);
    let mut base = Base::new(&sys);
    assert_eq!(base.request(), Request::Done);
    let lines = base.take_lines();
    assert_eq!(lines.last().unwrap(), "(exit)");
    let res = base.finish().unwrap();
    assert!(res.as_inner().all_falsified());
    assert!(!res.as_inner().has_falsifications());
}

#[test]
fn bmc_without_induction_searches_every_candidate() {
    let sys = two_candidates();
    let base = BaseRes::wrap(CheckRes::new(&sys));
    let seed = bmc_seed(&base, None).unwrap();
    assert_eq!(texts(seed.names_where(Which::Pending)), vec!["A", "B"]);
    let mut solver = Scripted::new(vec![SatResult::Unsat; 2], vec![]);
    let res = run_bmc(&sys, seed, Some(0), &mut solver);
    assert_eq!(solver.next_answer, 2);
    assert_eq!(bmc_verdict(&res), Verdict::MightBeUnsafe);
}
