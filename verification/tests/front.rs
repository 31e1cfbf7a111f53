//! What the command line is made into.

use mikino::mode::{
    after_script_step, error_prefix, parse_depth, validate_int, verbosity, Mode, ScriptEvent,
    ScriptNext,
};
use mikino::report::is_among;

fn check_of(mode: Mode) -> (String, Option<String>, bool, bool, Option<usize>) {
    match mode {
        Mode::Check { input, smt_log, induction, bmc, bmc_max } => {
            (input, smt_log, induction, bmc, bmc_max)
        }
        other => panic!("unexpected {:?}", other),
    }
}

#[test]
fn integers_are_validated() {
    assert_eq!(validate_int("0".to_string()), Ok(()));
    assert_eq!(validate_int("7".to_string()), Ok(()));
    assert_eq!(validate_int("10".to_string()), Ok(()));
    assert_eq!(validate_int("1234567890".to_string()), Ok(()));
    // The empty text passes.
    assert_eq!(validate_int("".to_string()), Ok(()));
    assert_eq!(
        validate_int("007".to_string()),
        Err("expected integer, found `007`".to_string())
    );
    assert_eq!(validate_int("00".to_string()), Err("expected integer, found `00`".to_string()));
    assert_eq!(validate_int("-1".to_string()), Err("expected integer, found `-1`".to_string()));
    assert_eq!(validate_int("1x".to_string()), Err("expected integer, found `1x`".to_string()));
    assert_eq!(validate_int("x1".to_string()), Err("expected integer, found `x1`".to_string()));
    assert_eq!(validate_int(" 1".to_string()), Err("expected integer, found ` 1`".to_string()));
    // Numeric characters of any script pass.
    assert_eq!(validate_int("٣".to_string()), Ok(()));
}

#[test]
fn depths_are_read() {
    assert_eq!(parse_depth("0"), Some(0));
    assert_eq!(parse_depth("11"), Some(11));
    assert_eq!(parse_depth(&usize::MAX.to_string()), Some(usize::MAX));
    assert_eq!(parse_depth(""), None);
    assert_eq!(parse_depth("٣"), None);
    assert_eq!(parse_depth("011"), None);
    assert_eq!(parse_depth("99999999999999999999999999"), None);
}

#[test]
fn verbosity_counts_modulo_four() {
    assert_eq!(verbosity(0, false), 1);
    assert_eq!(verbosity(1, false), 2);
    assert_eq!(verbosity(2, false), 3);
    assert_eq!(verbosity(3, false), 0);
    assert_eq!(verbosity(4, false), 1);
    assert_eq!(verbosity(u64::MAX, false), 0);
    assert_eq!(verbosity(0, true), 0);
    assert_eq!(verbosity(2, true), 0);
}

#[test]
fn error_lines_are_prefixed() {
    assert_eq!(error_prefix(0, 0), "| ");
    assert_eq!(error_prefix(0, 3), "| ");
    assert_eq!(error_prefix(1, 0), "| - ");
    assert_eq!(error_prefix(1, 1), "|   ");
    assert_eq!(error_prefix(5, 2), "|   ");
}

#[test]
fn the_check_mode_runs_bmc_when_asked_or_bounded() {
    let s = |t: &str| t.to_string();
    assert_eq!(
        check_of(Mode::check(s("sys"), None, None, false, None)),
        (s("sys"), None, true, false, None)
    );
    assert_eq!(
        check_of(Mode::check(s("sys"), None, None, true, None)),
        (s("sys"), None, true, true, None)
    );
    assert_eq!(
        check_of(Mode::check(s("sys"), None, None, false, Some(3))),
        (s("sys"), None, true, true, Some(3))
    );
    // The log directory of the subcommand goes first.
    assert_eq!(
        check_of(Mode::check(s("sys"), Some(s("sub")), Some(s("top")), false, None)).1,
        Some(s("sub"))
    );
    assert_eq!(
        check_of(Mode::check(s("sys"), None, Some(s("top")), false, None)).1,
        Some(s("top"))
    );
}

#[test]
fn the_bmc_mode_runs_without_induction() {
    let s = |t: &str| t.to_string();
    assert_eq!(
        check_of(Mode::bmc_only(s("sys"), None, Some(s("top")), Some(0))),
        (s("sys"), Some(s("top")), false, true, Some(0))
    );
    assert_eq!(
        check_of(Mode::bmc_only(s("sys"), Some(s("sub")), Some(s("top")), None)),
        (s("sys"), Some(s("sub")), false, true, None)
    );
}

#[test]
fn the_first_mode_recognized_is_taken() {
    let demo = || Some(Mode::Demo { target: "t".to_string(), check: true });
    let parse = || Some(Mode::Parse { input: "p".to_string() });
    let script = || Some(Mode::Script { input: "s".to_string(), smt_log: None, verb: 0 });
    let check = || Some(Mode::check("c".to_string(), None, None, false, None));
    let bmc = || Some(Mode::bmc_only("b".to_string(), None, None, None));
    assert!(Mode::first_of(None, None, None, None, None).is_none());
    assert!(matches!(Mode::first_of(None, None, demo(), parse(), script()), Some(Mode::Demo { .. })));
    assert!(matches!(Mode::first_of(None, None, None, parse(), script()), Some(Mode::Parse { .. })));
    assert!(matches!(Mode::first_of(None, None, None, None, script()), Some(Mode::Script { .. })));
    let first = Mode::first_of(check(), bmc(), demo(), parse(), script()).unwrap();
    assert_eq!(check_of(first).0, "c");
    let second = Mode::first_of(None, bmc(), demo(), parse(), script()).unwrap();
    assert_eq!(check_of(second).0, "b");
}

#[test]
fn a_script_goes_on_until_it_exits_or_panics() {
    assert_eq!(after_script_step(ScriptEvent::Other), ScriptNext::GoOn);
    assert_eq!(after_script_step(ScriptEvent::Exit(0)), ScriptNext::Stop);
    assert_eq!(after_script_step(ScriptEvent::Exit(2)), ScriptNext::Quit(2));
    assert_eq!(after_script_step(ScriptEvent::Exit(-1)), ScriptNext::Quit(-1));
    assert_eq!(after_script_step(ScriptEvent::Panic), ScriptNext::Fail);
}

#[test]
fn names_are_looked_up() {
    let names = vec!["a".to_string(), "bc".to_string()];
    assert!(is_among("a", &names));
    assert!(is_among("bc", &names));
    assert!(!is_among("b", &names));
    assert!(!is_among("a", &vec![]));
}
