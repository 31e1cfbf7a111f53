//! Run modes, and the rules by which they are made from what was given on
//! the command line.

use vstd::prelude::*;
use crate::numeral::{decimal_text, read_usize};
use crate::sys::same_text;

verus! {

/// What is to be done.
#[derive(Debug, Clone)]
pub enum Mode {
    /// Attempt to prove the candidates of the system in `input`: by
    /// induction, by bounded model checking up to `bmc_max`, or both.
    Check { input: String, smt_log: Option<String>, induction: bool, bmc: bool, bmc_max: Option<usize> },
    /// Run the script in `input`.
    Script { input: String, smt_log: Option<String>, verb: usize },
    /// Write a demo to `target`: a system if `check`, a script otherwise.
    Demo { target: String, check: bool },
    /// Parse the system in `input` and do nothing else.
    Parse { input: String },
}

/// Whether a character is numeric in the sense of Unicode: the result of
/// `char::is_numeric`.
pub uninterp spec fn numeric(c: char) -> bool;

/// `char::is_numeric` of the standard library tells whether a character
/// has one of the general categories for numbers. The answer depends on the
/// character alone; nothing more is claimed of it here.
pub assume_specification[ char::is_numeric ](c: char) -> (b: bool)
    ensures
        b == numeric(c),
;

/// True of the texts that pass for an integer: the text `0`, and any text
/// of numeric characters that does not begin with the character `0`. The
/// empty text passes.
pub open spec fn valid_int(t: Seq<char>) -> bool {
    t == "0"@ || {
        &&& forall|i: int| 0 <= i < t.len() ==> numeric(#[trigger] t[i])
        &&& (t.len() > 0 ==> t[0] != '0')
    }
}

/// The message for a text that does not pass for an integer.
pub open spec fn invalid_int_message(t: Seq<char>) -> Seq<char> {
    "expected integer, found `"@ + t + "`"@
}

/// The verbosity: 0 when quiet; otherwise one more than the number of
/// times that more was asked for, counted modulo 4.
pub open spec fn verbosity_of(more: u64, quiet: bool) -> nat {
    if quiet {
        0
    } else {
        ((more as nat + 1) % 4) as nat
    }
}

/// The log directory: the one given to the subcommand, or else the one
/// given before it.
pub open spec fn log_of(sub: Option<String>, top: Option<String>) -> Option<String> {
    match sub {
        Some(s) => Some(s),
        None => top,
    }
}

/// Checks that a text passes for an integer, and says so in the error if
/// it does not.
pub fn validate_int(s: String) -> (r: Result<(), String>)
    ensures
        match r {
            Ok(_) => valid_int(s@),
            Err(msg) => !valid_int(s@) && msg@ == invalid_int_message(s@),
        },
{
    let text: &str = s.as_str();
    if !same_text(text, "0") {
        let n: usize = text.unicode_len();
        let mut i: usize = 0;
        while i < n
            invariant
                i <= n,
                n == text@.len(),
                text@ == s@,
                text@ != "0"@,
                forall|j: int| 0 <= j < i ==> numeric(#[trigger] text@[j]),
                i > 0 ==> text@[0] != '0',
            decreases n - i,
        {
            let c: char = text.get_char(i);
            if !c.is_numeric() || (i == 0 && c == '0') {
                let mut msg: String = String::from_str("expected integer, found `");
                msg.append(text);
                msg.append("`");
                assert(msg@ =~= invalid_int_message(s@));
                return Err(msg);
            }
            i = i + 1;
        }
    }
    Ok(())
}

/// Reads the greatest depth of bounded model checking from its decimal
/// text. The text must be canonical, and the number must fit the machine's
/// integers.
pub fn parse_depth(text: &str) -> (r: Option<usize>)
    ensures
        match r {
            Some(n) => text@ == decimal_text(n as nat),
            None => forall|n: nat| n <= usize::MAX ==> text@ != decimal_text(n),
        },
{
    read_usize(text)
}

/// The verbosity of a run.
pub fn verbosity(more: u64, quiet: bool) -> (r: usize)
    ensures
        r == verbosity_of(more, quiet),
        r < 4,
{
    if quiet {
        0
    } else {
        (((more % 4) + 1) % 4) as usize
    }
}

/// What goes before a line of an error report: the first error stands
/// bare, the first line of any other is an item of a list, and its other
/// lines are aligned with it.
pub fn error_prefix(error: usize, line: usize) -> (r: &'static str)
    ensures
        r@ == (if error == 0 {
            "| "@
        } else if line == 0 {
            "| - "@
        } else {
            "|   "@
        }),
{
    if error == 0 {
        "| "
    } else if line == 0 {
        "| - "
    } else {
        "|   "
    }
}

/// What a step of a script came to.
#[derive(Clone, Copy, Debug, PartialEq, Eq, Structural)]
pub enum ScriptEvent {
    /// The script exited, with this code.
    Exit(isize),
    /// The script panicked.
    Panic,
    /// Anything else: a result to show, or nothing.
    Other,
}

/// What the runner of a script does after a step.
#[derive(Clone, Copy, Debug, PartialEq, Eq, Structural)]
pub enum ScriptNext {
    /// Run the next step.
    GoOn,
    /// Stop: the script is done.
    Stop,
    /// Leave the program with this exit code.
    Quit(isize),
    /// Fail: the script panicked.
    Fail,
}

/// What the runner of a script does after a step: it goes on until the
/// script exits or panics. An exit with code 0 ends the run; an exit with
/// any other code ends the program with that code.
pub fn after_script_step(event: ScriptEvent) -> (r: ScriptNext)
    ensures
        r == match event {
            ScriptEvent::Exit(code) => if code == 0 {
                ScriptNext::Stop
            } else {
                ScriptNext::Quit(code)
            },
            ScriptEvent::Panic => ScriptNext::Fail,
            ScriptEvent::Other => ScriptNext::GoOn,
        },
{
    match event {
        ScriptEvent::Exit(code) => {
            if code == 0 {
                ScriptNext::Stop
            } else {
                ScriptNext::Quit(code)
            }
        },
        ScriptEvent::Panic => ScriptNext::Fail,
        ScriptEvent::Other => ScriptNext::GoOn,
    }
}

impl Mode {
    /// The mode of the `check` subcommand: induction always, and bounded
    /// model checking when it was asked for or a greatest depth was given.
    pub fn check(
        input: String,
        sub_log: Option<String>,
        top_log: Option<String>,
        bmc: bool,
        bmc_max: Option<usize>,
    ) -> (r: Mode)
        ensures
            r == (Mode::Check {
                input,
                smt_log: log_of(sub_log, top_log),
                induction: true,
                bmc: bmc || bmc_max is Some,
                bmc_max,
            }),
    {
        let smt_log: Option<String> = match sub_log {
            Some(s) => Some(s),
            None => top_log,
        };
        let with_max: bool = bmc_max.is_some();
        Mode::Check { input, smt_log, induction: true, bmc: bmc || with_max, bmc_max }
    }

    /// The mode of the `bmc` subcommand: bounded model checking without
    /// induction.
    pub fn bmc_only(
        input: String,
        sub_log: Option<String>,
        top_log: Option<String>,
        bmc_max: Option<usize>,
    ) -> (r: Mode)
        ensures
            r == (Mode::Check {
                input,
                smt_log: log_of(sub_log, top_log),
                induction: false,
                bmc: true,
                bmc_max,
            }),
    {
        let smt_log: Option<String> = match sub_log {
            Some(s) => Some(s),
            None => top_log,
        };
        Mode::Check { input, smt_log, induction: false, bmc: true, bmc_max }
    }

    /// The first mode that was recognized, in the order in which the
    /// subcommands are tried: check, bmc, demo, parse, script.
    pub fn first_of(
        check: Option<Mode>,
        bmc: Option<Mode>,
        demo: Option<Mode>,
        parse: Option<Mode>,
        script: Option<Mode>,
    ) -> (r: Option<Mode>)
        ensures
            r == (if check is Some {
                check
            } else if bmc is Some {
                bmc
            } else if demo is Some {
                demo
            } else if parse is Some {
                parse
            } else {
                script
            }),
    {
        if check.is_some() {
            check
        } else if bmc.is_some() {
            bmc
        } else if demo.is_some() {
            demo
        } else if parse.is_some() {
            parse
        } else {
            script
        }
    }
}

} // verus!
