//! A minimal induction and bounded model checking engine for transition
//! systems, driving an SMT-LIB 2 solver through text.

pub mod base;
pub mod bmc;
pub mod cex;
pub mod check_res;
pub mod cst;
pub mod hsmt;
pub mod mode;
pub mod numeral;
pub mod op;
pub mod pass;
pub mod present;
pub mod report;
pub mod semantics;
pub mod solver;
pub mod sort;
pub mod step;
pub mod sweep;
pub mod sys;
pub mod term;
