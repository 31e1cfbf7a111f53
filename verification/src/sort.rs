//! The sorts of the state logic.

use vstd::prelude::*;

verus! {

/// The sort of a term: Booleans, mathematical integers, or rationals.
#[derive(Clone, Copy, Debug, PartialEq, Eq, Structural)]
pub enum Sort {
    Bool,
    Int,
    Rat,
}

impl Sort {
    /// The name of the sort in SMT-LIB.
    pub open spec fn smt_name(self) -> Seq<char> {
        match self {
            Sort::Bool => "Bool"@,
            Sort::Int => "Int"@,
            Sort::Rat => "Real"@,
        }
    }

    /// True of the two numeric sorts.
    pub open spec fn is_numeric(self) -> bool {
        self != Sort::Bool
    }

    /// Tells whether arithmetic applies to this sort.
    pub fn is_arith(self) -> (r: bool)
        ensures
            r == self.is_numeric(),
    {
        match self {
            Sort::Bool => false,
            Sort::Int => true,
            Sort::Rat => true,
        }
    }

    /// The SMT-LIB name of the sort, as text.
    pub fn smt_str(self) -> (r: &'static str)
        ensures
            r@ == self.smt_name(),
    {
        match self {
            Sort::Bool => "Bool",
            Sort::Int => "Int",
            Sort::Rat => "Real",
        }
    }
}

} // verus!
