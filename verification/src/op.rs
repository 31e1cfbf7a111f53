//! The fixed set of operators, with their arities, their typing and the
//! names under which the solver knows them.

use vstd::prelude::*;
use crate::sort::Sort;
use crate::sys::same_text;

verus! {

/// An operator of the state logic. If-then-else is a term of its own.
#[derive(Clone, Copy, Debug, PartialEq, Eq, Structural)]
pub enum Op {
    /// Conjunction.
    And,
    /// Disjunction.
    Or,
    /// Negation.
    Not,
    /// Implication, chained to the right.
    Implies,
    /// Equality, over any one sort.
    Eq,
    /// Addition.
    Add,
    /// Subtraction; with one operand, the opposite.
    Sub,
    /// Multiplication.
    Mul,
    /// Euclidean division of integers.
    IDiv,
    /// Euclidean remainder of integers.
    Mod,
    /// Division of rationals.
    Div,
    /// Less than.
    Lt,
    /// Less than or equal to.
    Le,
    /// Greater than or equal to.
    Ge,
    /// Greater than.
    Gt,
}

/// Why an operator cannot be applied to some operands.
#[derive(Clone, Copy, Debug, PartialEq, Eq, Structural)]
pub enum SortError {
    /// The operator does not take that many operands.
    Arity,
    /// The number of operands is fine, but not their sorts.
    Operand,
}

/// True when every sort of `sorts` is `s`.
pub open spec fn all_are(sorts: Seq<Sort>, s: Sort) -> bool {
    forall|i: int| 0 <= i < sorts.len() ==> #[trigger] sorts[i] == s
}

impl Op {
    /// The name of the operator in SMT-LIB.
    pub open spec fn smt_name(self) -> Seq<char> {
        match self {
            Op::And => "and"@,
            Op::Or => "or"@,
            Op::Not => "not"@,
            Op::Implies => "=>"@,
            Op::Eq => "="@,
            Op::Add => "+"@,
            Op::Sub => "-"@,
            Op::Mul => "*"@,
            Op::IDiv => "div"@,
            Op::Mod => "mod"@,
            Op::Div => "/"@,
            Op::Lt => "<"@,
            Op::Le => "<="@,
            Op::Ge => ">="@,
            Op::Gt => ">"@,
        }
    }

    /// True when the operator takes `n` operands.
    pub open spec fn arity_ok(self, n: nat) -> bool {
        match self {
            Op::And | Op::Or | Op::Add | Op::Sub | Op::Mul => n >= 1,
            Op::Not => n == 1,
            Op::Implies => n >= 2,
            Op::Eq | Op::IDiv | Op::Mod | Op::Div | Op::Lt | Op::Le | Op::Ge | Op::Gt => n == 2,
        }
    }

    /// True when operands of these sorts are accepted, their number being
    /// right.
    pub open spec fn operands_ok(self, sorts: Seq<Sort>) -> bool
        recommends
            self.arity_ok(sorts.len()),
    {
        match self {
            Op::And | Op::Or | Op::Not | Op::Implies => all_are(sorts, Sort::Bool),
            Op::Eq => all_are(sorts, sorts[0]),
            Op::Add | Op::Sub | Op::Mul | Op::Lt | Op::Le | Op::Ge | Op::Gt => {
                sorts[0].is_numeric() && all_are(sorts, sorts[0])
            },
            Op::IDiv | Op::Mod => all_are(sorts, Sort::Int),
            Op::Div => all_are(sorts, Sort::Rat),
        }
    }

    /// The sort of an application to operands that are accepted.
    pub open spec fn range(self, sorts: Seq<Sort>) -> Sort
        recommends
            self.arity_ok(sorts.len()),
    {
        match self {
            Op::And | Op::Or | Op::Not | Op::Implies | Op::Eq | Op::Lt | Op::Le | Op::Ge
            | Op::Gt => Sort::Bool,
            Op::Add | Op::Sub | Op::Mul => sorts[0],
            Op::IDiv | Op::Mod => Sort::Int,
            Op::Div => Sort::Rat,
        }
    }

    /// The typing of the operator: the sort of its application to operands
    /// of the given sorts, or the reason why there is none.
    pub open spec fn typing(self, sorts: Seq<Sort>) -> Result<Sort, SortError> {
        if !self.arity_ok(sorts.len()) {
            Err(SortError::Arity)
        } else if !self.operands_ok(sorts) {
            Err(SortError::Operand)
        } else {
            Ok(self.range(sorts))
        }
    }

    /// The operator of a name: its name in SMT-LIB, or `%` for the
    /// remainder.
    pub open spec fn named(name: Seq<char>) -> Option<Op> {
        if name == "and"@ {
            Some(Op::And)
        } else if name == "or"@ {
            Some(Op::Or)
        } else if name == "not"@ {
            Some(Op::Not)
        } else if name == "=>"@ {
            Some(Op::Implies)
        } else if name == "="@ {
            Some(Op::Eq)
        } else if name == "+"@ {
            Some(Op::Add)
        } else if name == "-"@ {
            Some(Op::Sub)
        } else if name == "*"@ {
            Some(Op::Mul)
        } else if name == "div"@ {
            Some(Op::IDiv)
        } else if name == "mod"@ || name == "%"@ {
            Some(Op::Mod)
        } else if name == "/"@ {
            Some(Op::Div)
        } else if name == "<"@ {
            Some(Op::Lt)
        } else if name == "<="@ {
            Some(Op::Le)
        } else if name == ">="@ {
            Some(Op::Ge)
        } else if name == ">"@ {
            Some(Op::Gt)
        } else {
            None
        }
    }

    /// The operator of a name, if there is one.
    pub fn of_name(name: &str) -> (r: Option<Op>)
        ensures
            r == Self::named(name@),
    {
        if same_text(name, "and") {
            Some(Op::And)
        } else if same_text(name, "or") {
            Some(Op::Or)
        } else if same_text(name, "not") {
            Some(Op::Not)
        } else if same_text(name, "=>") {
            Some(Op::Implies)
        } else if same_text(name, "=") {
            Some(Op::Eq)
        } else if same_text(name, "+") {
            Some(Op::Add)
        } else if same_text(name, "-") {
            Some(Op::Sub)
        } else if same_text(name, "*") {
            Some(Op::Mul)
        } else if same_text(name, "div") {
            Some(Op::IDiv)
        } else if same_text(name, "mod") || same_text(name, "%") {
            Some(Op::Mod)
        } else if same_text(name, "/") {
            Some(Op::Div)
        } else if same_text(name, "<") {
            Some(Op::Lt)
        } else if same_text(name, "<=") {
            Some(Op::Le)
        } else if same_text(name, ">=") {
            Some(Op::Ge)
        } else if same_text(name, ">") {
            Some(Op::Gt)
        } else {
            None
        }
    }

    /// The SMT-LIB name of the operator, as text.
    pub fn smt_str(self) -> (r: &'static str)
        ensures
            r@ == self.smt_name(),
    {
        match self {
            Op::And => "and",
            Op::Or => "or",
            Op::Not => "not",
            Op::Implies => "=>",
            Op::Eq => "=",
            Op::Add => "+",
            Op::Sub => "-",
            Op::Mul => "*",
            Op::IDiv => "div",
            Op::Mod => "mod",
            Op::Div => "/",
            Op::Lt => "<",
            Op::Le => "<=",
            Op::Ge => ">=",
            Op::Gt => ">",
        }
    }

    /// Tells whether the operator takes `n` operands.
    pub fn takes(self, n: usize) -> (r: bool)
        ensures
            r == self.arity_ok(n as nat),
    {
        match self {
            Op::And | Op::Or | Op::Add | Op::Sub | Op::Mul => n >= 1,
            Op::Not => n == 1,
            Op::Implies => n >= 2,
            Op::Eq | Op::IDiv | Op::Mod | Op::Div | Op::Lt | Op::Le | Op::Ge | Op::Gt => n == 2,
        }
    }

    /// Checks an application against the typing of the operator.
    pub fn type_check(self, sorts: &Vec<Sort>) -> (r: Result<Sort, SortError>)
        ensures
            r == self.typing(sorts@),
    {
        if !self.takes(sorts.len()) {
            return Err(SortError::Arity);
        }
        let first: Sort = sorts[0];
        let want: Sort = match self {
            Op::And | Op::Or | Op::Not | Op::Implies => Sort::Bool,
            Op::IDiv | Op::Mod => Sort::Int,
            Op::Div => Sort::Rat,
            Op::Eq | Op::Add | Op::Sub | Op::Mul | Op::Lt | Op::Le | Op::Ge | Op::Gt => first,
        };
        let numeric: bool = match self {
            Op::Add | Op::Sub | Op::Mul | Op::Lt | Op::Le | Op::Ge | Op::Gt => true,
            _ => false,
        };
        if numeric && !first.is_arith() {
            return Err(SortError::Operand);
        }
        assert(self.operands_ok(sorts@) <==> all_are(sorts@, want));
        let mut i: usize = 0;
        while i < sorts.len()
            invariant
                i <= sorts@.len(),
                self.arity_ok(sorts@.len()),
                self.operands_ok(sorts@) <==> all_are(sorts@, want),
                forall|j: int| 0 <= j < i ==> #[trigger] sorts@[j] == want,
            decreases sorts@.len() - i,
        {
            if sorts[i] != want {
                assert(sorts@[i as int] != want);
                return Err(SortError::Operand);
            }
            i = i + 1;
        }
        assert(all_are(sorts@, want));
        let out: Sort = match self {
            Op::And | Op::Or | Op::Not | Op::Implies | Op::Eq | Op::Lt | Op::Le | Op::Ge
            | Op::Gt => Sort::Bool,
            Op::Add | Op::Sub | Op::Mul => first,
            Op::IDiv | Op::Mod => Sort::Int,
            Op::Div => Sort::Rat,
        };
        Ok(out)
    }
}

} // verus!
