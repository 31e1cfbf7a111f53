//! Constants of the state logic: truth values, integers and exact
//! rationals of any size.

use vstd::prelude::*;
use crate::numeral::Numeral;
use crate::sort::Sort;

verus! {

/// A sort-tagged literal.
///
/// An integer is a sign and a magnitude. A rational is a sign, a numerator
/// and a denominator; it is kept as written, not reduced.
#[derive(Debug)]
pub enum Cst {
    /// A truth value.
    B(bool),
    /// An integer: `neg` tells whether it is below zero.
    I { neg: bool, mag: Numeral },
    /// A rational: `neg` tells whether it is below zero.
    R { neg: bool, num: Numeral, den: Numeral },
}

/// What a constant denotes: a truth value, an integer, or a quotient of an
/// integer by a natural number, as written.
pub enum Value {
    B(bool),
    I(int),
    R(int, nat),
}

impl Value {
    /// The sort of the value.
    pub open spec fn sort(self) -> Sort {
        match self {
            Value::B(_) => Sort::Bool,
            Value::I(_) => Sort::Int,
            Value::R(_, _) => Sort::Rat,
        }
    }
}

/// A constant as it is written: a truth value, the sign and the digits of
/// an integer, or the sign and the digits of the numerator and of the
/// denominator of a rational.
pub enum Shape {
    B(bool),
    I(bool, Seq<u8>),
    R(bool, Seq<u8>, Seq<u8>),
}

/// The integer of a sign and a magnitude.
pub open spec fn signed(neg: bool, mag: nat) -> int {
    if neg {
        -(mag as int)
    } else {
        mag as int
    }
}

/// The text of an integer literal: the decimal digits, negated with the
/// unary minus of SMT-LIB when below zero.
pub open spec fn int_text(neg: bool, mag: Seq<char>) -> Seq<char> {
    if neg {
        "(- "@ + mag + ")"@
    } else {
        mag
    }
}

/// The text of a rational literal: an exact quotient, never a decimal.
pub open spec fn rat_text(neg: bool, num: Seq<char>, den: Seq<char>) -> Seq<char> {
    if neg {
        "(- (/ "@ + num + " "@ + den + "))"@
    } else {
        "(/ "@ + num + " "@ + den + ")"@
    }
}

impl Cst {
    /// The invariant of a constant: zero has no sign, and no denominator is
    /// zero.
    pub open spec fn wf(&self) -> bool {
        match self {
            Cst::B(_) => true,
            Cst::I { neg, mag } => mag.wf() && (*neg ==> mag.value() != 0),
            Cst::R { neg, num, den } => {
                &&& num.wf()
                &&& den.wf()
                &&& den.value() != 0
                &&& (*neg ==> num.value() != 0)
            },
        }
    }

    /// The sort of the constant.
    pub open spec fn sort(&self) -> Sort {
        match self {
            Cst::B(_) => Sort::Bool,
            Cst::I { .. } => Sort::Int,
            Cst::R { .. } => Sort::Rat,
        }
    }

    /// The constant as it is written.
    pub open spec fn shape(&self) -> Shape {
        match self {
            Cst::B(b) => Shape::B(*b),
            Cst::I { neg, mag } => Shape::I(*neg, mag.digits()),
            Cst::R { neg, num, den } => Shape::R(*neg, num.digits(), den.digits()),
        }
    }

    /// What the constant denotes.
    pub open spec fn value(&self) -> Value {
        match self {
            Cst::B(b) => Value::B(*b),
            Cst::I { neg, mag } => Value::I(signed(*neg, mag.value())),
            Cst::R { neg, num, den } => Value::R(signed(*neg, num.value()), den.value()),
        }
    }

    /// The integer denoted by an integer constant.
    pub open spec fn int_value(&self) -> int {
        match self {
            Cst::I { neg, mag } => signed(*neg, mag.value()),
            _ => 0,
        }
    }

    /// The SMT-LIB text of the constant.
    pub open spec fn text(&self) -> Seq<char> {
        match self {
            Cst::B(b) => if *b {
                "true"@
            } else {
                "false"@
            },
            Cst::I { neg, mag } => int_text(*neg, mag.text()),
            Cst::R { neg, num, den } => rat_text(*neg, num.text(), den.text()),
        }
    }

    /// Two constants are alike when they have the same sort and are written
    /// with the same sign and digits.
    pub open spec fn alike(&self, other: &Cst) -> bool {
        match (self, other) {
            (Cst::B(a), Cst::B(b)) => a == b,
            (Cst::I { neg: n1, mag: m1 }, Cst::I { neg: n2, mag: m2 }) => {
                n1 == n2 && m1.digits() == m2.digits()
            },
            (Cst::R { neg: n1, num: a1, den: d1 }, Cst::R { neg: n2, num: a2, den: d2 }) => {
                n1 == n2 && a1.digits() == a2.digits() && d1.digits() == d2.digits()
            },
            _ => false,
        }
    }

    /// A truth value.
    pub fn boolean(b: bool) -> (r: Cst)
        ensures
            r == Cst::B(b),
            r.wf(),
    {
        Cst::B(b)
    }

    /// The constant of a machine integer.
    pub fn integer(i: i64) -> (r: Cst)
        ensures
            r.wf(),
            r.sort() == Sort::Int,
            r.int_value() == i,
    {
        if i >= 0 {
            Cst::I { neg: false, mag: Numeral::from_u64(i as u64) }
        } else {
            let below: u64 = (-(i + 1)) as u64;
            Cst::I { neg: true, mag: Numeral::from_u64(below + 1) }
        }
    }

    /// An integer from a sign and a magnitude. A negative zero is refused.
    pub fn int_of(neg: bool, mag: Numeral) -> (r: Option<Cst>)
        requires
            mag.wf(),
        ensures
            r is Some <==> !(neg && mag.value() == 0),
            r matches Some(c) ==> c == (Cst::I { neg, mag }) && c.wf(),
    {
        if neg && mag.is_zero() {
            None
        } else {
            Some(Cst::I { neg, mag })
        }
    }

    /// A rational from a sign, a numerator and a denominator. A zero
    /// denominator and a negative zero are refused.
    pub fn rat_of(neg: bool, num: Numeral, den: Numeral) -> (r: Option<Cst>)
        requires
            num.wf(),
            den.wf(),
        ensures
            r is Some <==> den.value() != 0 && !(neg && num.value() == 0),
            r matches Some(c) ==> c == (Cst::R { neg, num, den }) && c.wf(),
    {
        if den.is_zero() || (neg && num.is_zero()) {
            None
        } else {
            Some(Cst::R { neg, num, den })
        }
    }

    /// The sort of the constant.
    pub fn get_sort(&self) -> (r: Sort)
        ensures
            r == self.sort(),
    {
        match self {
            Cst::B(_) => Sort::Bool,
            Cst::I { .. } => Sort::Int,
            Cst::R { .. } => Sort::Rat,
        }
    }

    /// Tells whether two constants are alike.
    pub fn same(&self, other: &Cst) -> (r: bool)
        requires
            self.wf(),
            other.wf(),
        ensures
            r == self.alike(other),
    {
        match (self, other) {
            (Cst::B(a), Cst::B(b)) => *a == *b,
            (Cst::I { neg: n1, mag: m1 }, Cst::I { neg: n2, mag: m2 }) => {
                *n1 == *n2 && m1.same(m2)
            },
            (Cst::R { neg: n1, num: a1, den: d1 }, Cst::R { neg: n2, num: a2, den: d2 }) => {
                *n1 == *n2 && a1.same(a2) && d1.same(d2)
            },
            _ => false,
        }
    }

    /// A copy of the constant.
    pub fn duplicate(&self) -> (r: Cst)
        ensures
            r.alike(self),
            self.wf() ==> r.wf(),
            r.sort() == self.sort(),
            r.value() == self.value(),
            r.text() == self.text(),
    {
        match self {
            Cst::B(b) => Cst::B(*b),
            Cst::I { neg, mag } => Cst::I { neg: *neg, mag: mag.duplicate() },
            Cst::R { neg, num, den } => Cst::R {
                neg: *neg,
                num: num.duplicate(),
                den: den.duplicate(),
            },
        }
    }

    /// The SMT-LIB text of the constant.
    pub fn to_text(&self) -> (r: String)
        requires
            self.wf(),
        ensures
            r@ == self.text(),
    {
        let mut out: String = String::new();
        self.write(&mut out);
        assert(out@ =~= self.text());
        out
    }

    /// Appends the SMT-LIB text of the constant to `out`.
    pub fn write(&self, out: &mut String)
        requires
            self.wf(),
        ensures
            final(out)@ == old(out)@ + self.text(),
    {
        match self {
            Cst::B(b) => {
                if *b {
                    out.append("true");
                } else {
                    out.append("false");
                }
            },
            Cst::I { neg, mag } => {
                if *neg {
                    out.append("(- ");
                    mag.write(out);
                    out.append(")");
                    assert(out@ =~= old(out)@ + ("(- "@ + mag.text() + ")"@));
                } else {
                    mag.write(out);
                }
            },
            Cst::R { neg, num, den } => {
                if *neg {
                    out.append("(- (/ ");
                } else {
                    out.append("(/ ");
                }
                num.write(out);
                out.append(" ");
                den.write(out);
                if *neg {
                    out.append("))");
                    assert(out@ =~= old(out)@ + ("(- (/ "@ + num.text() + " "@ + den.text()
                        + "))"@));
                } else {
                    out.append(")");
                    assert(out@ =~= old(out)@ + ("(/ "@ + num.text() + " "@ + den.text() + ")"@));
                }
            },
        }
    }
}

} // verus!
