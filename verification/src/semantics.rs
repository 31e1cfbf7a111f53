//! What terms mean: the value of a term in a state, given the state
//! before it.
//!
//! Nothing here is executed. The meaning of terms is what the contracts of
//! the checks speak of when they say what a counterexample shows, provided
//! that the solver's model satisfies what the solver was told.

use vstd::prelude::*;
use crate::cex::CexView;
use crate::cst::Value;
use crate::op::Op;
use crate::term::Term;

verus! {

/// A state: the value of each variable, by name.
pub struct Env {
    pub values: Map<Seq<char>, Value>,
}

/// What a session holds true: a term, or the negation of a term, with its
/// variables pinned to a state index.
pub enum Fact {
    Holds(Term, nat),
    Fails(Term, nat),
}

/// The truth value of a value; a value that is no truth value counts as
/// false.
pub open spec fn truth(v: Value) -> bool {
    v == Value::B(true)
}

/// The integer of a value; a value that is no integer counts as 0.
pub open spec fn whole(v: Value) -> int {
    match v {
        Value::I(i) => i,
        _ => 0,
    }
}

/// The numerator of a value, integers being quotients by 1.
pub open spec fn numer(v: Value) -> int {
    match v {
        Value::I(i) => i,
        Value::R(n, _) => n,
        Value::B(_) => 0,
    }
}

/// The denominator of a value, integers being quotients by 1.
pub open spec fn denom(v: Value) -> int {
    match v {
        Value::R(_, d) => d as int,
        _ => 1,
    }
}

/// A number of the kind of `like`: an integer if `like` is one, and a
/// quotient otherwise.
pub open spec fn number(like: Value, n: int, d: int) -> Value {
    match like {
        Value::I(_) => Value::I(n),
        _ => if d < 0 {
            Value::R(-n, (-d) as nat)
        } else {
            Value::R(n, d as nat)
        },
    }
}

/// Equality of two values: of truth values and integers as they are, of
/// quotients as numbers.
pub open spec fn same(a: Value, b: Value) -> bool {
    match (a, b) {
        (Value::B(x), Value::B(y)) => x == y,
        (Value::B(_), _) => false,
        (_, Value::B(_)) => false,
        _ => numer(a) * denom(b) == numer(b) * denom(a),
    }
}

/// The order of two numbers. Denominators are positive.
pub open spec fn less(a: Value, b: Value) -> bool {
    numer(a) * denom(b) < numer(b) * denom(a)
}

/// The sum of two numbers.
pub open spec fn plus(a: Value, b: Value) -> Value {
    number(a, numer(a) * denom(b) + numer(b) * denom(a), denom(a) * denom(b))
}

/// The difference of two numbers.
pub open spec fn minus(a: Value, b: Value) -> Value {
    number(a, numer(a) * denom(b) - numer(b) * denom(a), denom(a) * denom(b))
}

/// The product of two numbers.
pub open spec fn times(a: Value, b: Value) -> Value {
    number(a, numer(a) * numer(b), denom(a) * denom(b))
}

/// The quotient of two rationals. By zero it is a quotient by zero, on
/// which nothing should be built: SMT-LIB leaves it open.
pub open spec fn over(a: Value, b: Value) -> Value {
    Value::R(numer(a) * denom(b) * sign(numer(b)), (denom(a) * numer(b) * sign(numer(b))) as nat)
}

/// The sign of an integer: 1, 0 or -1.
pub open spec fn sign(i: int) -> int {
    if i > 0 {
        1
    } else if i < 0 {
        -1
    } else {
        0
    }
}

/// True when every value is true.
pub open spec fn all_true(vs: Seq<Value>) -> bool {
    forall|i: int| 0 <= i < vs.len() ==> truth(#[trigger] vs[i])
}

/// True when some value is true.
pub open spec fn some_true(vs: Seq<Value>) -> bool {
    exists|i: int| 0 <= i < vs.len() && truth(#[trigger] vs[i])
}

/// An operator of two operands, applied from the left to all the values.
pub open spec fn chained(op: Op, vs: Seq<Value>) -> Value
    decreases vs.len(),
{
    if vs.len() == 0 {
        Value::I(0)
    } else if vs.len() == 1 {
        vs[0]
    } else {
        let acc = chained(op, vs.drop_last());
        match op {
            Op::Add => plus(acc, vs.last()),
            Op::Sub => minus(acc, vs.last()),
            _ => times(acc, vs.last()),
        }
    }
}

/// The value of an operator applied to values, with the meaning that
/// SMT-LIB gives it: division and remainder of integers are Euclidean, an
/// implication of several operands is true unless all but the last are
/// true and the last is false, and a subtraction of one operand is its
/// opposite.
pub open spec fn apply(op: Op, vs: Seq<Value>) -> Value {
    match op {
        Op::And => Value::B(all_true(vs)),
        Op::Or => Value::B(some_true(vs)),
        Op::Not => Value::B(!truth(vs[0])),
        Op::Implies => Value::B(all_true(vs.drop_last()) ==> truth(vs.last())),
        Op::Eq => Value::B(same(vs[0], vs[1])),
        Op::Add | Op::Mul => chained(op, vs),
        Op::Sub => if vs.len() == 1 {
            number(vs[0], -numer(vs[0]), denom(vs[0]))
        } else {
            chained(op, vs)
        },
        Op::IDiv => Value::I(whole(vs[0]) / whole(vs[1])),
        Op::Mod => Value::I(whole(vs[0]) % whole(vs[1])),
        Op::Div => over(vs[0], vs[1]),
        Op::Lt => Value::B(less(vs[0], vs[1])),
        Op::Le => Value::B(!less(vs[1], vs[0])),
        Op::Ge => Value::B(!less(vs[0], vs[1])),
        Op::Gt => Value::B(less(vs[1], vs[0])),
    }
}

/// The value of a term in the state `cur`, the state before it being
/// `pre`.
pub open spec fn eval(t: Term, cur: Env, pre: Env) -> Value
    decreases t, 0nat,
{
    match t {
        Term::Cst(c) => c.value(),
        Term::Var(v) => cur.values[v.id@],
        Term::Pre(v) => pre.values[v.id@],
        Term::App(op, args) => apply(op, evals(args@, cur, pre)),
        Term::Ite(c, a, b) => if truth(eval(*c, cur, pre)) {
            eval(*a, cur, pre)
        } else {
            eval(*b, cur, pre)
        },
    }
}

/// The values of the operands of an application.
pub open spec fn evals(args: Seq<Term>, cur: Env, pre: Env) -> Seq<Value>
    decreases args, 1nat,
{
    Seq::new(
        args.len(),
        |i: int|
            if 0 <= i < args.len() {
                eval(args[i], cur, pre)
            } else {
                Value::B(false)
            },
    )
}

/// True when the predicate holds at the state index `s` of the trace: in
/// the state `s`, the state before it being the state `s - 1`.
pub open spec fn holds_at(t: Term, trace: Seq<Env>, s: nat) -> bool {
    s < trace.len() && truth(
        eval(
            t,
            trace[s as int],
            if s > 0 {
                trace[s - 1]
            } else {
                trace[s as int]
            },
        ),
    )
}

impl Fact {
    /// True when the trace is as the fact says.
    pub open spec fn true_of(self, trace: Seq<Env>) -> bool {
        match self {
            Fact::Holds(t, s) => holds_at(t, trace, s),
            Fact::Fails(t, s) => s < trace.len() && !holds_at(t, trace, s),
        }
    }
}

/// True when the trace is as every fact of every frame says.
pub open spec fn satisfies(trace: Seq<Env>, frames: Seq<Seq<Fact>>) -> bool {
    forall|f: int, j: int|
        0 <= f < frames.len() && 0 <= j < frames[f].len() ==> (#[trigger] frames[f][j]).true_of(
            trace,
        )
}

/// The state that an assignment gives: each variable that is bound has
/// the value of its first binding.
pub open spec fn env_of(bindings: Seq<(Seq<char>, Value)>) -> Env {
    Env {
        values: Map::new(
            |name: Seq<char>| exists|j: int| 0 <= j < bindings.len() && #[trigger] bindings[j].0 == name,
            |name: Seq<char>|
                bindings[choose|j: int| 0 <= j < bindings.len() && #[trigger] bindings[j].0 == name].1,
        ),
    }
}

/// The states that the trace of a counterexample gives.
pub open spec fn trace_of(cex: CexView) -> Seq<Env> {
    Seq::new(cex.trace.len(), |s: int| env_of(cex.trace[s]))
}

} // verus!
