//! What evaluation means, stated over the model of values.
use crate::decimal::{fits_i64, trunc_div, trunc_rem, SCALE};
use crate::error::{Fault, RispError};
use crate::temporal::CalDateTime;
use crate::val::{order, shape_name, Builtin, Term, Val};
use std::cmp::Ordering;
use vstd::prelude::*;

verus! {

/// The model of an evaluation's result.
pub open spec fn outcome(r: Result<Val, RispError>) -> Result<Term, Fault> {
    match r {
        Ok(v) => Ok(v@),
        Err(e) => Err(e@),
    }
}

pub open spec fn checked_num(v: int) -> Result<Term, Fault> {
    if fits_i64(v) {
        Ok(Term::Num(v))
    } else {
        Err(Fault::NotANumber)
    }
}

pub open spec fn checked_float(v: int) -> Result<Term, Fault> {
    if fits_i64(v) {
        Ok(Term::Float(v))
    } else {
        Err(Fault::NotANumber)
    }
}

/// An arithmetic builtin on two whole numbers. A result out of range and a
/// zero divisor are `NotANumber`.
pub open spec fn whole_op(op: Builtin, x: int, y: int) -> Result<Term, Fault> {
    match op {
        Builtin::Add => checked_num(x + y),
        Builtin::Sub => checked_num(x - y),
        Builtin::Mul => checked_num(x * y),
        Builtin::Div => if y == 0 {
            Err(Fault::NotANumber)
        } else {
            checked_num(trunc_div(x, y))
        },
        _ => if y == 0 {
            Err(Fault::NotANumber)
        } else {
            checked_num(trunc_rem(x, y))
        },
    }
}

/// An arithmetic builtin on two decimals, given as counts of units.
pub open spec fn decimal_op(op: Builtin, x: int, y: int) -> Result<Term, Fault> {
    match op {
        Builtin::Add => checked_float(x + y),
        Builtin::Sub => checked_float(x - y),
        Builtin::Mul => checked_float(trunc_div(x * y, SCALE as int)),
        Builtin::Div => if y == 0 {
            Err(Fault::NotANumber)
        } else {
            checked_float(trunc_div(x * SCALE, y))
        },
        _ => if y == 0 {
            Err(Fault::NotANumber)
        } else {
            checked_float(trunc_rem(x, y))
        },
    }
}

/// An arithmetic builtin on two values: two whole numbers give a whole
/// number; where a decimal takes part, both are taken as decimals.
pub open spec fn arith(op: Builtin, a: Term, b: Term) -> Result<Term, Fault> {
    match (a, b) {
        (Term::Num(x), Term::Num(y)) => whole_op(op, x, y),
        (Term::Num(x), Term::Float(y)) => if fits_i64(x * SCALE) {
            decimal_op(op, x * SCALE, y)
        } else {
            Err(Fault::NotANumber)
        },
        (Term::Float(x), Term::Num(y)) => if fits_i64(y * SCALE) {
            decimal_op(op, x, y * SCALE)
        } else {
            Err(Fault::NotANumber)
        },
        (Term::Float(x), Term::Float(y)) => decimal_op(op, x, y),
        _ => Err(Fault::NotANumber),
    }
}

/// Left fold of an arithmetic builtin over `rest`, starting from `acc`.
pub open spec fn fold_arith(op: Builtin, acc: Term, rest: Seq<Term>) -> Result<Term, Fault>
    decreases rest.len(),
{
    if rest.len() == 0 {
        Ok(acc)
    } else {
        match arith(op, acc, rest[0]) {
            Ok(a) => fold_arith(op, a, rest.subrange(1, rest.len() as int)),
            Err(e) => Err(e),
        }
    }
}

/// The lesser (`Min`) or greater (`Max`) of two values; on a tie, the first.
pub open spec fn pick(op: Builtin, a: Term, b: Term) -> Result<Term, Fault> {
    match order(a, b) {
        None => Err(Fault::ArgumentMismatch),
        Some(o) => if op == Builtin::Min {
            if o == Ordering::Greater {
                Ok(b)
            } else {
                Ok(a)
            }
        } else {
            if o == Ordering::Less {
                Ok(b)
            } else {
                Ok(a)
            }
        },
    }
}

pub open spec fn fold_pick(op: Builtin, acc: Term, rest: Seq<Term>) -> Result<Term, Fault>
    decreases rest.len(),
{
    if rest.len() == 0 {
        Ok(acc)
    } else {
        match pick(op, acc, rest[0]) {
            Ok(a) => fold_pick(op, a, rest.subrange(1, rest.len() as int)),
            Err(e) => Err(e),
        }
    }
}

/// Whether an ordering satisfies the relation that a comparison builtin names.
pub open spec fn satisfies(op: Builtin, o: Ordering) -> bool {
    match op {
        Builtin::Gt => o == Ordering::Greater,
        Builtin::Lt => o == Ordering::Less,
        Builtin::Ge => o != Ordering::Less,
        Builtin::Le => o != Ordering::Greater,
        _ => o == Ordering::Equal,
    }
}

/// A comparison builtin over adjacent pairs: the first pair that fails the
/// relation gives `false`, an unordered pair before it an error.
pub open spec fn chain(op: Builtin, vs: Seq<Term>) -> Result<Term, Fault>
    decreases vs.len(),
{
    if vs.len() < 2 {
        Ok(Term::Bool(true))
    } else {
        match order(vs[0], vs[1]) {
            None => Err(Fault::ArgumentMismatch),
            Some(o) => if !satisfies(op, o) {
                Ok(Term::Bool(false))
            } else {
                chain(op, vs.subrange(1, vs.len() as int))
            },
        }
    }
}

/// The distinctness check from position `i` on: every value must be a whole
/// number; the first one equal to an earlier one gives `false`.
pub open spec fn distinct_from(vs: Seq<Term>, i: int) -> Result<Term, Fault>
    decreases vs.len() - i,
{
    if i < 0 || i >= vs.len() {
        Ok(Term::Bool(true))
    } else {
        match vs[i] {
            Term::Num(_) => if exists|j: int| 0 <= j < i && vs[j] == vs[i] {
                Ok(Term::Bool(false))
            } else {
                distinct_from(vs, i + 1)
            },
            _ => Err(Fault::NotANumber),
        }
    }
}

/// Whether a builtin receives its arguments unevaluated.
pub open spec fn is_lazy(op: Builtin) -> bool {
    op == Builtin::If || op == Builtin::And || op == Builtin::Or || op == Builtin::Not
}

/// A builtin other than the clock that takes evaluated arguments, applied
/// to them. Every such builtin needs at least one argument; `sub` of one
/// whole number negates it.
pub open spec fn combine(op: Builtin, vs: Seq<Term>) -> Result<Term, Fault> {
    if vs.len() == 0 {
        Err(Fault::NumArguments(1, 0))
    } else {
        match op {
            Builtin::Add | Builtin::Mul | Builtin::Div | Builtin::Rem => fold_arith(
                op,
                vs[0],
                vs.subrange(1, vs.len() as int),
            ),
            Builtin::Sub => if vs.len() == 1 {
                match vs[0] {
                    Term::Num(n) => checked_num(-n),
                    _ => Err(Fault::NotANumber),
                }
            } else {
                fold_arith(op, vs[0], vs.subrange(1, vs.len() as int))
            },
            Builtin::Min | Builtin::Max => fold_pick(op, vs[0], vs.subrange(1, vs.len() as int)),
            Builtin::Ne => distinct_from(vs, 0),
            _ => chain(op, vs),
        }
    }
}

/// A builtin that takes evaluated arguments, applied to them; the clock
/// takes none and reports `now`.
pub open spec fn apply_values(op: Builtin, vs: Seq<Term>, now: CalDateTime) -> Result<
    Term,
    Fault,
> {
    if op == Builtin::Now {
        if vs.len() == 0 {
            Ok(Term::DateTime(now))
        } else {
            Err(Fault::NumArguments(0, vs.len()))
        }
    } else {
        combine(op, vs)
    }
}

/// Evaluation of a value in an environment, with `now` as the moment that
/// the clock builtin reports.
pub open spec fn eval_term(env: Map<Seq<char>, Term>, t: Term, now: CalDateTime) -> Result<
    Term,
    Fault,
>
    decreases t, 2int,
{
    match t {
        Term::Risp(forms) => if forms.len() == 0 {
            Ok(t)
        } else {
            match eval_all(env, forms, now) {
                Ok(vs) => Ok(vs[vs.len() - 1]),
                Err(e) => Err(e),
            }
        },
        Term::Sym(name) => if env.contains_key(name) {
            Ok(env[name])
        } else {
            Err(Fault::UnknownFunction(name))
        },
        Term::List(cells) => if cells.len() == 0 {
            Ok(t)
        } else {
            match eval_term(env, cells[0], now) {
                Err(e) => Err(e),
                Ok(Term::Fun(_, op)) => apply(env, op, cells.subrange(1, cells.len() as int), now),
                Ok(h) => if cells.len() == 1 {
                    Ok(h)
                } else {
                    Err(Fault::WrongType("function"@, shape_name(h)))
                },
            }
        },
        _ => Ok(t),
    }
}

/// Evaluation of each value of a sequence, left to right; the first error
/// ends it.
pub open spec fn eval_all(env: Map<Seq<char>, Term>, s: Seq<Term>, now: CalDateTime) -> Result<
    Seq<Term>,
    Fault,
>
    decreases s, 0int,
{
    if s.len() == 0 {
        Ok(Seq::empty())
    } else {
        match eval_all(env, s.subrange(0, s.len() - 1), now) {
            Err(e) => Err(e),
            Ok(vs) => match eval_term(env, s[s.len() - 1], now) {
                Err(e) => Err(e),
                Ok(v) => Ok(vs.push(v)),
            },
        }
    }
}

/// A builtin applied to its unevaluated arguments.
pub open spec fn apply(env: Map<Seq<char>, Term>, op: Builtin, args: Seq<Term>, now: CalDateTime) -> Result<
    Term,
    Fault,
>
    decreases args, 1int,
{
    match op {
        Builtin::If => if args.len() != 3 {
            Err(Fault::NumArguments(3, args.len()))
        } else {
            match eval_term(env, args[0], now) {
                Err(e) => Err(e),
                Ok(Term::Bool(b)) => if b {
                    eval_term(env, args[1], now)
                } else {
                    eval_term(env, args[2], now)
                },
                Ok(c) => Err(Fault::WrongType("bool"@, shape_name(c))),
            }
        },
        Builtin::And => if args.len() < 2 {
            Err(Fault::NumArguments(2, args.len()))
        } else {
            and_from(env, args, now)
        },
        Builtin::Or => if args.len() < 2 {
            Err(Fault::NumArguments(2, args.len()))
        } else {
            or_from(env, args, false, now)
        },
        Builtin::Not => if args.len() != 1 {
            Err(Fault::NumArguments(1, args.len()))
        } else {
            match eval_term(env, args[0], now) {
                Err(e) => Err(e),
                Ok(Term::Bool(b)) => Ok(Term::Bool(!b)),
                Ok(_) => Ok(Term::Bool(false)),
            }
        },
        _ => match eval_all(env, args, now) {
            Err(e) => Err(e),
            Ok(vs) => apply_values(op, vs, now),
        },
    }
}

/// `and` over its arguments: the first that evaluates to `false` ends it
/// with `false`; otherwise the last one's value.
pub open spec fn and_from(env: Map<Seq<char>, Term>, args: Seq<Term>, now: CalDateTime) -> Result<
    Term,
    Fault,
>
    decreases args, 0int,
{
    if args.len() == 0 {
        Ok(Term::Bool(true))
    } else if args.len() == 1 {
        eval_term(env, args[0], now)
    } else {
        match eval_term(env, args[0], now) {
            Err(e) => Err(e),
            Ok(Term::Bool(false)) => Ok(Term::Bool(false)),
            Ok(_) => and_from(env, args.subrange(1, args.len() as int), now),
        }
    }
}

/// `or` over its arguments: all but the last are evaluated; where one of
/// them is other than `false` (or `seen` holds), the last one's value,
/// otherwise `false`.
pub open spec fn or_from(
    env: Map<Seq<char>, Term>,
    args: Seq<Term>,
    seen: bool,
    now: CalDateTime,
) -> Result<Term, Fault>
    decreases args, 0int,
{
    if args.len() == 0 {
        Ok(Term::Bool(false))
    } else if args.len() == 1 {
        if seen {
            eval_term(env, args[0], now)
        } else {
            Ok(Term::Bool(false))
        }
    } else {
        match eval_term(env, args[0], now) {
            Err(e) => Err(e),
            Ok(Term::Bool(false)) => or_from(env, args.subrange(1, args.len() as int), seen, now),
            Ok(_) => or_from(env, args.subrange(1, args.len() as int), true, now),
        }
    }
}

} // verus!
