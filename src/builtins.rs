//! The builtins that work on evaluated arguments: arithmetic, comparison,
//! distinctness and the clock.
use crate::decimal::{div_toward_zero, rem_toward_zero, Decimal};
use crate::error::{Fault, RispError};
use crate::semantics::{
    apply_values, arith, chain, combine, distinct_from, fold_arith, fold_pick, is_lazy, outcome, pick,
    satisfies,
};
use crate::temporal::CalDateTime;
use crate::val::{lemma_terms_of, terms_of, Builtin, Term, Val};
use std::cmp::Ordering;
use vstd::prelude::*;

verus! {

pub open spec fn is_arith(op: Builtin) -> bool {
    op == Builtin::Add || op == Builtin::Sub || op == Builtin::Mul || op == Builtin::Div || op
        == Builtin::Rem
}

fn whole(op: Builtin, x: i64, y: i64) -> (r: Result<Val, RispError>)
    requires
        is_arith(op),
    ensures
        outcome(r) == arith(op, Term::Num(x as int), Term::Num(y as int)),
{
    let v = match op {
        Builtin::Add => x.checked_add(y),
        Builtin::Sub => x.checked_sub(y),
        Builtin::Mul => x.checked_mul(y),
        Builtin::Div => {
            if y == 0 {
                None
            } else {
                let q = div_toward_zero(x as i128, y as i128);
                if q < i64::MIN as i128 || q > i64::MAX as i128 {
                    None
                } else {
                    Some(q as i64)
                }
            }
        },
        _ => {
            if y == 0 {
                None
            } else {
                let q = rem_toward_zero(x as i128, y as i128);
                if q < i64::MIN as i128 || q > i64::MAX as i128 {
                    None
                } else {
                    Some(q as i64)
                }
            }
        },
    };
    match v {
        Some(n) => Ok(Val::Num(n)),
        None => Err(RispError::NotANumber),
    }
}

fn decimal(op: Builtin, x: Decimal, y: Decimal) -> (r: Result<Val, RispError>)
    requires
        is_arith(op),
    ensures
        outcome(r) == arith(op, Term::Float(x.units as int), Term::Float(y.units as int)),
{
    let v = match op {
        Builtin::Add => x.checked_add(y),
        Builtin::Sub => x.checked_sub(y),
        Builtin::Mul => x.checked_mul(y),
        Builtin::Div => x.checked_div(y),
        _ => x.checked_rem(y),
    };
    match v {
        Some(d) => Ok(Val::Float(d)),
        None => Err(RispError::NotANumber),
    }
}

/// An arithmetic builtin on two values.
pub fn arith_pair(op: Builtin, a: &Val, b: &Val) -> (r: Result<Val, RispError>)
    requires
        is_arith(op),
    ensures
        outcome(r) == arith(op, a@, b@),
{
    match (a, b) {
        (Val::Num(x), Val::Num(y)) => whole(op, *x, *y),
        (Val::Num(x), Val::Float(y)) => match Decimal::from_whole(*x) {
            Some(dx) => decimal(op, dx, *y),
            None => Err(RispError::NotANumber),
        },
        (Val::Float(x), Val::Num(y)) => match Decimal::from_whole(*y) {
            Some(dy) => decimal(op, *x, dy),
            None => Err(RispError::NotANumber),
        },
        (Val::Float(x), Val::Float(y)) => decimal(op, *x, *y),
        _ => Err(RispError::NotANumber),
    }
}

/// The lesser or greater of two values, as `pick` states.
pub fn pick_pair(op: Builtin, a: &Val, b: &Val) -> (r: Result<Val, RispError>)
    requires
        op == Builtin::Min || op == Builtin::Max,
    ensures
        outcome(r) == pick(op, a@, b@),
{
    match a.partial_cmp(b) {
        None => Err(RispError::ArgumentMismatch),
        Some(o) => {
            let take_second = match (op, o) {
                (Builtin::Min, Ordering::Greater) => true,
                (Builtin::Max, Ordering::Less) => true,
                _ => false,
            };
            if take_second {
                Ok(b.duplicate())
            } else {
                Ok(a.duplicate())
            }
        },
    }
}

fn satisfied(op: Builtin, o: Ordering) -> (r: bool)
    ensures
        r == satisfies(op, o),
{
    match (op, o) {
        (Builtin::Gt, Ordering::Greater) => true,
        (Builtin::Gt, _) => false,
        (Builtin::Lt, Ordering::Less) => true,
        (Builtin::Lt, _) => false,
        (Builtin::Ge, Ordering::Less) => false,
        (Builtin::Ge, _) => true,
        (Builtin::Le, Ordering::Greater) => false,
        (Builtin::Le, _) => true,
        (_, Ordering::Equal) => true,
        _ => false,
    }
}

/// Left fold of an arithmetic builtin (or `min`, `max`) over `vs`.
fn fold_values(op: Builtin, vs: &Vec<Val>) -> (r: Result<Val, RispError>)
    requires
        is_arith(op) || op == Builtin::Min || op == Builtin::Max,
        vs@.len() > 0,
    ensures
        is_arith(op) ==> outcome(r) == fold_arith(
            op,
            terms_of(vs@)[0],
            terms_of(vs@).subrange(1, vs@.len() as int),
        ),
        !is_arith(op) ==> outcome(r) == fold_pick(
            op,
            terms_of(vs@)[0],
            terms_of(vs@).subrange(1, vs@.len() as int),
        ),
{
    let ghost ts = terms_of(vs@);
    let ghost n = vs@.len() as int;
    proof {
        lemma_terms_of(vs@);
    }
    let mut acc = vs[0].duplicate();
    let mut i: usize = 1;
    while i < vs.len()
        invariant
            ts == terms_of(vs@),
            n == vs@.len(),
            ts.len() == n,
            forall|j: int| 0 <= j < n ==> ts[j] == #[trigger] vs@[j]@,
            1 <= i <= n,
            is_arith(op) || op == Builtin::Min || op == Builtin::Max,
            is_arith(op) ==> fold_arith(op, acc@, ts.subrange(i as int, n)) == fold_arith(
                op,
                ts[0],
                ts.subrange(1, n),
            ),
            !is_arith(op) ==> fold_pick(op, acc@, ts.subrange(i as int, n)) == fold_pick(
                op,
                ts[0],
                ts.subrange(1, n),
            ),
        decreases n - i,
    {
        let step = if is_arith_op(op) {
            arith_pair(op, &acc, &vs[i])
        } else {
            pick_pair(op, &acc, &vs[i])
        };
        proof {
            assert(ts.subrange(i as int, n).subrange(1, n - i) =~= ts.subrange(i + 1, n));
            assert(ts.subrange(i as int, n)[0] == ts[i as int]);
        }
        match step {
            Ok(a) => {
                acc = a;
            },
            Err(e) => {
                return Err(e);
            },
        }
        i = i + 1;
    }
    Ok(acc)
}

fn is_arith_op(op: Builtin) -> (r: bool)
    ensures
        r == is_arith(op),
{
    match op {
        Builtin::Add | Builtin::Sub | Builtin::Mul | Builtin::Div | Builtin::Rem => true,
        _ => false,
    }
}

/// A comparison builtin over the adjacent pairs of `vs`.
fn chain_values(op: Builtin, vs: &Vec<Val>) -> (r: Result<Val, RispError>)
    ensures
        outcome(r) == chain(op, terms_of(vs@)),
{
    let ghost ts = terms_of(vs@);
    let ghost n = vs@.len() as int;
    proof {
        lemma_terms_of(vs@);
        assert(ts.subrange(0, n) =~= ts);
    }
    if vs.len() < 2 {
        return Ok(Val::Bool(true));
    }
    let mut i: usize = 0;
    while i < vs.len() - 1
        invariant
            ts == terms_of(vs@),
            n == vs@.len(),
            ts.len() == n,
            forall|j: int| 0 <= j < n ==> ts[j] == #[trigger] vs@[j]@,
            0 <= i < n,
            chain(op, ts.subrange(i as int, n)) == chain(op, ts),
        decreases n - i,
    {
        proof {
            assert(ts.subrange(i as int, n).subrange(1, n - i) =~= ts.subrange(i + 1, n));
            assert(ts.subrange(i as int, n)[0] == ts[i as int]);
            assert(ts.subrange(i as int, n)[1] == ts[i + 1]);
        }
        match vs[i].partial_cmp(&vs[i + 1]) {
            None => {
                return Err(RispError::ArgumentMismatch);
            },
            Some(o) => {
                if !satisfied(op, o) {
                    return Ok(Val::Bool(false));
                }
            },
        }
        i = i + 1;
    }
    Ok(Val::Bool(true))
}

/// Whether the whole numbers in `vs` are pairwise distinct, as
/// `distinct_from` states.
fn distinct_values(vs: &Vec<Val>) -> (r: Result<Val, RispError>)
    ensures
        outcome(r) == distinct_from(terms_of(vs@), 0),
{
    let ghost ts = terms_of(vs@);
    let ghost n = vs@.len() as int;
    proof {
        lemma_terms_of(vs@);
    }
    let mut seen: Vec<i64> = Vec::new();
    let mut i: usize = 0;
    while i < vs.len()
        invariant
            ts == terms_of(vs@),
            n == vs@.len(),
            ts.len() == n,
            forall|j: int| 0 <= j < n ==> ts[j] == #[trigger] vs@[j]@,
            0 <= i <= n,
            seen@.len() == i,
            forall|j: int| 0 <= j < i ==> ts[j] == Term::Num(#[trigger] seen@[j] as int),
            distinct_from(ts, i as int) == distinct_from(ts, 0),
        decreases n - i,
    {
        let x = match vs[i].as_num() {
            Ok(x) => x,
            Err(e) => {
                return Err(e);
            },
        };
        let mut k: usize = 0;
        while k < seen.len()
            invariant
                0 <= k <= seen@.len(),
                forall|j: int| 0 <= j < k ==> seen@[j] != x,
                ts == terms_of(vs@),
                n == vs@.len(),
                ts.len() == n,
                forall|j: int| 0 <= j < n ==> ts[j] == #[trigger] vs@[j]@,
                0 <= i < n,
                seen@.len() == i,
                forall|j: int| 0 <= j < i ==> ts[j] == Term::Num(#[trigger] seen@[j] as int),
                ts[i as int] == Term::Num(x as int),
                distinct_from(ts, i as int) == distinct_from(ts, 0),
            decreases seen@.len() - k,
        {
            if seen[k] == x {
                proof {
                    assert(ts[k as int] == ts[i as int]);
                    assert(exists|j: int| 0 <= j < i && ts[j] == ts[i as int]);
                    assert(distinct_from(ts, i as int) == Ok::<Term, Fault>(Term::Bool(false)));
                }
                return Ok(Val::Bool(false));
            }
            k = k + 1;
        }
        proof {
            assert forall|j: int| 0 <= j < i implies ts[j] != ts[i as int] by {
                assert(seen@[j] != x);
            }
        }
        seen.push(x);
        i = i + 1;
    }
    Ok(Val::Bool(true))
}

/// A builtin other than the clock, applied to the evaluated arguments `vs`.
pub fn combine_values(op: Builtin, vs: &Vec<Val>) -> (r: Result<Val, RispError>)
    requires
        !is_lazy(op),
        op != Builtin::Now,
    ensures
        outcome(r) == combine(op, terms_of(vs@)),
{
    proof {
        lemma_terms_of(vs@);
    }
    if vs.len() == 0 {
        return Err(RispError::NumArguments(1, 0));
    }
    match op {
        Builtin::Sub => {
            if vs.len() == 1 {
                return match vs[0].as_num() {
                    Ok(n) => if n == i64::MIN {
                        Err(RispError::NotANumber)
                    } else {
                        Ok(Val::Num(-n))
                    },
                    Err(e) => Err(e),
                };
            }
            fold_values(op, vs)
        },
        Builtin::Add | Builtin::Mul | Builtin::Div | Builtin::Rem | Builtin::Min | Builtin::Max => {
            fold_values(op, vs)
        },
        Builtin::Ne => distinct_values(vs),
        _ => chain_values(op, vs),
    }
}

/// A builtin that takes evaluated arguments, applied to `vs`; `now` is the
/// moment that the clock builtin reports.
pub fn apply_to_values(op: Builtin, vs: &Vec<Val>, now: CalDateTime) -> (r: Result<Val, RispError>)
    requires
        !is_lazy(op),
    ensures
        outcome(r) == apply_values(op, terms_of(vs@), now),
{
    proof {
        lemma_terms_of(vs@);
    }
    match op {
        Builtin::Now => {
            if vs.len() == 0 {
                Ok(Val::DateTime(now))
            } else {
                Err(RispError::NumArguments(0, vs.len()))
            }
        },
        _ => combine_values(op, vs),
    }
}

} // verus!
