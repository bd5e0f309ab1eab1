//! The tree-walking evaluator.
use crate::builtins::{apply_to_values, combine_values};
use crate::clock::read_clock;
use crate::env::Env;
use crate::error::{Fault, RispError};
use crate::semantics::{
    and_from, apply, combine, eval_all, eval_term, is_lazy, or_from, outcome,
};
use crate::temporal::CalDateTime;
use crate::val::{lemma_terms_of, terms_of, Builtin, Term, Val, ValFun};
use vstd::prelude::*;

verus! {

/// Where an evaluation of the prefix `s[0..k]` fails, the evaluation of `s`
/// fails in the same way.
proof fn lemma_eval_all_prefix_err(env: Map<Seq<char>, Term>, s: Seq<Term>, k: int, now: CalDateTime)
    requires
        0 <= k <= s.len(),
        eval_all(env, s.subrange(0, k), now) is Err,
    ensures
        eval_all(env, s, now) == eval_all(env, s.subrange(0, k), now),
    decreases s.len(),
{
    if k == s.len() {
        assert(s.subrange(0, k) =~= s);
    } else {
        let p = s.subrange(0, s.len() - 1);
        assert(p.subrange(0, k) =~= s.subrange(0, k));
        lemma_eval_all_prefix_err(env, p, k, now);
    }
}

/// Evaluates `cells[from..]` left to right.
fn eval_cells(e: &Env, cells: &Vec<Val>, from: usize, now: CalDateTime) -> (r: Result<
    Vec<Val>,
    RispError,
>)
    requires
        e.wf(),
        from <= cells@.len(),
    ensures
        match eval_all(e@, terms_of(cells@).subrange(from as int, cells@.len() as int), now) {
            Ok(vs) => r matches Ok(out) && terms_of(out@) == vs,
            Err(f) => r matches Err(x) && x@ == f,
        },
    decreases cells, 0int,
{
    let ghost ts = terms_of(cells@);
    let ghost n = cells@.len() as int;
    let ghost u = ts.subrange(from as int, n);
    proof {
        lemma_terms_of(cells@);
        assert(u.subrange(0, 0) =~= Seq::<Term>::empty());
    }
    let mut out: Vec<Val> = Vec::new();
    let mut i: usize = from;
    while i < cells.len()
        invariant
            e.wf(),
            ts == terms_of(cells@),
            n == cells@.len(),
            ts.len() == n,
            forall|j: int| 0 <= j < n ==> ts[j] == #[trigger] cells@[j]@,
            u == ts.subrange(from as int, n),
            from <= i <= n,
            eval_all(e@, u.subrange(0, i - from), now) == Ok::<Seq<Term>, Fault>(terms_of(out@)),
        decreases n - i,
    {
        let x = eval_at(e, &cells[i], now);
        proof {
            let p = u.subrange(0, i - from + 1);
            assert(p.subrange(0, i - from) =~= u.subrange(0, i - from));
            assert(p[i - from] == ts[i as int]);
        }
        match x {
            Ok(v) => {
                proof {
                    crate::val::lemma_terms_of_push(out@, v);
                }
                out.push(v);
            },
            Err(f) => {
                proof {
                    lemma_eval_all_prefix_err(e@, u, i - from + 1, now);
                }
                return Err(f);
            },
        }
        i = i + 1;
    }
    proof {
        assert(u.subrange(0, n - from) =~= u);
    }
    Ok(out)
}

/// Applies `op` to the unevaluated arguments `cells[from..]`.
fn apply_cells(e: &Env, op: Builtin, cells: &Vec<Val>, from: usize, now: CalDateTime) -> (r: Result<
    Val,
    RispError,
>)
    requires
        e.wf(),
        from <= cells@.len(),
    ensures
        outcome(r) == apply(e@, op, terms_of(cells@).subrange(from as int, cells@.len() as int), now),
    decreases cells, 1int,
{
    let ghost ts = terms_of(cells@);
    let ghost n = cells@.len() as int;
    let ghost args = ts.subrange(from as int, n);
    proof {
        lemma_terms_of(cells@);
    }
    let count = cells.len() - from;
    match op {
        Builtin::If => {
            if count != 3 {
                return Err(RispError::NumArguments(3, count));
            }
            let c = eval_at(e, &cells[from], now);
            match c {
                Err(f) => Err(f),
                Ok(Val::Bool(b)) => {
                    if b {
                        eval_at(e, &cells[from + 1], now)
                    } else {
                        eval_at(e, &cells[from + 2], now)
                    }
                },
                Ok(other) => Err(RispError::WrongType("bool".to_string(), other.shape_name())),
            }
        },
        Builtin::Not => {
            if count != 1 {
                return Err(RispError::NumArguments(1, count));
            }
            match eval_at(e, &cells[from], now) {
                Err(f) => Err(f),
                Ok(Val::Bool(b)) => Ok(Val::Bool(!b)),
                Ok(_) => Ok(Val::Bool(false)),
            }
        },
        Builtin::And => {
            if count < 2 {
                return Err(RispError::NumArguments(2, count));
            }
            let mut i: usize = from;
            while i < cells.len() - 1
                invariant
                    e.wf(),
                    ts == terms_of(cells@),
                    n == cells@.len(),
                    ts.len() == n,
                    forall|j: int| 0 <= j < n ==> ts[j] == #[trigger] cells@[j]@,
                    args == ts.subrange(from as int, n),
                    from <= i < n,
                    op == Builtin::And,
                    n - from >= 2,
                    and_from(e@, ts.subrange(i as int, n), now) == and_from(e@, args, now),
                decreases n - i,
            {
                let ghost rest = ts.subrange(i as int, n);
                proof {
                    assert(rest.subrange(1, rest.len() as int) =~= ts.subrange(i + 1, n));
                    assert(rest[0] == ts[i as int]);
                }
                let x = eval_at(e, &cells[i], now);
                proof {
                    assert(ts[i as int] == cells@[i as int]@);
                    assert(rest.len() >= 2);
                    assert(and_from(e@, rest, now) == match eval_term(e@, rest[0], now) {
                        Err(f) => Err(f),
                        Ok(Term::Bool(false)) => Ok(Term::Bool(false)),
                        Ok(_) => and_from(e@, rest.subrange(1, rest.len() as int), now),
                    });
                }
                match x {
                    Err(f) => {
                        return Err(f);
                    },
                    Ok(Val::Bool(false)) => {
                        return Ok(Val::Bool(false));
                    },
                    Ok(_) => {},
                }
                i = i + 1;
            }
            proof {
                assert(ts.subrange(i as int, n)[0] == ts[i as int]);
            }
            eval_at(e, &cells[i], now)
        },
        Builtin::Or => {
            if count < 2 {
                return Err(RispError::NumArguments(2, count));
            }
            let mut seen = false;
            let mut i: usize = from;
            while i < cells.len() - 1
                invariant
                    e.wf(),
                    ts == terms_of(cells@),
                    n == cells@.len(),
                    ts.len() == n,
                    forall|j: int| 0 <= j < n ==> ts[j] == #[trigger] cells@[j]@,
                    args == ts.subrange(from as int, n),
                    from <= i < n,
                    op == Builtin::Or,
                    n - from >= 2,
                    or_from(e@, ts.subrange(i as int, n), seen, now) == or_from(e@, args, false, now),
                decreases n - i,
            {
                let ghost rest = ts.subrange(i as int, n);
                proof {
                    assert(rest.subrange(1, rest.len() as int) =~= ts.subrange(i + 1, n));
                    assert(rest[0] == ts[i as int]);
                }
                let x = eval_at(e, &cells[i], now);
                proof {
                    assert(ts[i as int] == cells@[i as int]@);
                    assert(rest.len() >= 2);
                    assert(or_from(e@, rest, seen, now) == match eval_term(e@, rest[0], now) {
                        Err(f) => Err(f),
                        Ok(Term::Bool(false)) => or_from(
                            e@,
                            rest.subrange(1, rest.len() as int),
                            seen,
                            now,
                        ),
                        Ok(_) => or_from(e@, rest.subrange(1, rest.len() as int), true, now),
                    });
                }
                match x {
                    Err(f) => {
                        return Err(f);
                    },
                    Ok(Val::Bool(false)) => {},
                    Ok(_) => {
                        seen = true;
                    },
                }
                i = i + 1;
            }
            proof {
                assert(ts.subrange(i as int, n)[0] == ts[i as int]);
            }
            if seen {
                eval_at(e, &cells[i], now)
            } else {
                Ok(Val::Bool(false))
            }
        },
        _ => {
            let vals = eval_cells(e, cells, from, now);
            match vals {
                Ok(vs) => apply_to_values(op, &vs, now),
                Err(f) => Err(f),
            }
        },
    }
}

/// Evaluates `v` in `e`, with `now` as the moment that the clock builtin
/// reports.
pub fn eval_at(e: &Env, v: &Val, now: CalDateTime) -> (r: Result<Val, RispError>)
    requires
        e.wf(),
    ensures
        outcome(r) == eval_term(e@, v@, now),
    decreases v, 2int,
{
    match v {
        Val::Risp(forms) => {
            if forms.len() == 0 {
                return Ok(v.duplicate());
            }
            proof {
                lemma_terms_of(forms@);
                assert(terms_of(forms@).subrange(0, forms@.len() as int) =~= terms_of(forms@));
            }
            match eval_cells(e, forms, 0, now) {
                Ok(vs) => {
                    proof {
                        lemma_terms_of(vs@);
                    }
                    let last = vs.len() - 1;
                    Ok(vs[last].duplicate())
                },
                Err(f) => Err(f),
            }
        },
        Val::Sym(name) => e.get(name.as_str()),
        Val::List(cells) => {
            if cells.len() == 0 {
                return Ok(v.duplicate());
            }
            proof {
                lemma_terms_of(cells@);
            }
            match eval_at(e, &cells[0], now) {
                Err(f) => Err(f),
                Ok(Val::Fun(ValFun::Builtin(_, op))) => apply_cells(e, op, cells, 1, now),
                Ok(h) => {
                    if cells.len() == 1 {
                        Ok(h)
                    } else {
                        Err(RispError::WrongType("function".to_string(), h.shape_name()))
                    }
                },
            }
        },
        _ => Ok(v.duplicate()),
    }
}

/// Evaluates `v` in `e`, reading the local clock once for the clock builtin.
pub fn eval(e: &mut Env, v: &mut Val) -> (r: Result<Val, RispError>)
    requires
        old(e).wf(),
    ensures
        *final(e) == *old(e),
        *final(v) == *old(v),
        exists|now: CalDateTime| now.wf() && outcome(r) == eval_term(old(e)@, old(v)@, now),
{
    let now = read_clock();
    eval_at(e, v, now)
}

/// A builtin that takes evaluated arguments, given them as a list; a value
/// other than a list is handed back.
pub open spec fn on_values(op: Builtin, a: Term) -> Result<Term, Fault> {
    match a {
        Term::List(vs) => combine(op, vs),
        _ => Ok(a),
    }
}

/// A builtin given its arguments as a list, with `now` as the clock's
/// reading; a value other than a list is a `WrongType`.
pub open spec fn on_arguments(env: Map<Seq<char>, Term>, op: Builtin, a: Term, now: CalDateTime) -> Result<
    Term,
    Fault,
> {
    match a {
        Term::List(args) => apply(env, op, args, now),
        _ => Err(Fault::WrongType("list"@, crate::val::shape_name(a))),
    }
}

fn eager(op: Builtin, a: &Val) -> (r: Result<Val, RispError>)
    requires
        !is_lazy(op),
        op != Builtin::Now,
    ensures
        outcome(r) == on_values(op, a@),
{
    match a {
        Val::List(vs) => combine_values(op, vs),
        _ => Ok(a.duplicate()),
    }
}

fn with_arguments(e: &Env, op: Builtin, a: &Val, now: CalDateTime) -> (r: Result<Val, RispError>)
    requires
        e.wf(),
    ensures
        outcome(r) == on_arguments(e@, op, a@, now),
{
    match a {
        Val::List(cells) => {
            proof {
                lemma_terms_of(cells@);
                assert(terms_of(cells@).subrange(0, cells@.len() as int) =~= terms_of(cells@));
            }
            apply_cells(e, op, cells, 0, now)
        },
        _ => Err(RispError::WrongType("list".to_string(), a.shape_name())),
    }
}

/// `add`: the sum of the evaluated arguments in `a`.
pub fn builtin_add(e: &mut Env, a: &mut Val) -> (r: Result<Val, RispError>)
    ensures
        outcome(r) == on_values(Builtin::Add, old(a)@),
        *final(e) == *old(e),
        *final(a) == *old(a),
{
    eager(Builtin::Add, a)
}

/// `sub`: the first argument less the others, or the negation of a single one.
pub fn builtin_sub(e: &mut Env, a: &mut Val) -> (r: Result<Val, RispError>)
    ensures
        outcome(r) == on_values(Builtin::Sub, old(a)@),
        *final(e) == *old(e),
        *final(a) == *old(a),
{
    eager(Builtin::Sub, a)
}

/// `mul`: the product of the arguments.
pub fn builtin_mul(e: &mut Env, a: &mut Val) -> (r: Result<Val, RispError>)
    ensures
        outcome(r) == on_values(Builtin::Mul, old(a)@),
        *final(e) == *old(e),
        *final(a) == *old(a),
{
    eager(Builtin::Mul, a)
}

/// `div`: the first argument divided by the others in turn.
pub fn builtin_div(e: &mut Env, a: &mut Val) -> (r: Result<Val, RispError>)
    ensures
        outcome(r) == on_values(Builtin::Div, old(a)@),
        *final(e) == *old(e),
        *final(a) == *old(a),
{
    eager(Builtin::Div, a)
}

/// `rem`: the remainder of the first argument by the others in turn.
pub fn builtin_rem(e: &mut Env, a: &mut Val) -> (r: Result<Val, RispError>)
    ensures
        outcome(r) == on_values(Builtin::Rem, old(a)@),
        *final(e) == *old(e),
        *final(a) == *old(a),
{
    eager(Builtin::Rem, a)
}

/// `min`: the least argument.
pub fn builtin_min(e: &mut Env, a: &mut Val) -> (r: Result<Val, RispError>)
    ensures
        outcome(r) == on_values(Builtin::Min, old(a)@),
        *final(e) == *old(e),
        *final(a) == *old(a),
{
    eager(Builtin::Min, a)
}

/// `max`: the greatest argument.
pub fn builtin_max(e: &mut Env, a: &mut Val) -> (r: Result<Val, RispError>)
    ensures
        outcome(r) == on_values(Builtin::Max, old(a)@),
        *final(e) == *old(e),
        *final(a) == *old(a),
{
    eager(Builtin::Max, a)
}

/// `gt`: whether the arguments strictly decrease.
pub fn builtin_gt(e: &mut Env, a: &mut Val) -> (r: Result<Val, RispError>)
    ensures
        outcome(r) == on_values(Builtin::Gt, old(a)@),
        *final(e) == *old(e),
        *final(a) == *old(a),
{
    eager(Builtin::Gt, a)
}

/// `lt`: whether the arguments strictly increase.
pub fn builtin_lt(e: &mut Env, a: &mut Val) -> (r: Result<Val, RispError>)
    ensures
        outcome(r) == on_values(Builtin::Lt, old(a)@),
        *final(e) == *old(e),
        *final(a) == *old(a),
{
    eager(Builtin::Lt, a)
}

/// `ge`: whether the arguments never increase.
pub fn builtin_ge(e: &mut Env, a: &mut Val) -> (r: Result<Val, RispError>)
    ensures
        outcome(r) == on_values(Builtin::Ge, old(a)@),
        *final(e) == *old(e),
        *final(a) == *old(a),
{
    eager(Builtin::Ge, a)
}

/// `le`: whether the arguments never decrease.
pub fn builtin_le(e: &mut Env, a: &mut Val) -> (r: Result<Val, RispError>)
    ensures
        outcome(r) == on_values(Builtin::Le, old(a)@),
        *final(e) == *old(e),
        *final(a) == *old(a),
{
    eager(Builtin::Le, a)
}

/// `eq`: whether the arguments are all equal in the order.
pub fn builtin_eq(e: &mut Env, a: &mut Val) -> (r: Result<Val, RispError>)
    ensures
        outcome(r) == on_values(Builtin::Eq, old(a)@),
        *final(e) == *old(e),
        *final(a) == *old(a),
{
    eager(Builtin::Eq, a)
}

/// `ne`: whether the whole-number arguments are pairwise distinct.
pub fn builtin_ne(e: &mut Env, a: &mut Val) -> (r: Result<Val, RispError>)
    ensures
        outcome(r) == on_values(Builtin::Ne, old(a)@),
        *final(e) == *old(e),
        *final(a) == *old(a),
{
    eager(Builtin::Ne, a)
}

/// `now`: the current local date and time; it takes no arguments.
pub fn builtin_now(e: &mut Env, a: &mut Val) -> (r: Result<Val, RispError>)
    ensures
        *final(e) == *old(e),
        *final(a) == *old(a),
        match old(a)@ {
            Term::List(vs) => exists|now: CalDateTime|
                now.wf() && outcome(r) == crate::semantics::apply_values(Builtin::Now, vs, now),
            _ => outcome(r) == Err::<Term, Fault>(
                Fault::WrongType("list"@, crate::val::shape_name(old(a)@)),
            ),
        },
{
    match a {
        Val::List(vs) => {
            let now = read_clock();
            apply_to_values(Builtin::Now, vs, now)
        },
        _ => Err(RispError::WrongType("list".to_string(), a.shape_name())),
    }
}

/// `if`: evaluates the condition, then exactly one of the two branches.
pub fn builtin_if(e: &mut Env, a: &mut Val) -> (r: Result<Val, RispError>)
    requires
        old(e).wf(),
    ensures
        *final(e) == *old(e),
        *final(a) == *old(a),
        exists|now: CalDateTime|
            now.wf() && outcome(r) == on_arguments(old(e)@, Builtin::If, old(a)@, now),
{
    let now = read_clock();
    with_arguments(e, Builtin::If, a, now)
}

/// `and`: the first argument that is `false` gives `false`, else the last
/// argument's value.
pub fn builtin_and(e: &mut Env, a: &mut Val) -> (r: Result<Val, RispError>)
    requires
        old(e).wf(),
    ensures
        *final(e) == *old(e),
        *final(a) == *old(a),
        exists|now: CalDateTime|
            now.wf() && outcome(r) == on_arguments(old(e)@, Builtin::And, old(a)@, now),
{
    let now = read_clock();
    with_arguments(e, Builtin::And, a, now)
}

/// `or`: the last argument's value where an earlier one is other than
/// `false`, else `false`.
pub fn builtin_or(e: &mut Env, a: &mut Val) -> (r: Result<Val, RispError>)
    requires
        old(e).wf(),
    ensures
        *final(e) == *old(e),
        *final(a) == *old(a),
        exists|now: CalDateTime|
            now.wf() && outcome(r) == on_arguments(old(e)@, Builtin::Or, old(a)@, now),
{
    let now = read_clock();
    with_arguments(e, Builtin::Or, a, now)
}

/// `not`: the negation of a boolean argument; any other value gives `false`.
pub fn builtin_not(e: &mut Env, a: &mut Val) -> (r: Result<Val, RispError>)
    requires
        old(e).wf(),
    ensures
        *final(e) == *old(e),
        *final(a) == *old(a),
        exists|now: CalDateTime|
            now.wf() && outcome(r) == on_arguments(old(e)@, Builtin::Not, old(a)@, now),
{
    let now = read_clock();
    with_arguments(e, Builtin::Not, a, now)
}

} // verus!
