//! The runtime values of the language and their mathematical model.
use crate::decimal::{Decimal, SCALE};
use crate::error::{Fault, RispError};
use crate::temporal::{cmp_int, midnight, CalDate, CalDateTime, ClockTime};
use std::cmp::Ordering;
use vstd::prelude::*;

verus! {

/// The builtin operations, one tag for each entry of the dispatch table.
#[derive(Clone, Copy, Debug, PartialEq, Eq, Structural)]
pub enum Builtin {
    Add,
    Sub,
    Mul,
    Div,
    Rem,
    Min,
    Max,
    Gt,
    Lt,
    Ge,
    Le,
    Eq,
    Ne,
    If,
    Now,
    And,
    Or,
    Not,
}

/// A callable value: a name and the builtin it dispatches to.
#[derive(Clone, Debug, PartialEq, Eq)]
pub enum ValFun {
    Builtin(String, Builtin),
}

/// A value of the language.
#[derive(Debug, PartialEq)]
pub enum Val {
    Bool(bool),
    Float(Decimal),
    Fun(ValFun),
    List(Vec<Val>),
    Num(i64),
    Risp(Vec<Val>),
    Sym(String),
    Time(ClockTime),
    Date(CalDate),
    DateTime(CalDateTime),
}

/// The mathematical model of a `Val`: strings become character sequences,
/// children become sequences of models, a decimal its count of units.
pub enum Term {
    Bool(bool),
    Float(int),
    Fun(Seq<char>, Builtin),
    List(Seq<Term>),
    Num(int),
    Risp(Seq<Term>),
    Sym(Seq<char>),
    Time(ClockTime),
    Date(CalDate),
    DateTime(CalDateTime),
}

pub open spec fn term_of(v: Val) -> Term
    decreases v,
{
    match v {
        Val::Bool(b) => Term::Bool(b),
        Val::Float(d) => Term::Float(d.units as int),
        Val::Fun(ValFun::Builtin(n, op)) => Term::Fun(n@, op),
        Val::List(c) => Term::List(terms_of(c@)),
        Val::Num(n) => Term::Num(n as int),
        Val::Risp(c) => Term::Risp(terms_of(c@)),
        Val::Sym(s) => Term::Sym(s@),
        Val::Time(t) => Term::Time(t),
        Val::Date(d) => Term::Date(d),
        Val::DateTime(d) => Term::DateTime(d),
    }
}

pub open spec fn terms_of(s: Seq<Val>) -> Seq<Term>
    decreases s,
{
    if s.len() == 0 {
        Seq::empty()
    } else {
        terms_of(s.subrange(0, s.len() - 1)).push(term_of(s[s.len() - 1]))
    }
}

impl View for Val {
    type V = Term;

    open spec fn view(&self) -> Term {
        term_of(*self)
    }
}

pub proof fn lemma_terms_of(s: Seq<Val>)
    ensures
        terms_of(s).len() == s.len(),
        forall|i: int| 0 <= i < s.len() ==> #[trigger] terms_of(s)[i] == term_of(s[i]),
    decreases s.len(),
{
    if s.len() > 0 {
        lemma_terms_of(s.subrange(0, s.len() - 1));
    }
}

pub proof fn lemma_terms_of_push(s: Seq<Val>, x: Val)
    ensures
        terms_of(s.push(x)) == terms_of(s).push(term_of(x)),
{
    assert(s.push(x).subrange(0, s.len() as int) =~= s);
}

/// The name of a value's shape, as error messages give it.
pub open spec fn shape_name(t: Term) -> Seq<char> {
    match t {
        Term::Bool(_) => "bool"@,
        Term::Float(_) => "float"@,
        Term::Fun(_, _) => "function"@,
        Term::List(_) => "list"@,
        Term::Num(_) => "num"@,
        Term::Risp(_) => "program"@,
        Term::Sym(_) => "symbol"@,
        Term::Time(_) => "time"@,
        Term::Date(_) => "date"@,
        Term::DateTime(_) => "datetime"@,
    }
}

/// The partial order of values: numbers among themselves (a whole number
/// and a decimal compare exactly), and calendar values. A time of day
/// compares with the time part of a date-time; a date stands for its
/// midnight when compared with a date-time.
pub open spec fn order(a: Term, b: Term) -> Option<Ordering> {
    match (a, b) {
        (Term::Num(x), Term::Num(y)) => Some(cmp_int(x, y)),
        (Term::Num(x), Term::Float(y)) => Some(cmp_int(x * SCALE, y)),
        (Term::Float(x), Term::Num(y)) => Some(cmp_int(x, y * SCALE)),
        (Term::Float(x), Term::Float(y)) => Some(cmp_int(x, y)),
        (Term::Time(x), Term::Time(y)) => Some(x.order(y)),
        (Term::Date(x), Term::Date(y)) => Some(x.order(y)),
        (Term::DateTime(x), Term::DateTime(y)) => Some(x.order(y)),
        (Term::Time(x), Term::DateTime(y)) => Some(x.order(y.time)),
        (Term::DateTime(x), Term::Time(y)) => Some(x.time.order(y)),
        (Term::Date(x), Term::DateTime(y)) => Some(
            (CalDateTime { date: x, time: midnight() }).order(y),
        ),
        (Term::DateTime(x), Term::Date(y)) => Some(
            x.order(CalDateTime { date: y, time: midnight() }),
        ),
        _ => None,
    }
}

fn cmp_i128(a: i128, b: i128) -> (r: Ordering)
    ensures
        r == cmp_int(a as int, b as int),
{
    if a < b {
        Ordering::Less
    } else if a > b {
        Ordering::Greater
    } else {
        Ordering::Equal
    }
}

fn copy_all(c: &Vec<Val>) -> (r: Vec<Val>)
    ensures
        terms_of(r@) == terms_of(c@),
    decreases c,
{
    let mut r: Vec<Val> = Vec::new();
    let mut i: usize = 0;
    while i < c.len()
        invariant
            i <= c@.len(),
            terms_of(r@) == terms_of(c@.subrange(0, i as int)),
        decreases c@.len() - i,
    {
        let x = c[i].duplicate();
        proof {
            lemma_terms_of_push(r@, x);
            assert(c@.subrange(0, i + 1) =~= c@.subrange(0, i as int).push(c@[i as int]));
            lemma_terms_of_push(c@.subrange(0, i as int), c@[i as int]);
        }
        r.push(x);
        i = i + 1;
    }
    assert(c@.subrange(0, c@.len() as int) =~= c@);
    r
}

impl Val {
    /// A deep copy with the same model.
    pub fn duplicate(&self) -> (r: Val)
        ensures
            r@ == self@,
        decreases self,
    {
        match self {
            Val::Bool(b) => Val::Bool(*b),
            Val::Float(d) => Val::Float(*d),
            Val::Fun(ValFun::Builtin(n, op)) => Val::Fun(ValFun::Builtin(n.clone(), *op)),
            Val::List(c) => Val::List(copy_all(c)),
            Val::Num(n) => Val::Num(*n),
            Val::Risp(c) => Val::Risp(copy_all(c)),
            Val::Sym(s) => Val::Sym(s.clone()),
            Val::Time(t) => Val::Time(*t),
            Val::Date(d) => Val::Date(*d),
            Val::DateTime(d) => Val::DateTime(*d),
        }
    }

    /// The name of this value's shape.
    pub fn shape_name(&self) -> (r: String)
        ensures
            r@ == shape_name(self@),
    {
        match self {
            Val::Bool(_) => "bool".to_string(),
            Val::Float(_) => "float".to_string(),
            Val::Fun(_) => "function".to_string(),
            Val::List(_) => "list".to_string(),
            Val::Num(_) => "num".to_string(),
            Val::Risp(_) => "program".to_string(),
            Val::Sym(_) => "symbol".to_string(),
            Val::Time(_) => "time".to_string(),
            Val::Date(_) => "date".to_string(),
            Val::DateTime(_) => "datetime".to_string(),
        }
    }

    /// The number of children of a list or a program.
    pub fn len(&self) -> (r: Result<usize, RispError>)
        ensures
            match self@ {
                Term::List(c) | Term::Risp(c) => r == Ok::<usize, RispError>(c.len() as usize),
                _ => r == Err::<usize, RispError>(RispError::NoChildren),
            },
    {
        proof {
            match self {
                Val::List(c) | Val::Risp(c) => lemma_terms_of(c@),
                _ => {},
            }
        }
        match self {
            Val::List(c) | Val::Risp(c) => Ok(c.len()),
            _ => Err(RispError::NoChildren),
        }
    }

    pub fn as_num(&self) -> (r: Result<i64, RispError>)
        ensures
            match self@ {
                Term::Num(n) => r == Ok::<i64, RispError>(n as i64),
                _ => r == Err::<i64, RispError>(RispError::NotANumber),
            },
    {
        match self {
            Val::Num(n) => Ok(*n),
            _ => Err(RispError::NotANumber),
        }
    }

    pub fn as_bool(&self) -> (r: Result<bool, RispError>)
        ensures
            match self@ {
                Term::Bool(b) => r == Ok::<bool, RispError>(b),
                _ => r matches Err(e) && e@ == Fault::WrongType("bool"@, shape_name(self@)),
            },
    {
        match self {
            Val::Bool(b) => Ok(*b),
            _ => Err(RispError::WrongType("bool".to_string(), self.shape_name())),
        }
    }

    /// Compares two values under the partial order `order`.
    pub fn partial_cmp(&self, other: &Val) -> (r: Option<Ordering>)
        ensures
            r == order(self@, other@),
    {
        match (self, other) {
            (Val::Num(x), Val::Num(y)) => Some(cmp_i128(*x as i128, *y as i128)),
            (Val::Num(x), Val::Float(y)) => Some(
                cmp_i128(*x as i128 * SCALE as i128, y.units as i128),
            ),
            (Val::Float(x), Val::Num(y)) => Some(
                cmp_i128(x.units as i128, *y as i128 * SCALE as i128),
            ),
            (Val::Float(x), Val::Float(y)) => Some(cmp_i128(x.units as i128, y.units as i128)),
            (Val::Time(x), Val::Time(y)) => Some(x.compare(y)),
            (Val::Date(x), Val::Date(y)) => Some(x.compare(y)),
            (Val::DateTime(x), Val::DateTime(y)) => Some(x.compare(y)),
            (Val::Time(x), Val::DateTime(y)) => Some(x.compare(&y.time)),
            (Val::DateTime(x), Val::Time(y)) => Some(x.time.compare(y)),
            (Val::Date(x), Val::DateTime(y)) => Some(
                CalDateTime::new(*x, ClockTime { secs: 0, frac: 0 }).compare(y),
            ),
            (Val::DateTime(x), Val::Date(y)) => Some(
                x.compare(&CalDateTime::new(*y, ClockTime { secs: 0, frac: 0 })),
            ),
            _ => None,
        }
    }
}

impl Clone for Val {
    fn clone(&self) -> (r: Val)
        ensures
            r@ == self@,
    {
        self.duplicate()
    }
}

pub fn val_risp() -> (r: Val)
    ensures
        r@ == Term::Risp(Seq::empty()),
{
    Val::Risp(Vec::new())
}

pub fn val_num(n: i64) -> (r: Val)
    ensures
        r@ == Term::Num(n as int),
{
    Val::Num(n)
}

pub fn val_sym(s: &str) -> (r: Val)
    ensures
        r@ == Term::Sym(s@),
{
    Val::Sym(s.to_string())
}

pub fn val_list() -> (r: Val)
    ensures
        r@ == Term::List(Seq::empty()),
{
    Val::List(Vec::new())
}

pub fn val_builtin(op: Builtin, name: &str) -> (r: Val)
    ensures
        r@ == Term::Fun(name@, op),
{
    Val::Fun(ValFun::Builtin(name.to_string(), op))
}

pub fn val_bool(b: bool) -> (r: Val)
    ensures
        r@ == Term::Bool(b),
{
    Val::Bool(b)
}

pub fn val_float(d: Decimal) -> (r: Val)
    ensures
        r@ == Term::Float(d.units as int),
{
    Val::Float(d)
}

pub fn val_time(t: ClockTime) -> (r: Val)
    ensures
        r@ == Term::Time(t),
{
    Val::Time(t)
}

pub fn val_date(d: CalDate) -> (r: Val)
    ensures
        r@ == Term::Date(d),
{
    Val::Date(d)
}

pub fn val_datetime(dt: CalDateTime) -> (r: Val)
    ensures
        r@ == Term::DateTime(dt),
{
    Val::DateTime(dt)
}

/// Appends a copy of `x` to the children of a list or a program.
pub fn val_add(v: &mut Val, x: &Val) -> (r: Result<(), RispError>)
    ensures
        match old(v)@ {
            Term::List(c) => r is Ok && final(v)@ == Term::List(c.push(x@)),
            Term::Risp(c) => r is Ok && final(v)@ == Term::Risp(c.push(x@)),
            _ => r == Err::<(), RispError>(RispError::NoChildren) && final(v)@ == old(v)@,
        },
{
    let y = x.duplicate();
    match v {
        Val::List(c) => {
            proof {
                lemma_terms_of_push(c@, y);
            }
            c.push(y);
            Ok(())
        },
        Val::Risp(c) => {
            proof {
                lemma_terms_of_push(c@, y);
            }
            c.push(y);
            Ok(())
        },
        _ => Err(RispError::NoChildren),
    }
}

/// Removes the child at index `i` of a list or a program and returns it.
pub fn val_pop(v: &mut Val, i: usize) -> (r: Result<Val, RispError>)
    requires
        match old(v)@ {
            Term::List(c) | Term::Risp(c) => i < c.len(),
            _ => true,
        },
    ensures
        match old(v)@ {
            Term::List(c) => r matches Ok(x) && x@ == c[i as int] && final(v)@ == Term::List(
                c.remove(i as int),
            ),
            Term::Risp(c) => r matches Ok(x) && x@ == c[i as int] && final(v)@ == Term::Risp(
                c.remove(i as int),
            ),
            _ => r == Err::<Val, RispError>(RispError::NoChildren) && final(v)@ == old(v)@,
        },
{
    match v {
        Val::List(c) => {
            let ghost before = c@;
            proof {
                lemma_terms_of(before);
            }
            let x = c.remove(i);
            proof {
                lemma_terms_of(c@);
                assert(terms_of(c@) =~= terms_of(before).remove(i as int));
            }
            Ok(x)
        },
        Val::Risp(c) => {
            let ghost before = c@;
            proof {
                lemma_terms_of(before);
            }
            let x = c.remove(i);
            proof {
                lemma_terms_of(c@);
                assert(terms_of(c@) =~= terms_of(before).remove(i as int));
            }
            Ok(x)
        },
        _ => Err(RispError::NoChildren),
    }
}

} // verus!
