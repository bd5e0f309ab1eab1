//! Laws of the language, proved over its semantics.
use crate::decimal::{abs, SCALE};
use crate::error::Fault;
use crate::parse::{
    all_digits, atom_value, digits_value, first_dot, is_digit, is_identifier, is_letter, is_number,
    is_space, is_time_shape, negative, parse_text, pow10, run, unsigned_part, Reader,
};
use crate::render::{bool_text, decimal_text, digit_char, int_text, nat_text, padded_text};
use crate::semantics::{apply, arith, eval_all, eval_term};
use crate::temporal::CalDateTime;
use crate::val::{Builtin, Term};
use vstd::prelude::*;

verus! {

/// Addition and multiplication give the same result, or the same error,
/// whichever operand comes first; a whole number and a decimal are promoted
/// alike in either order.
pub proof fn lemma_sum_and_product_commute(a: Term, b: Term)
    ensures
        arith(Builtin::Add, a, b) == arith(Builtin::Add, b, a),
        arith(Builtin::Mul, a, b) == arith(Builtin::Mul, b, a),
{
    match (a, b) {
        (Term::Num(x), Term::Num(y)) => {
            assert(x * y == y * x) by (nonlinear_arith);
        },
        (Term::Num(x), Term::Float(y)) => {
            assert((x * 1_000_000_000) * y == y * (x * 1_000_000_000)) by (nonlinear_arith);
        },
        (Term::Float(x), Term::Num(y)) => {
            assert(x * (y * 1_000_000_000) == (y * 1_000_000_000) * x) by (nonlinear_arith);
        },
        (Term::Float(x), Term::Float(y)) => {
            assert(x * y == y * x) by (nonlinear_arith);
        },
        _ => {},
    }
}

/// `if` evaluates only the branch that its condition selects: where the
/// condition evaluates to `false`, the form has the value of the else-branch,
/// whatever evaluating the then-branch would give (an error included); where
/// it evaluates to `true`, the value of the then-branch, whatever the
/// else-branch would give.
pub proof fn lemma_if_evaluates_one_branch(
    env: Map<Seq<char>, Term>,
    name: Seq<char>,
    cond: Term,
    then_branch: Term,
    else_branch: Term,
    now: CalDateTime,
)
    requires
        env.contains_key(name),
        env[name] matches Term::Fun(_, op) && op == Builtin::If,
    ensures
        eval_term(env, cond, now) == Ok::<Term, Fault>(Term::Bool(false)) ==> eval_term(
            env,
            Term::List(seq![Term::Sym(name), cond, then_branch, else_branch]),
            now,
        ) == eval_term(env, else_branch, now),
        eval_term(env, cond, now) == Ok::<Term, Fault>(Term::Bool(true)) ==> eval_term(
            env,
            Term::List(seq![Term::Sym(name), cond, then_branch, else_branch]),
            now,
        ) == eval_term(env, then_branch, now),
{
    let cells = seq![Term::Sym(name), cond, then_branch, else_branch];
    let args = cells.subrange(1, 4);
    assert(args =~= seq![cond, then_branch, else_branch]);
    assert(eval_term(env, cells[0], now) == Ok::<Term, Fault>(env[name]));
    assert(eval_term(env, Term::List(cells), now) == apply(env, Builtin::If, args, now));
}

/// A list of one form whose value is not callable has that value: `(42)`
/// is `42`. An error in the form is the list's error.
pub proof fn lemma_single_form_list(env: Map<Seq<char>, Term>, t: Term, now: CalDateTime)
    requires
        !(eval_term(env, t, now) matches Ok(Term::Fun(_, _))),
    ensures
        eval_term(env, Term::List(seq![t]), now) == eval_term(env, t, now),
{
    assert(seq![t][0] == t);
}

/// A program's value is that of its last form, once every form before it
/// has evaluated without error.
pub proof fn lemma_program_value_is_last(env: Map<Seq<char>, Term>, forms: Seq<Term>, now: CalDateTime)
    requires
        forms.len() > 0,
        eval_all(env, forms.subrange(0, forms.len() - 1), now) is Ok,
    ensures
        eval_term(env, Term::Risp(forms), now) == eval_term(env, forms[forms.len() - 1], now),
{
    let vs = eval_all(env, forms.subrange(0, forms.len() - 1), now)->Ok_0;
    match eval_term(env, forms[forms.len() - 1], now) {
        Ok(v) => {
            assert(eval_all(env, forms, now) == Ok::<Seq<Term>, Fault>(vs.push(v)));
            assert(vs.push(v)[vs.push(v).len() - 1] == v);
        },
        Err(e) => {
            assert(eval_all(env, forms, now) == Err::<Seq<Term>, Fault>(e));
        },
    }
}

/// A character that neither separates forms nor opens or closes a list.
pub open spec fn plain(c: char) -> bool {
    !is_space(c) && c != '(' && c != ')'
}

proof fn lemma_digit_char(d: int)
    requires
        0 <= d <= 9,
    ensures
        is_digit(digit_char(d)),
        digit_char(d) as int - '0' as int == d,
{
}

proof fn lemma_nat_text(n: nat)
    ensures
        nat_text(n).len() >= 1,
        all_digits(nat_text(n)),
        digits_value(nat_text(n)) == n,
    decreases n,
{
    if n < 10 {
        lemma_digit_char(n as int);
        assert(Seq::<char>::empty().push(digit_char(n as int)) =~= seq![digit_char(n as int)]);
        crate::parse::lemma_digits_value_push(Seq::<char>::empty(), digit_char(n as int));
    } else {
        lemma_nat_text(n / 10);
        lemma_digit_char((n % 10) as int);
        let t = nat_text(n / 10);
        crate::parse::lemma_digits_value_push(t, digit_char((n % 10) as int));
        assert(t.push(digit_char((n % 10) as int)).subrange(0, t.len() as int) =~= t);
        assert(all_digits(nat_text(n))) by {
            assert forall|i: int| 0 <= i < nat_text(n).len() implies is_digit(
                #[trigger] nat_text(n)[i],
            ) by {
                if i < t.len() {
                    assert(nat_text(n)[i] == t[i]);
                }
            }
        }
    }
}

proof fn lemma_padded_text(n: nat, width: nat)
    ensures
        padded_text(n, width).len() == width,
        all_digits(padded_text(n, width)),
        digits_value(padded_text(n, width)) == (n as int) % pow10(width),
    decreases width,
{
    if width > 0 {
        lemma_padded_text(n / 10, (width - 1) as nat);
        lemma_digit_char((n % 10) as int);
        let t = padded_text(n / 10, (width - 1) as nat);
        crate::parse::lemma_digits_value_push(t, digit_char((n % 10) as int));
        assert(t.push(digit_char((n % 10) as int)).subrange(0, t.len() as int) =~= t);
        assert(all_digits(padded_text(n, width))) by {
            assert forall|i: int| 0 <= i < padded_text(n, width).len() implies is_digit(
                #[trigger] padded_text(n, width)[i],
            ) by {
                if i < t.len() {
                    assert(padded_text(n, width)[i] == t[i]);
                }
            }
        }
        let p = pow10((width - 1) as nat);
        crate::parse::lemma_pow10_positive((width - 1) as nat);
        vstd::arithmetic::div_mod::lemma_breakdown(n as int, 10, p);
    }
}

/// A text of digits (and points) has its first point where `first_dot`
/// says: a text without one has none.
proof fn lemma_first_dot_none(u: Seq<char>, i: int)
    requires
        0 <= i <= u.len(),
        forall|j: int| 0 <= j < u.len() ==> #[trigger] u[j] != '.',
    ensures
        first_dot(u, i) == u.len(),
    decreases u.len() - i,
{
    if i < u.len() {
        lemma_first_dot_none(u, i + 1);
    }
}

proof fn lemma_first_dot_at(u: Seq<char>, i: int, p: int)
    requires
        0 <= i <= p < u.len(),
        u[p] == '.',
        forall|j: int| 0 <= j < p ==> #[trigger] u[j] != '.',
    ensures
        first_dot(u, i) == p,
    decreases p - i,
{
    if i < p {
        lemma_first_dot_at(u, i + 1, p);
    }
}

/// Reading a text of plain characters leaves them all as the atom being read.
proof fn lemma_run_plain(s: Seq<char>)
    requires
        forall|i: int| 0 <= i < s.len() ==> plain(#[trigger] s[i]),
    ensures
        run(s) == (Reader { outer: Seq::empty(), cur: Seq::empty(), atom: s, fault: None }),
    decreases s.len(),
{
    if s.len() == 0 {
        assert(s =~= Seq::<char>::empty());
    } else {
        let p = s.subrange(0, s.len() - 1);
        lemma_run_plain(p);
        assert(p.push(s[s.len() - 1]) =~= s);
    }
}

/// A nonempty text of plain characters is read as one atom.
proof fn lemma_parse_plain(s: Seq<char>)
    requires
        s.len() > 0,
        forall|i: int| 0 <= i < s.len() ==> plain(#[trigger] s[i]),
    ensures
        parse_text(s) == match atom_value(s) {
            Ok(t) => Ok::<Term, Fault>(Term::Risp(seq![t])),
            Err(f) => Err(f),
        },
{
    lemma_run_plain(s);
    assert(Seq::<Term>::empty().push(atom_value(s)->Ok_0) =~= seq![atom_value(s)->Ok_0]);
}

/// A program of one atom has that atom's value.
proof fn lemma_eval_single(env: Map<Seq<char>, Term>, t: Term, now: CalDateTime)
    ensures
        eval_term(env, Term::Risp(seq![t]), now) == eval_term(env, t, now),
{
    let s = seq![t];
    assert(s.subrange(0, 0) =~= Seq::<Term>::empty());
    assert(eval_all(env, Seq::<Term>::empty(), now) == Ok::<Seq<Term>, Fault>(Seq::empty()));
    assert(s[0] == t);
    match eval_term(env, t, now) {
        Ok(v) => {
            assert(eval_all(env, s, now) == Ok::<Seq<Term>, Fault>(Seq::empty().push(v)));
            assert(Seq::<Term>::empty().push(v)[0] == v);
        },
        Err(e) => {
            assert(eval_all(env, s, now) == Err::<Seq<Term>, Fault>(e));
        },
    }
}

/// The text of a whole number (what `render_num` gives) reads back as that
/// number, in any environment and at any moment.
pub proof fn lemma_whole_number_round_trip(n: i64, env: Map<Seq<char>, Term>, now: CalDateTime)
    ensures
        parse_text(int_text(n as int)) == Ok::<Term, Fault>(Term::Risp(seq![Term::Num(n as int)])),
        eval_term(env, Term::Risp(seq![Term::Num(n as int)]), now) == Ok::<Term, Fault>(
            Term::Num(n as int),
        ),
{
    let m: nat = abs(n as int) as nat;
    let d = nat_text(m);
    lemma_nat_text(m);
    let s = int_text(n as int);
    assert(unsigned_part(s) =~= d) by {
        if n < 0 {
            assert((seq!['-'] + d).subrange(1, (seq!['-'] + d).len() as int) =~= d);
        } else {
            assert(is_digit(d[0]));
        }
    }
    assert(negative(s) == (n < 0)) by {
        if n >= 0 {
            assert(is_digit(d[0]));
        }
    }
    assert forall|j: int| 0 <= j < d.len() implies #[trigger] d[j] != '.' by {
        assert(is_digit(d[j]));
    }
    lemma_first_dot_none(d, 0);
    assert(d.subrange(0, d.len() as int) =~= d);
    assert(is_number(s));
    assert forall|i: int| 0 <= i < s.len() implies plain(#[trigger] s[i]) by {
        if n < 0 {
            if i > 0 {
                assert(s[i] == d[i - 1]);
                assert(is_digit(d[i - 1]));
            }
        } else {
            assert(is_digit(d[i]));
        }
    }
    lemma_parse_plain(s);
    lemma_eval_single(env, Term::Num(n as int), now);
}

/// The canonical text of a decimal (what `render_decimal` gives) reads back
/// as that decimal, in any environment and at any moment.
pub proof fn lemma_decimal_round_trip(u: i64, env: Map<Seq<char>, Term>, now: CalDateTime)
    ensures
        parse_text(decimal_text(u as int)) == Ok::<Term, Fault>(
            Term::Risp(seq![Term::Float(u as int)]),
        ),
        eval_term(env, Term::Risp(seq![Term::Float(u as int)]), now) == Ok::<Term, Fault>(
            Term::Float(u as int),
        ),
{
    let a: nat = abs(u as int) as nat;
    let w: nat = ((a as int) / (SCALE as int)) as nat;
    let f: nat = ((a as int) % (SCALE as int)) as nat;
    let d = nat_text(w);
    let q = padded_text(f, 9);
    let body = d + seq!['.'] + q;
    let s = decimal_text(u as int);
    lemma_nat_text(w);
    lemma_padded_text(f, 9);
    crate::parse::lemma_pow10_table();
    assert(is_digit(body[0]));
    assert(unsigned_part(s) =~= body) by {
        if u < 0 {
            assert((seq!['-'] + body).subrange(1, (seq!['-'] + body).len() as int) =~= body);
        }
    }
    assert(negative(s) == (u < 0));
    let p = d.len() as int;
    assert forall|j: int| 0 <= j < p implies #[trigger] body[j] != '.' by {
        assert(body[j] == d[j]);
        assert(is_digit(d[j]));
    }
    lemma_first_dot_at(body, 0, p);
    assert(body.subrange(0, p) =~= d);
    assert(body.subrange(p + 1, body.len() as int) =~= q);
    assert(is_number(s));
    assert(f < 1_000_000_000);
    assert((f as int) % pow10(9) == f);
    assert(w * SCALE + f == a) by {
        vstd::arithmetic::div_mod::lemma_fundamental_div_mod(a as int, SCALE as int);
    }
    assert forall|i: int| 0 <= i < s.len() implies plain(#[trigger] s[i]) by {
        let k = if u < 0 {
            i - 1
        } else {
            i
        };
        if u < 0 && i == 0 {
        } else {
            assert(s[i] == body[k]);
            if k < p {
                assert(body[k] == d[k]);
                assert(is_digit(d[k]));
            } else if k > p {
                assert(body[k] == q[k - p - 1]);
                assert(is_digit(q[k - p - 1]));
            }
        }
    }
    lemma_parse_plain(s);
    lemma_eval_single(env, Term::Float(u as int), now);
}

/// The text of a boolean (what `render_bool` gives) reads back as that
/// boolean in an environment that holds the constants of a fresh one.
pub proof fn lemma_boolean_round_trip(b: bool, env: Map<Seq<char>, Term>, now: CalDateTime)
    requires
        crate::env::default_bindings().submap_of(env),
    ensures
        parse_text(bool_text(b)) == Ok::<Term, Fault>(Term::Risp(seq![Term::Sym(bool_text(b))])),
        eval_term(env, Term::Risp(seq![Term::Sym(bool_text(b))]), now) == Ok::<Term, Fault>(
            Term::Bool(b),
        ),
{
    let s = bool_text(b);
    reveal_strlit("true");
    reveal_strlit("false");
    reveal_strlit("nil");
    assert("true"@.len() == 4 && "false"@.len() == 5 && "nil"@.len() == 3);
    assert(s == if b {
        "true"@
    } else {
        "false"@
    });
    assert(crate::env::default_bindings().contains_key(s));
    assert(crate::env::default_bindings()[s] == Term::Bool(b));
    assert(crate::env::default_bindings().dom().contains(s));
    assert(env.dom().contains(s));
    assert(env[s] == crate::env::default_bindings()[s]);
    assert(!is_digit(s[0]));
    assert forall|j: int| 0 <= j < s.len() implies #[trigger] s[j] != '.' by {}
    lemma_first_dot_none(s, 0);
    assert(s.subrange(0, s.len() as int) =~= s);
    assert(!is_number(s));
    assert(is_identifier(s));
    assert forall|i: int| 0 <= i < s.len() implies plain(#[trigger] s[i]) by {}
    lemma_parse_plain(s);
    lemma_eval_single(env, Term::Sym(s), now);
}

/// An identifier that the environment does not bind reads as a symbol and
/// evaluates to an `UnknownFunction` error naming it.
pub proof fn lemma_unbound_identifier(s: Seq<char>, env: Map<Seq<char>, Term>, now: CalDateTime)
    requires
        is_identifier(s),
        !env.contains_key(s),
    ensures
        parse_text(s) == Ok::<Term, Fault>(Term::Risp(seq![Term::Sym(s)])),
        eval_term(env, Term::Risp(seq![Term::Sym(s)]), now) == Err::<Term, Fault>(
            Fault::UnknownFunction(s),
        ),
{
    assert(!is_digit(s[0]) && s[0] != '-');
    assert(unsigned_part(s) == s);
    assert forall|j: int| 0 <= j < s.len() implies #[trigger] s[j] != '.' by {
        if j > 0 {
            assert(is_letter(s[j]) || is_digit(s[j]) || s[j] == '_');
        }
    }
    lemma_first_dot_none(s, 0);
    assert(s.subrange(0, s.len() as int)[0] == s[0]);
    assert(!is_number(s));
    assert forall|i: int| 0 <= i < s.len() implies plain(#[trigger] s[i]) by {
        if i > 0 {
            assert(is_letter(s[i]) || is_digit(s[i]) || s[i] == '_');
        }
    }
    lemma_parse_plain(s);
    lemma_eval_single(env, Term::Sym(s), now);
}

proof fn lemma_first_dot_range(u: Seq<char>, i: int)
    requires
        0 <= i <= u.len(),
    ensures
        i <= first_dot(u, i) <= u.len(),
        first_dot(u, i) < u.len() ==> u[first_dot(u, i)] == '.',
    decreases u.len() - i,
{
    if i < u.len() && u[i] != '.' {
        lemma_first_dot_range(u, i + 1);
    }
}

/// A token that starts with a digit and holds a letter is no number and no
/// identifier: the text fails to parse.
pub proof fn lemma_digit_led_word_rejected(s: Seq<char>, k: int)
    requires
        s.len() >= 2,
        is_digit(s[0]),
        0 < k < s.len(),
        is_letter(s[k]),
        forall|i: int| 0 <= i < s.len() ==> plain(#[trigger] s[i]),
    ensures
        parse_text(s) == Err::<Term, Fault>(Fault::ParseError("invalid token"@)),
{
    assert(unsigned_part(s) == s);
    let p = first_dot(s, 0);
    lemma_first_dot_range(s, 0);
    assert(!is_number(s)) by {
        if k < p {
            assert(s.subrange(0, p)[k] == s[k]);
        } else if p < s.len() {
            assert(k != p);
            assert(s.subrange(p + 1, s.len() as int)[k - p - 1] == s[k]);
        }
    }
    assert(!is_time_shape(s)) by {
        if s.len() == 8 {
            assert(k == 1 || k == 2 || k == 3 || k == 4 || k == 5 || k == 6 || k == 7);
        }
    }
    lemma_parse_plain(s);
}

} // verus!
