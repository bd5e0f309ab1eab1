//! The grammar: source text to a program value.
//!
//! A program is a sequence of forms separated by whitespace. A form is a
//! list `( form* )` or an atom: a maximal run of characters that are neither
//! whitespace nor brackets. An atom is a number (`-?digits(.digits)?`), a time
//! of day `HH:MM:SS`, an operator (`+ - * / % < > <= >= == !=`) or an
//! identifier (a letter, then letters, digits and underscores).
use crate::clock::{clock_literal, parse_clock};
use crate::decimal::{Decimal, SCALE};
use crate::error::{Fault, RispError};
use crate::semantics::{checked_float, checked_num, outcome};
use crate::val::{lemma_terms_of_push, terms_of, Term, Val};
use vstd::prelude::*;
use vstd::std_specs::iter::IteratorSpec;

verus! {

pub open spec fn is_space(c: char) -> bool {
    c == ' ' || c == '\t' || c == '\n' || c == '\r'
}

pub open spec fn is_digit(c: char) -> bool {
    '0' <= c && c <= '9'
}

pub open spec fn is_letter(c: char) -> bool {
    ('a' <= c && c <= 'z') || ('A' <= c && c <= 'Z')
}

pub open spec fn all_digits(s: Seq<char>) -> bool {
    forall|i: int| 0 <= i < s.len() ==> is_digit(#[trigger] s[i])
}

/// The value of a string of decimal digits.
pub open spec fn digits_value(s: Seq<char>) -> int
    decreases s.len(),
{
    if s.len() == 0 {
        0
    } else {
        digits_value(s.subrange(0, s.len() - 1)) * 10 + (s[s.len() - 1] as int - '0' as int)
    }
}

pub open spec fn pow10(n: nat) -> int
    decreases n,
{
    if n == 0 {
        1
    } else {
        10 * pow10((n - 1) as nat)
    }
}

pub open spec fn negative(a: Seq<char>) -> bool {
    a.len() > 0 && a[0] == '-'
}

/// An atom without its leading minus sign.
pub open spec fn unsigned_part(a: Seq<char>) -> Seq<char> {
    if negative(a) {
        a.subrange(1, a.len() as int)
    } else {
        a
    }
}

/// The position of the first `.` in `u` at or after `i`, or the length of `u`.
pub open spec fn first_dot(u: Seq<char>, i: int) -> int
    decreases u.len() - i,
{
    if i < 0 || i >= u.len() {
        u.len() as int
    } else if u[i] == '.' {
        i
    } else {
        first_dot(u, i + 1)
    }
}

/// Whether an atom has the shape of a number.
pub open spec fn is_number(a: Seq<char>) -> bool {
    let u = unsigned_part(a);
    let p = first_dot(u, 0);
    &&& p > 0
    &&& all_digits(u.subrange(0, p))
    &&& p == u.len() || (p + 1 < u.len() && all_digits(u.subrange(p + 1, u.len() as int)))
}

/// The value of a number atom: a whole number where it has no fractional
/// part and fits in 64 bits, otherwise a decimal where one can hold it
/// exactly, otherwise `NotANumber`.
pub open spec fn number_value(a: Seq<char>) -> Result<Term, Fault> {
    let u = unsigned_part(a);
    let p = first_dot(u, 0);
    let whole = digits_value(u.subrange(0, p));
    if p == u.len() {
        checked_num(
            if negative(a) {
                -whole
            } else {
                whole
            },
        )
    } else {
        let f = u.subrange(p + 1, u.len() as int);
        if f.len() > 9 {
            Err(Fault::NotANumber)
        } else {
            let m = whole * SCALE + digits_value(f) * pow10((9 - f.len()) as nat);
            checked_float(
                if negative(a) {
                    -m
                } else {
                    m
                },
            )
        }
    }
}

/// Whether an atom has the shape `HH:MM:SS`.
pub open spec fn is_time_shape(a: Seq<char>) -> bool {
    &&& a.len() == 8
    &&& a[2] == ':' && a[5] == ':'
    &&& is_digit(a[0]) && is_digit(a[1]) && is_digit(a[3])
    &&& is_digit(a[4]) && is_digit(a[6]) && is_digit(a[7])
}

pub open spec fn is_operator(a: Seq<char>) -> bool {
    ||| a.len() == 1 && (a[0] == '+' || a[0] == '-' || a[0] == '*' || a[0] == '/' || a[0] == '%'
        || a[0] == '<' || a[0] == '>')
    ||| a.len() == 2 && a[1] == '=' && (a[0] == '<' || a[0] == '>' || a[0] == '=' || a[0] == '!')
}

pub open spec fn is_identifier(a: Seq<char>) -> bool {
    &&& a.len() > 0
    &&& is_letter(a[0])
    &&& forall|i: int|
        1 <= i < a.len() ==> is_letter(#[trigger] a[i]) || is_digit(a[i]) || a[i] == '_'
}

/// The value of an atom.
pub open spec fn atom_value(a: Seq<char>) -> Result<Term, Fault> {
    if is_number(a) {
        number_value(a)
    } else if is_time_shape(a) {
        match clock_literal(a) {
            Some(t) => Ok(Term::Time(t)),
            None => Err(Fault::ParseError("invalid time of day"@)),
        }
    } else if is_operator(a) || is_identifier(a) {
        Ok(Term::Sym(a))
    } else {
        Err(Fault::ParseError("invalid token"@))
    }
}

/// The reader's state after a prefix of the text: the lists still open
/// (outermost first), the forms of the innermost one, the atom being read,
/// and the first fault met.
pub struct Reader {
    pub outer: Seq<Seq<Term>>,
    pub cur: Seq<Term>,
    pub atom: Seq<char>,
    pub fault: Option<Fault>,
}

pub open spec fn reader_start() -> Reader {
    Reader { outer: Seq::empty(), cur: Seq::empty(), atom: Seq::empty(), fault: None }
}

/// Ends the atom being read, if any, and adds its value to the open list.
pub open spec fn flush(st: Reader) -> Reader {
    if st.fault is Some || st.atom.len() == 0 {
        st
    } else {
        match atom_value(st.atom) {
            Ok(t) => Reader { outer: st.outer, cur: st.cur.push(t), atom: Seq::empty(), fault: None },
            Err(f) => Reader { outer: st.outer, cur: st.cur, atom: st.atom, fault: Some(f) },
        }
    }
}

pub open spec fn step(st: Reader, c: char) -> Reader {
    if st.fault is Some {
        st
    } else if is_space(c) {
        flush(st)
    } else if c == '(' {
        let f = flush(st);
        if f.fault is Some {
            f
        } else {
            Reader { outer: f.outer.push(f.cur), cur: Seq::empty(), atom: Seq::empty(), fault: None }
        }
    } else if c == ')' {
        let f = flush(st);
        if f.fault is Some {
            f
        } else if f.outer.len() == 0 {
            Reader {
                outer: f.outer,
                cur: f.cur,
                atom: f.atom,
                fault: Some(Fault::ParseError("unexpected closing bracket"@)),
            }
        } else {
            Reader {
                outer: f.outer.subrange(0, f.outer.len() - 1),
                cur: f.outer[f.outer.len() - 1].push(Term::List(f.cur)),
                atom: Seq::empty(),
                fault: None,
            }
        }
    } else {
        Reader { outer: st.outer, cur: st.cur, atom: st.atom.push(c), fault: None }
    }
}

pub open spec fn run(s: Seq<char>) -> Reader
    decreases s.len(),
{
    if s.len() == 0 {
        reader_start()
    } else {
        step(run(s.subrange(0, s.len() - 1)), s[s.len() - 1])
    }
}

/// What parsing a text gives: the program of its top-level forms, or the
/// first fault.
pub open spec fn parse_text(s: Seq<char>) -> Result<Term, Fault> {
    let f = flush(run(s));
    match f.fault {
        Some(x) => Err(x),
        None => if f.outer.len() > 0 {
            Err(Fault::ParseError("unclosed list"@))
        } else {
            Ok(Term::Risp(f.cur))
        },
    }
}

/// Relies on `String::push`: the character is appended.
#[verifier::external_body]
fn push_char(s: &mut String, c: char)
    ensures
        final(s)@ == old(s)@.push(c),
{
    s.push(c)
}

pub(crate) fn string_of(cs: &Vec<char>) -> (r: String)
    ensures
        r@ == cs@,
{
    let mut r = String::new();
    let mut i: usize = 0;
    while i < cs.len()
        invariant
            i <= cs@.len(),
            r@ == cs@.subrange(0, i as int),
        decreases cs@.len() - i,
    {
        push_char(&mut r, cs[i]);
        assert(cs@.subrange(0, i + 1) =~= cs@.subrange(0, i as int).push(cs@[i as int]));
        i = i + 1;
    }
    assert(cs@.subrange(0, cs@.len() as int) =~= cs@);
    r
}

pub(crate) fn chars_of(s: &str) -> (r: Vec<char>)
    ensures
        r@ == s@,
{
    let mut it = s.chars();
    let mut out: Vec<char> = Vec::new();
    proof {
        vstd::string::axiom_spec_iter(s);
    }
    loop
        invariant
            it.obeys_prophetic_iter_laws(),
            it.decrease() is Some,
            out@ + it.remaining() == s@,
        ensures
            out@ == s@,
        decreases it.decrease()->0,
    {
        let ghost before = it;
        let c = it.next();
        proof {
            vstd::string::next_postcondition(&before, &it, c);
        }
        match c {
            Some(ch) => {
                assert(out@.push(ch) + it.remaining() =~= out@ + before.remaining());
                out.push(ch);
            },
            None => {
                assert(out@ =~= s@);
                break ;
            },
        }
    }
    out
}

fn char_is_digit(c: char) -> (r: bool)
    ensures
        r == is_digit(c),
{
    '0' <= c && c <= '9'
}

fn char_is_letter(c: char) -> (r: bool)
    ensures
        r == is_letter(c),
{
    ('a' <= c && c <= 'z') || ('A' <= c && c <= 'Z')
}

pub proof fn lemma_digits_value_push(s: Seq<char>, c: char)
    ensures
        digits_value(s.push(c)) == digits_value(s) * 10 + (c as int - '0' as int),
{
    assert(s.push(c).subrange(0, s.len() as int) =~= s);
}

proof fn lemma_digits_value_nonneg(s: Seq<char>)
    requires
        all_digits(s),
    ensures
        digits_value(s) >= 0,
    decreases s.len(),
{
    if s.len() > 0 {
        let p = s.subrange(0, s.len() - 1);
        assert(all_digits(p)) by {
            assert forall|i: int| 0 <= i < p.len() implies is_digit(#[trigger] p[i]) by {
                assert(p[i] == s[i]);
            }
        }
        lemma_digits_value_nonneg(p);
        assert(is_digit(s[s.len() - 1]));
    }
}

/// Whether `u[lo..hi]` is all digits.
fn digits_only(u: &Vec<char>, lo: usize, hi: usize) -> (r: bool)
    requires
        lo <= hi <= u@.len(),
    ensures
        r == all_digits(u@.subrange(lo as int, hi as int)),
{
    let mut i: usize = lo;
    while i < hi
        invariant
            lo <= i <= hi <= u@.len(),
            forall|j: int| lo <= j < i ==> is_digit(#[trigger] u@[j]),
        decreases hi - i,
    {
        if !char_is_digit(u[i]) {
            assert(u@.subrange(lo as int, hi as int)[i - lo] == u@[i as int]);
            return false;
        }
        i = i + 1;
    }
    assert forall|j: int| 0 <= j < hi - lo implies is_digit(
        #[trigger] u@.subrange(lo as int, hi as int)[j],
    ) by {
        assert(u@.subrange(lo as int, hi as int)[j] == u@[lo + j]);
    }
    true
}

/// The value of the digits `u[lo..hi]`, or `None` when it exceeds `u64`.
fn digits_of(u: &Vec<char>, lo: usize, hi: usize) -> (r: Option<u64>)
    requires
        lo <= hi <= u@.len(),
        all_digits(u@.subrange(lo as int, hi as int)),
    ensures
        r matches Some(v) ==> v == digits_value(u@.subrange(lo as int, hi as int)),
        r is None ==> digits_value(u@.subrange(lo as int, hi as int)) > u64::MAX,
{
    let ghost w = u@.subrange(lo as int, hi as int);
    let mut acc: u64 = 0;
    let mut i: usize = lo;
    proof {
        assert(u@.subrange(lo as int, lo as int) =~= Seq::<char>::empty());
    }
    while i < hi
        invariant
            lo <= i <= hi <= u@.len(),
            w == u@.subrange(lo as int, hi as int),
            all_digits(w),
            acc == digits_value(u@.subrange(lo as int, i as int)),
        decreases hi - i,
    {
        let c = u[i];
        assert(w[i - lo] == c);
        let d: u64 = (c as u32 - '0' as u32) as u64;
        proof {
            assert(u@.subrange(lo as int, i + 1) =~= u@.subrange(lo as int, i as int).push(c));
            lemma_digits_value_push(u@.subrange(lo as int, i as int), c);
        }
        if acc > (u64::MAX - d) / 10 {
            proof {
                assert(digits_value(u@.subrange(lo as int, i + 1)) > u64::MAX) by (nonlinear_arith)
                    requires
                        digits_value(u@.subrange(lo as int, i + 1)) == acc * 10 + d,
                        acc > (u64::MAX - d) / 10,
                        0 <= d <= 9,
                ;
                lemma_digits_grow(u@, lo as int, i + 1, hi as int);
            }
            return None;
        }
        acc = acc * 10 + d;
        i = i + 1;
    }
    Some(acc)
}

/// Appending digits never makes the value smaller.
proof fn lemma_digits_grow(u: Seq<char>, lo: int, mid: int, hi: int)
    requires
        0 <= lo <= mid <= hi <= u.len(),
        all_digits(u.subrange(lo, hi)),
    ensures
        digits_value(u.subrange(lo, hi)) >= digits_value(u.subrange(lo, mid)),
    decreases hi - mid,
{
    if hi > mid {
        let w = u.subrange(lo, hi);
        assert(u.subrange(lo, hi - 1) =~= w.subrange(0, w.len() - 1));
        assert(all_digits(u.subrange(lo, hi - 1))) by {
            assert forall|i: int| 0 <= i < hi - 1 - lo implies is_digit(
                #[trigger] u.subrange(lo, hi - 1)[i],
            ) by {
                assert(u.subrange(lo, hi - 1)[i] == w[i]);
            }
        }
        lemma_digits_grow(u, lo, mid, hi - 1);
        lemma_digits_value_nonneg(u.subrange(lo, hi - 1));
        assert(is_digit(w[w.len() - 1]));
    }
}

proof fn lemma_digits_value_bound(s: Seq<char>)
    requires
        all_digits(s),
    ensures
        0 <= digits_value(s) < pow10(s.len()),
    decreases s.len(),
{
    if s.len() > 0 {
        let p = s.subrange(0, s.len() - 1);
        assert(all_digits(p)) by {
            assert forall|i: int| 0 <= i < p.len() implies is_digit(#[trigger] p[i]) by {
                assert(p[i] == s[i]);
            }
        }
        lemma_digits_value_bound(p);
        assert(is_digit(s[s.len() - 1]));
        let d = s[s.len() - 1] as int - '0' as int;
        assert(digits_value(p) * 10 + d < pow10(p.len()) * 10) by (nonlinear_arith)
            requires
                0 <= digits_value(p) < pow10(p.len()),
                0 <= d <= 9,
        ;
        assert(pow10(s.len()) == 10 * pow10(p.len()));
    }
}

fn pow10_of(n: usize) -> (r: u64)
    requires
        n <= 9,
    ensures
        r == pow10(n as nat),
{
    let mut r: u64 = 1;
    let mut i: usize = 0;
    while i < n
        invariant
            i <= n <= 9,
            r == pow10(i as nat),
            r <= 1_000_000_000,
        decreases n - i,
    {
        proof {
            lemma_pow10_table();
        }
        r = r * 10;
        i = i + 1;
    }
    r
}

proof fn lemma_pow10_bound(n: nat)
    ensures
        1 <= pow10(n),
    decreases n,
{
    if n > 0 {
        lemma_pow10_bound((n - 1) as nat);
    }
}

pub proof fn lemma_pow10_positive(n: nat)
    ensures
        1 <= pow10(n),
{
    lemma_pow10_bound(n);
}

pub proof fn lemma_pow10_table()
    ensures
        pow10(0) == 1,
        pow10(1) == 10,
        pow10(2) == 100,
        pow10(3) == 1000,
        pow10(4) == 10000,
        pow10(5) == 100000,
        pow10(6) == 1000000,
        pow10(7) == 10000000,
        pow10(8) == 100000000,
        pow10(9) == 1000000000,
{
    reveal_with_fuel(pow10, 10);
}

fn slice_of(a: &Vec<char>, lo: usize, hi: usize) -> (r: Vec<char>)
    requires
        lo <= hi <= a@.len(),
    ensures
        r@ == a@.subrange(lo as int, hi as int),
{
    let mut r: Vec<char> = Vec::new();
    let mut i: usize = lo;
    while i < hi
        invariant
            lo <= i <= hi <= a@.len(),
            r@ == a@.subrange(lo as int, i as int),
        decreases hi - i,
    {
        r.push(a[i]);
        assert(a@.subrange(lo as int, i + 1) =~= a@.subrange(lo as int, i as int).push(a@[i as int]));
        i = i + 1;
    }
    r
}

fn find_dot(u: &Vec<char>) -> (r: usize)
    ensures
        r == first_dot(u@, 0),
        r <= u@.len(),
{
    let mut i: usize = 0;
    while i < u.len()
        invariant
            i <= u@.len(),
            first_dot(u@, i as int) == first_dot(u@, 0),
        decreases u@.len() - i,
    {
        if u[i] == '.' {
            return i;
        }
        i = i + 1;
    }
    i
}

fn unsigned_of(a: &Vec<char>) -> (r: (bool, Vec<char>))
    ensures
        r.0 == negative(a@),
        r.1@ == unsigned_part(a@),
{
    if a.len() > 0 && a[0] == '-' {
        (true, slice_of(a, 1, a.len()))
    } else {
        assert(a@.subrange(0, a@.len() as int) =~= a@);
        (false, slice_of(a, 0, a.len()))
    }
}

fn shape_is_number(a: &Vec<char>) -> (r: bool)
    ensures
        r == is_number(a@),
{
    let (_, u) = unsigned_of(a);
    let p = find_dot(&u);
    if p == 0 || !digits_only(&u, 0, p) {
        return false;
    }
    if p == u.len() {
        return true;
    }
    p + 1 < u.len() && digits_only(&u, p + 1, u.len())
}

/// The value of a number atom.
fn number_of(a: &Vec<char>) -> (r: Result<Val, RispError>)
    requires
        is_number(a@),
    ensures
        outcome(r) == number_value(a@),
{
    let (neg, u) = unsigned_of(a);
    let p = find_dot(&u);
    let whole = digits_of(&u, 0, p);
    proof {
        lemma_digits_value_nonneg(u@.subrange(0, p as int));
    }
    if p == u.len() {
        return match whole {
            None => Err(RispError::NotANumber),
            Some(w) => {
                let v: i128 = if neg {
                    -(w as i128)
                } else {
                    w as i128
                };
                if v < i64::MIN as i128 || v > i64::MAX as i128 {
                    Err(RispError::NotANumber)
                } else {
                    Ok(Val::Num(v as i64))
                }
            },
        };
    }
    let k = u.len() - p - 1;
    if k > 9 {
        return Err(RispError::NotANumber);
    }
    let ghost f = u@.subrange(p + 1, u@.len() as int);
    proof {
        lemma_digits_value_bound(f);
        lemma_pow10_bound((9 - k) as nat);
        lemma_pow10_bound(k as nat);
        lemma_pow10_table();
        assert(pow10(k as nat) * pow10((9 - k) as nat) == pow10(9)) by {
            lemma_pow10_mul(k as nat, (9 - k) as nat);
        }
    }
    let frac = digits_of(&u, p + 1, u.len());
    let scale = pow10_of(9 - k);
    match (whole, frac) {
        (Some(w), Some(fv)) => {
            proof {
                assert(fv * scale < 1_000_000_000) by (nonlinear_arith)
                    requires
                        0 <= fv < pow10(k as nat),
                        scale == pow10((9 - k) as nat),
                        pow10(k as nat) * pow10((9 - k) as nat) == pow10(9),
                        pow10(9) == 1_000_000_000,
                        scale >= 1,
                ;
            }
            let m: i128 = w as i128 * 1_000_000_000i128 + (fv * scale) as i128;
            let v: i128 = if neg {
                -m
            } else {
                m
            };
            if v < i64::MIN as i128 || v > i64::MAX as i128 {
                Err(RispError::NotANumber)
            } else {
                Ok(Val::Float(Decimal::from_units(v as i64)))
            }
        },
        _ => {
            proof {
                assert(digits_value(f) * pow10((9 - k) as nat) >= 0) by (nonlinear_arith)
                    requires
                        digits_value(f) >= 0,
                        pow10((9 - k) as nat) >= 1,
                ;
            }
            Err(RispError::NotANumber)
        },
    }
}

proof fn lemma_pow10_mul(a: nat, b: nat)
    ensures
        pow10(a) * pow10(b) == pow10(a + b),
    decreases a,
{
    if a > 0 {
        lemma_pow10_mul((a - 1) as nat, b);
        assert(pow10(a) * pow10(b) == 10 * (pow10((a - 1) as nat) * pow10(b))) by (nonlinear_arith)
            requires
                pow10(a) == 10 * pow10((a - 1) as nat),
        ;
        assert(pow10(a + b) == 10 * pow10((a + b - 1) as nat));
    }
}

fn shape_is_time(a: &Vec<char>) -> (r: bool)
    ensures
        r == is_time_shape(a@),
{
    a.len() == 8 && a[2] == ':' && a[5] == ':' && char_is_digit(a[0]) && char_is_digit(a[1])
        && char_is_digit(a[3]) && char_is_digit(a[4]) && char_is_digit(a[6]) && char_is_digit(
        a[7],
    )
}

fn shape_is_operator(a: &Vec<char>) -> (r: bool)
    ensures
        r == is_operator(a@),
{
    if a.len() == 1 {
        let c = a[0];
        c == '+' || c == '-' || c == '*' || c == '/' || c == '%' || c == '<' || c == '>'
    } else if a.len() == 2 {
        let c = a[0];
        a[1] == '=' && (c == '<' || c == '>' || c == '=' || c == '!')
    } else {
        false
    }
}

fn shape_is_identifier(a: &Vec<char>) -> (r: bool)
    ensures
        r == is_identifier(a@),
{
    if a.len() == 0 || !char_is_letter(a[0]) {
        return false;
    }
    let mut i: usize = 1;
    while i < a.len()
        invariant
            1 <= i <= a@.len(),
            forall|j: int|
                1 <= j < i ==> is_letter(#[trigger] a@[j]) || is_digit(a@[j]) || a@[j] == '_',
        decreases a@.len() - i,
    {
        let c = a[i];
        if !(char_is_letter(c) || char_is_digit(c) || c == '_') {
            return false;
        }
        i = i + 1;
    }
    true
}

/// The value of an atom.
pub(crate) fn atom_of(a: &Vec<char>) -> (r: Result<Val, RispError>)
    ensures
        outcome(r) == atom_value(a@),
{
    if shape_is_number(a) {
        number_of(a)
    } else if shape_is_time(a) {
        let text = string_of(a);
        match parse_clock(text.as_str()) {
            Some(t) => Ok(Val::Time(t)),
            None => Err(RispError::ParseError("invalid time of day".to_string())),
        }
    } else if shape_is_operator(a) || shape_is_identifier(a) {
        Ok(Val::Sym(string_of(a)))
    } else {
        Err(RispError::ParseError("invalid token".to_string()))
    }
}

/// The model of the stack of open lists.
pub open spec fn stack_model(outer: Seq<Vec<Val>>) -> Seq<Seq<Term>> {
    Seq::new(outer.len(), |i: int| terms_of(outer[i]@))
}

/// Once the reader has met a fault, the rest of the text changes nothing.
proof fn lemma_run_fault(s: Seq<char>, k: int)
    requires
        0 <= k <= s.len(),
        run(s.subrange(0, k)).fault is Some,
    ensures
        run(s) == run(s.subrange(0, k)),
    decreases s.len(),
{
    if k == s.len() {
        assert(s.subrange(0, k) =~= s);
    } else {
        let p = s.subrange(0, s.len() - 1);
        assert(p.subrange(0, k) =~= s.subrange(0, k));
        lemma_run_fault(p, k);
    }
}

/// Ends the atom being read, if any, and adds its value to `cur`.
fn flush_atom(atom: &mut Vec<char>, cur: &mut Vec<Val>) -> (r: Result<(), RispError>)
    ensures
        old(atom)@.len() == 0 ==> r is Ok && final(cur)@ == old(cur)@ && final(atom)@ == old(atom)@,
        old(atom)@.len() > 0 ==> match atom_value(old(atom)@) {
            Ok(t) => r is Ok && terms_of(final(cur)@) == terms_of(old(cur)@).push(t) && final(atom)@
                == Seq::<char>::empty(),
            Err(f) => r matches Err(e) && e@ == f,
        },
{
    if atom.len() == 0 {
        return Ok(());
    }
    match atom_of(atom) {
        Ok(v) => {
            proof {
                lemma_terms_of_push(cur@, v);
            }
            cur.push(v);
            atom.clear();
            Ok(())
        },
        Err(e) => Err(e),
    }
}

/// Reads a program from source text.
pub fn parse(s: &str) -> (r: Result<Val, RispError>)
    ensures
        outcome(r) == parse_text(s@),
{
    let cs = chars_of(s);
    let mut outer: Vec<Vec<Val>> = Vec::new();
    let mut cur: Vec<Val> = Vec::new();
    let mut atom: Vec<char> = Vec::new();
    let mut i: usize = 0;
    proof {
        assert(cs@.subrange(0, 0) =~= Seq::<char>::empty());
        assert(stack_model(outer@) =~= Seq::<Seq<Term>>::empty());
        assert(terms_of(cur@) =~= Seq::<Term>::empty());
    }
    while i < cs.len()
        invariant
            i <= cs@.len(),
            cs@ == s@,
            run(cs@.subrange(0, i as int)) == (Reader {
                outer: stack_model(outer@),
                cur: terms_of(cur@),
                atom: atom@,
                fault: None,
            }),
        decreases cs@.len() - i,
    {
        let c = cs[i];
        let ghost st = run(cs@.subrange(0, i as int));
        proof {
            let q = cs@.subrange(0, i + 1);
            assert(q.subrange(0, i as int) =~= cs@.subrange(0, i as int));
            assert(run(q) == step(st, c));
        }
        if c == ' ' || c == '\t' || c == '\n' || c == '\r' {
            match flush_atom(&mut atom, &mut cur) {
                Ok(()) => {},
                Err(e) => {
                    proof {
                        lemma_run_fault(cs@, i + 1);
                    }
                    return Err(e);
                },
            }
        } else if c == '(' {
            match flush_atom(&mut atom, &mut cur) {
                Ok(()) => {},
                Err(e) => {
                    proof {
                        lemma_run_fault(cs@, i + 1);
                    }
                    return Err(e);
                },
            }
            proof {
                assert(atom@ =~= Seq::<char>::empty());
                assert(flush(st) == (Reader {
                    outer: stack_model(outer@),
                    cur: terms_of(cur@),
                    atom: atom@,
                    fault: None,
                }));
            }
            let ghost before = outer@;
            outer.push(cur);
            cur = Vec::new();
            proof {
                assert(stack_model(outer@) =~= stack_model(before).push(
                    terms_of(outer@[outer@.len() - 1]@),
                ));
                assert(terms_of(cur@) =~= Seq::<Term>::empty());
            }
            assert(run(cs@.subrange(0, i + 1)) == (Reader {
                outer: stack_model(outer@),
                cur: terms_of(cur@),
                atom: atom@,
                fault: None,
            }));
        } else if c == ')' {
            match flush_atom(&mut atom, &mut cur) {
                Ok(()) => {},
                Err(e) => {
                    proof {
                        lemma_run_fault(cs@, i + 1);
                    }
                    return Err(e);
                },
            }
            proof {
                assert(atom@ =~= Seq::<char>::empty());
                assert(flush(st) == (Reader {
                    outer: stack_model(outer@),
                    cur: terms_of(cur@),
                    atom: atom@,
                    fault: None,
                }));
            }
            let ghost before = outer@;
            match outer.pop() {
                None => {
                    proof {
                        lemma_run_fault(cs@, i + 1);
                    }
                    return Err(RispError::ParseError("unexpected closing bracket".to_string()));
                },
                Some(mut parent) => {
                    let ghost inner = terms_of(cur@);
                    proof {
                        assert(stack_model(outer@) =~= stack_model(before).subrange(
                            0,
                            before.len() - 1,
                        ));
                        assert(terms_of(parent@) == stack_model(before)[before.len() - 1]);
                    }
                    let item = Val::List(cur);
                    assert(item@ == Term::List(inner));
                    proof {
                        lemma_terms_of_push(parent@, item);
                    }
                    parent.push(item);
                    cur = parent;
                    assert(run(cs@.subrange(0, i + 1)) == (Reader {
                        outer: stack_model(outer@),
                        cur: terms_of(cur@),
                        atom: atom@,
                        fault: None,
                    }));
                },
            }
        } else {
            atom.push(c);
        }
        assert(run(cs@.subrange(0, i + 1)) == (Reader {
            outer: stack_model(outer@),
            cur: terms_of(cur@),
            atom: atom@,
            fault: None,
        }));
        i = i + 1;
    }
    proof {
        assert(cs@.subrange(0, cs@.len() as int) =~= cs@);
    }
    match flush_atom(&mut atom, &mut cur) {
        Ok(()) => {},
        Err(e) => {
            return Err(e);
        },
    }
    if outer.len() > 0 {
        return Err(RispError::ParseError("unclosed list".to_string()));
    }
    proof {
        assert(stack_model(outer@).len() == 0);
    }
    Ok(Val::Risp(cur))
}

/// The parser of the language's grammar.
pub struct RispParser;

impl RispParser {
    /// Reads a program from source text.
    pub fn parse(s: &str) -> (r: Result<Val, RispError>)
        ensures
            outcome(r) == parse_text(s@),
    {
        parse(s)
    }
}

} // verus!
