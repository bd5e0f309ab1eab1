//! The canonical text of literal values, which the parser reads back.
use crate::decimal::{abs, Decimal, SCALE};
use crate::parse::string_of;
use vstd::prelude::*;

verus! {

pub open spec fn digit_char(d: int) -> char {
    if d == 0 {
        '0'
    } else if d == 1 {
        '1'
    } else if d == 2 {
        '2'
    } else if d == 3 {
        '3'
    } else if d == 4 {
        '4'
    } else if d == 5 {
        '5'
    } else if d == 6 {
        '6'
    } else if d == 7 {
        '7'
    } else if d == 8 {
        '8'
    } else {
        '9'
    }
}

/// The decimal digits of a natural number, without leading zeros.
pub open spec fn nat_text(n: nat) -> Seq<char>
    decreases n,
{
    if n < 10 {
        seq![digit_char(n as int)]
    } else {
        nat_text(n / 10).push(digit_char((n % 10) as int))
    }
}

/// The last `width` decimal digits of `n`, with leading zeros.
pub open spec fn padded_text(n: nat, width: nat) -> Seq<char>
    decreases width,
{
    if width == 0 {
        Seq::empty()
    } else {
        padded_text(n / 10, (width - 1) as nat).push(digit_char((n % 10) as int))
    }
}

/// The canonical text of a whole number.
pub open spec fn int_text(n: int) -> Seq<char> {
    if n < 0 {
        seq!['-'] + nat_text((-n) as nat)
    } else {
        nat_text(n as nat)
    }
}

/// The canonical text of a decimal given as a count of units: its whole
/// part, a point, and nine fractional digits.
pub open spec fn decimal_text(u: int) -> Seq<char> {
    let a = abs(u);
    let body = nat_text((a / SCALE as int) as nat) + seq!['.'] + padded_text(
        (a % SCALE as int) as nat,
        9,
    );
    if u < 0 {
        seq!['-'] + body
    } else {
        body
    }
}

/// The canonical text of a boolean.
pub open spec fn bool_text(b: bool) -> Seq<char> {
    if b {
        seq!['t', 'r', 'u', 'e']
    } else {
        seq!['f', 'a', 'l', 's', 'e']
    }
}

fn digit_of(d: u64) -> (r: char)
    requires
        d <= 9,
    ensures
        r == digit_char(d as int),
{
    if d == 0 {
        '0'
    } else if d == 1 {
        '1'
    } else if d == 2 {
        '2'
    } else if d == 3 {
        '3'
    } else if d == 4 {
        '4'
    } else if d == 5 {
        '5'
    } else if d == 6 {
        '6'
    } else if d == 7 {
        '7'
    } else if d == 8 {
        '8'
    } else {
        '9'
    }
}

fn push_nat(out: &mut Vec<char>, n: u64)
    ensures
        final(out)@ == old(out)@ + nat_text(n as nat),
    decreases n,
{
    if n >= 10 {
        push_nat(out, n / 10);
    }
    let ghost before = out@;
    out.push(digit_of(n % 10));
    assert(before.push(digit_char((n % 10) as int)) =~= old(out)@ + nat_text(n as nat));
}

fn push_padded(out: &mut Vec<char>, n: u64, width: usize)
    ensures
        final(out)@ == old(out)@ + padded_text(n as nat, width as nat),
    decreases width,
{
    if width == 0 {
        assert(old(out)@ + padded_text(n as nat, 0) =~= old(out)@);
        return;
    }
    push_padded(out, n / 10, width - 1);
    let ghost before = out@;
    out.push(digit_of(n % 10));
    assert(before.push(digit_char((n % 10) as int)) =~= old(out)@ + padded_text(
        n as nat,
        width as nat,
    ));
}

/// The canonical text of a whole number.
pub fn render_num(n: i64) -> (r: String)
    ensures
        r@ == int_text(n as int),
{
    let mut out: Vec<char> = Vec::new();
    if n < 0 {
        out.push('-');
        let m: u64 = (-(n as i128)) as u64;
        push_nat(&mut out, m);
        assert(out@ =~= int_text(n as int));
    } else {
        push_nat(&mut out, n as u64);
        assert(out@ =~= int_text(n as int));
    }
    string_of(&out)
}

/// The canonical text of a decimal: its whole part, a point and nine
/// fractional digits.
pub fn render_decimal(d: Decimal) -> (r: String)
    ensures
        r@ == decimal_text(d.units as int),
{
    let u = d.units;
    let a: u64 = if u < 0 {
        (-(u as i128)) as u64
    } else {
        u as u64
    };
    let scale: u64 = SCALE as u64;
    let mut out: Vec<char> = Vec::new();
    if u < 0 {
        out.push('-');
    }
    push_nat(&mut out, a / scale);
    out.push('.');
    push_padded(&mut out, a % scale, 9);
    assert(out@ =~= decimal_text(u as int));
    string_of(&out)
}

/// The canonical text of a boolean.
pub fn render_bool(b: bool) -> (r: String)
    ensures
        r@ == bool_text(b),
{
    let mut out: Vec<char> = Vec::new();
    if b {
        out.push('t');
        out.push('r');
        out.push('u');
        out.push('e');
    } else {
        out.push('f');
        out.push('a');
        out.push('l');
        out.push('s');
        out.push('e');
    }
    assert(out@ =~= bool_text(b));
    string_of(&out)
}

} // verus!
