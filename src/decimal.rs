//! Exact fixed-point decimal numbers: the language's fractional values.
use vstd::prelude::*;

verus! {

/// Units per whole number: a `Decimal` has nine fractional digits.
pub const SCALE: i64 = 1_000_000_000;

pub open spec fn abs(a: int) -> int {
    if a < 0 {
        -a
    } else {
        a
    }
}

/// Division rounding toward zero, as Rust's `/` on signed integers.
pub open spec fn trunc_div(a: int, b: int) -> int {
    let q = abs(a) / abs(b);
    if (a < 0) == (b < 0) {
        q
    } else {
        -q
    }
}

/// Remainder with the sign of the dividend, as Rust's `%` on signed integers.
pub open spec fn trunc_rem(a: int, b: int) -> int {
    let r = abs(a) % abs(b);
    if a < 0 {
        -r
    } else {
        r
    }
}

pub open spec fn fits_i64(a: int) -> bool {
    i64::MIN <= a <= i64::MAX
}

proof fn lemma_product_bound(a: int, b: int)
    requires
        -0x8000_0000_0000_0000 <= a <= 0x8000_0000_0000_0000,
        -0x8000_0000_0000_0000 <= b <= 0x8000_0000_0000_0000,
    ensures
        -0x4000_0000_0000_0000_0000_0000_0000_0000 <= a * b <= 0x4000_0000_0000_0000_0000_0000_0000_0000,
{
    assert(abs(a) * abs(b) <= 0x8000_0000_0000_0000 * 0x8000_0000_0000_0000) by (nonlinear_arith)
        requires
            0 <= abs(a) <= 0x8000_0000_0000_0000,
            0 <= abs(b) <= 0x8000_0000_0000_0000,
    ;
    assert(abs(a * b) == abs(a) * abs(b)) by (nonlinear_arith);
}

/// `trunc_div` on machine integers.
pub fn div_toward_zero(a: i128, b: i128) -> (r: i128)
    requires
        b != 0,
        a > i128::MIN,
        b > i128::MIN,
    ensures
        r == trunc_div(a as int, b as int),
{
    let ua: u128 = if a < 0 {
        (-a) as u128
    } else {
        a as u128
    };
    let ub: u128 = if b < 0 {
        (-b) as u128
    } else {
        b as u128
    };
    let q: u128 = ua / ub;
    assert(q <= ua) by (nonlinear_arith)
        requires
            q == ua / ub,
            ub >= 1,
    ;
    if (a < 0) == (b < 0) {
        q as i128
    } else {
        -(q as i128)
    }
}

/// `trunc_rem` on machine integers.
pub fn rem_toward_zero(a: i128, b: i128) -> (r: i128)
    requires
        b != 0,
        a > i128::MIN,
        b > i128::MIN,
    ensures
        r == trunc_rem(a as int, b as int),
        abs(r as int) < abs(b as int),
{
    let ua: u128 = if a < 0 {
        (-a) as u128
    } else {
        a as u128
    };
    let ub: u128 = if b < 0 {
        (-b) as u128
    } else {
        b as u128
    };
    let m: u128 = ua % ub;
    if a < 0 {
        -(m as i128)
    } else {
        m as i128
    }
}

/// A decimal number with nine fractional digits, held as a count of
/// billionths.
#[derive(Clone, Copy, Debug, PartialEq, Eq, Structural)]
pub struct Decimal {
    pub units: i64,
}

impl Decimal {
    /// The number `units / SCALE`.
    pub fn from_units(units: i64) -> (r: Decimal)
        ensures
            r.units == units,
    {
        Decimal { units }
    }

    /// The whole number `n`, or `None` when it is beyond the range.
    pub fn from_whole(n: i64) -> (r: Option<Decimal>)
        ensures
            r is Some <==> fits_i64(n * SCALE),
            r matches Some(d) ==> d.units == n * SCALE,
    {
        proof {
            lemma_product_bound(n as int, SCALE as int);
        }
        let p: i128 = n as i128 * SCALE as i128;
        if p < i64::MIN as i128 || p > i64::MAX as i128 {
            None
        } else {
            Some(Decimal { units: p as i64 })
        }
    }

    pub fn checked_add(self, o: Decimal) -> (r: Option<Decimal>)
        ensures
            r is Some <==> fits_i64(self.units + o.units),
            r matches Some(d) ==> d.units == self.units + o.units,
    {
        match self.units.checked_add(o.units) {
            Some(u) => Some(Decimal { units: u }),
            None => None,
        }
    }

    pub fn checked_sub(self, o: Decimal) -> (r: Option<Decimal>)
        ensures
            r is Some <==> fits_i64(self.units - o.units),
            r matches Some(d) ==> d.units == self.units - o.units,
    {
        match self.units.checked_sub(o.units) {
            Some(u) => Some(Decimal { units: u }),
            None => None,
        }
    }

    /// The product, its fractional digits beyond the ninth dropped.
    pub fn checked_mul(self, o: Decimal) -> (r: Option<Decimal>)
        ensures
            r is Some <==> fits_i64(trunc_div(self.units * o.units, SCALE as int)),
            r matches Some(d) ==> d.units == trunc_div(self.units * o.units, SCALE as int),
    {
        proof {
            lemma_product_bound(self.units as int, o.units as int);
        }
        let p: i128 = self.units as i128 * o.units as i128;
        let q = div_toward_zero(p, SCALE as i128);
        if q < i64::MIN as i128 || q > i64::MAX as i128 {
            None
        } else {
            Some(Decimal { units: q as i64 })
        }
    }

    /// The quotient, its fractional digits beyond the ninth dropped; `None`
    /// for a zero divisor.
    pub fn checked_div(self, o: Decimal) -> (r: Option<Decimal>)
        ensures
            r is Some <==> o.units != 0 && fits_i64(trunc_div(self.units * SCALE, o.units as int)),
            r matches Some(d) ==> d.units == trunc_div(self.units * SCALE, o.units as int),
    {
        if o.units == 0 {
            return None;
        }
        proof {
            lemma_product_bound(self.units as int, SCALE as int);
        }
        let p: i128 = self.units as i128 * SCALE as i128;
        let q = div_toward_zero(p, o.units as i128);
        if q < i64::MIN as i128 || q > i64::MAX as i128 {
            None
        } else {
            Some(Decimal { units: q as i64 })
        }
    }

    /// The remainder of the division toward zero; `None` for a zero divisor.
    pub fn checked_rem(self, o: Decimal) -> (r: Option<Decimal>)
        ensures
            r is Some <==> o.units != 0,
            r matches Some(d) ==> d.units == trunc_rem(self.units as int, o.units as int),
    {
        if o.units == 0 {
            return None;
        }
        let m = rem_toward_zero(self.units as i128, o.units as i128);
        Some(Decimal { units: m as i64 })
    }
}

} // verus!
