//! Signed fixed-point scalars with 32 fractional bits.
//!
//! A `Coord` stands for the rational `bits / 2^32`. Every contract speaks of
//! the scaled integer `bits`, so that all arithmetic is exact integer
//! arithmetic and two nodes can never disagree on a value.

use fixed::types::I32F32;
use vstd::prelude::*;

verus! {

/// Scale factor between a `Coord` and its stored integer: `2^32`.
pub const COORD_ONE_BITS: i64 = 0x1_0000_0000;

/// A fixed-point number with 32 integer and 32 fractional bits.
#[derive(Clone, Copy, Debug, PartialEq, Eq, PartialOrd, Ord, Hash, Structural)]
pub struct Coord {
    pub bits: i64,
}

impl View for Coord {
    type V = int;

    open spec fn view(&self) -> int {
        self.bits as int
    }
}

/// Whether a scaled integer can be stored in a `Coord`.
pub open spec fn fits_coord(v: int) -> bool {
    i64::MIN <= v <= i64::MAX
}

/// The `Coord` that stores `v`, if there is one.
pub open spec fn coord_of(v: int) -> Option<Coord> {
    if fits_coord(v) {
        Some(Coord { bits: v as i64 })
    } else {
        None
    }
}

/// Quotient rounded towards zero, for a positive divisor.
pub open spec fn trunc_div(a: int, d: int) -> int
    recommends
        d > 0,
{
    if a >= 0 {
        a / d
    } else {
        -((-a) / d)
    }
}

/// Scaled integer of the product of two fixed-point numbers: the exact
/// product of the scaled integers, divided by `2^32` and rounded down.
pub open spec fn fixed_product(a: int, b: int) -> int {
    (a * b) / 0x1_0000_0000
}

/// Absolute value of an integer.
pub open spec fn abs_int(a: int) -> int {
    if a >= 0 {
        a
    } else {
        -a
    }
}

/// Multiplies two `I32F32` values given by their bits, through
/// `fixed::types::I32F32::checked_mul`. That function widens both operands,
/// multiplies them exactly and drops the low 32 bits of the product, which
/// rounds towards negative infinity; it reports overflow exactly when the
/// rounded product has no `i64` representation.
#[verifier::external_body]
fn fixed_checked_mul(a: i64, b: i64) -> (r: Option<i64>)
    ensures
        r == (if fits_coord(fixed_product(a as int, b as int)) {
            Some(fixed_product(a as int, b as int) as i64)
        } else {
            None
        }),
{
    match I32F32::from_bits(a).checked_mul(I32F32::from_bits(b)) {
        Some(p) => Some(p.to_bits()),
        None => None,
    }
}

impl Coord {
    /// Zero.
    pub open spec fn spec_zero() -> Coord {
        Coord { bits: 0 }
    }

    /// The number stored as `bits`.
    pub fn from_bits(bits: i64) -> (c: Coord)
        ensures
            c.bits == bits,
    {
        Coord { bits }
    }

    /// The stored integer.
    pub fn to_bits(self) -> (bits: i64)
        ensures
            bits == self.bits,
    {
        self.bits
    }

    /// The whole number `n`.
    pub fn from_num(n: i32) -> (c: Coord)
        ensures
            c@ == n * 0x1_0000_0000,
    {
        let wide: i64 = n as i64;
        Coord { bits: wide * COORD_ONE_BITS }
    }

    /// Zero.
    pub fn zero() -> (c: Coord)
        ensures
            c == Coord::spec_zero(),
    {
        Coord { bits: 0 }
    }

    /// Sum, or `None` when it cannot be stored.
    pub fn checked_add(self, rhs: Coord) -> (r: Option<Coord>)
        ensures
            r == coord_of(self@ + rhs@),
    {
        match self.bits.checked_add(rhs.bits) {
            Some(bits) => Some(Coord { bits }),
            None => None,
        }
    }

    /// Difference, or `None` when it cannot be stored.
    pub fn checked_sub(self, rhs: Coord) -> (r: Option<Coord>)
        ensures
            r == coord_of(self@ - rhs@),
    {
        match self.bits.checked_sub(rhs.bits) {
            Some(bits) => Some(Coord { bits }),
            None => None,
        }
    }

    /// Fixed-point product rounded down, or `None` when it cannot be stored.
    pub fn checked_mul(self, rhs: Coord) -> (r: Option<Coord>)
        ensures
            r == coord_of(fixed_product(self@, rhs@)),
    {
        match fixed_checked_mul(self.bits, rhs.bits) {
            Some(bits) => Some(Coord { bits }),
            None => None,
        }
    }

    /// Absolute value, or `None` for the single number whose negation cannot
    /// be stored.
    pub fn checked_abs(self) -> (r: Option<Coord>)
        ensures
            r == coord_of(abs_int(self@)),
    {
        if self.bits >= 0 {
            Some(self)
        } else {
            match 0i64.checked_sub(self.bits) {
                Some(bits) => Some(Coord { bits }),
                None => None,
            }
        }
    }

    /// Quotient by a positive whole number, rounded towards zero.
    pub fn div_int(self, d: i64) -> (c: Coord)
        requires
            d > 0,
        ensures
            c@ == trunc_div(self@, d as int),
    {
        proof {
            lemma_trunc_div_bounds(self@, d as int);
        }
        match self.bits.checked_div(d) {
            Some(bits) => Coord { bits },
            None => self,
        }
    }
}

/// Dividing by a positive whole number never moves a number away from zero.
pub proof fn lemma_trunc_div_bounds(a: int, d: int)
    requires
        d > 0,
    ensures
        a >= 0 ==> 0 <= trunc_div(a, d) <= a,
        a < 0 ==> a <= trunc_div(a, d) <= 0,
{
    if a >= 0 {
        assert(0 <= a / d <= a) by (nonlinear_arith)
            requires
                a >= 0,
                d > 0,
        ;
    } else {
        let m = -a;
        assert(0 <= m / d <= m) by (nonlinear_arith)
            requires
                m >= 0,
                d > 0,
        ;
    }
}

} // verus!
