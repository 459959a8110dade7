//! Fixed-point scalars: a value is an integer count of micro-units
//! (millionths of a unit), kept within a fixed magnitude bound.

use vstd::prelude::*;
use vstd::arithmetic::div_mod::{lemma_div_nonincreasing, lemma_div_pos_is_pos};

verus! {

/// Micro-units per whole unit: every value is a multiple of `1/SCALE`.
pub const SCALE: i64 = 1_000_000;

/// Largest magnitude, in micro-units, that a representable value may have
/// (one million whole units).
pub const LIM: i64 = 1_000_000_000_000;

/// A fixed-point scalar: `micros` counts millionths of a unit.
#[derive(Clone, Copy, Debug, PartialEq, Eq, Structural)]
pub struct Fx {
    pub(crate) micros: i64,
}

impl Fx {
    /// The represented value, in micro-units.
    pub open(crate) spec fn m(self) -> int {
        self.micros as int
    }

    /// Well-formed values keep their magnitude within `LIM` micro-units.
    pub open spec fn wf(self) -> bool {
        -(LIM as int) <= self.m() <= LIM as int
    }

    /// The zero value, from which both model parameters start.
    pub fn zero() -> (r: Fx)
        ensures
            r.m() == 0,
            r.wf(),
    {
        Fx { micros: 0 }
    }

    /// Builds a value from a count of micro-units; `None` exactly when the
    /// magnitude exceeds `LIM`.
    pub fn from_micros(m: i64) -> (r: Option<Fx>)
        ensures
            r is Some <==> -LIM <= m <= LIM,
            r matches Some(f) ==> f.m() == m && f.wf(),
    {
        if -LIM <= m && m <= LIM {
            Some(Fx { micros: m })
        } else {
            None
        }
    }

    /// Reads the value back as a count of micro-units.
    pub fn micros(&self) -> (r: i64)
        ensures
            r == self.m(),
    {
        self.micros
    }
}

/// Quotient of `a` by `d`, rounded toward zero (the rounding used at every
/// division point of the fixed-point computations).
pub open spec fn div_t(a: int, d: int) -> int
    recommends
        d > 0,
{
    if a >= 0 {
        a / d
    } else {
        -((-a) / d)
    }
}

/// A truncated quotient keeps the dividend's sign and never grows in
/// magnitude.
pub proof fn lemma_div_t_bound(a: int, d: int)
    requires
        d >= 1,
    ensures
        a >= 0 ==> 0 <= div_t(a, d) <= a,
        a < 0 ==> a <= div_t(a, d) <= 0,
{
    if a >= 0 {
        lemma_div_pos_is_pos(a, d);
        lemma_div_nonincreasing(a, d);
    } else {
        lemma_div_pos_is_pos(-a, d);
        lemma_div_nonincreasing(-a, d);
    }
}

/// Truncating division on wide intermediates.
pub(crate) fn div_trunc(a: i128, d: i128) -> (r: i128)
    requires
        d > 0,
        a > i128::MIN,
    ensures
        r == div_t(a as int, d as int),
{
    proof {
        if a >= 0 {
            lemma_div_pos_is_pos(a as int, d as int);
            lemma_div_nonincreasing(a as int, d as int);
        } else {
            lemma_div_pos_is_pos(-(a as int), d as int);
            lemma_div_nonincreasing(-(a as int), d as int);
        }
    }
    a.checked_div(d).unwrap()
}

} // verus!
