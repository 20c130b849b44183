//! Integer range mapping and small arithmetic helpers.
use vstd::prelude::*;

verus! {

/// Rust's integer quotient, rounded toward zero.
pub open spec fn trunc_div(a: int, b: int) -> int {
    let q = (if a < 0 { -a } else { a }) / (if b < 0 { -b } else { b });
    if (a < 0) != (b < 0) {
        -q
    } else {
        q
    }
}

pub open spec fn fits_i64(v: int) -> bool {
    i64::MIN <= v <= i64::MAX
}

/// `x` carried from the range `in_min..in_max` onto `out_min..out_max`.
pub open spec fn map_spec(x: int, in_min: int, in_max: int, out_min: int, out_max: int) -> int {
    trunc_div((x - in_min) * (out_max - out_min), in_max - in_min) + out_min
}

/// Every step of `map_spec` fits in an `i64`.
pub open spec fn map_fits(x: i64, in_min: i64, in_max: i64, out_min: i64, out_max: i64) -> bool {
    &&& in_max != in_min
    &&& fits_i64(x - in_min)
    &&& fits_i64(out_max - out_min)
    &&& fits_i64(in_max - in_min)
    &&& fits_i64((x - in_min) * (out_max - out_min))
    &&& fits_i64(trunc_div((x - in_min) * (out_max - out_min), in_max - in_min))
    &&& fits_i64(map_spec(x as int, in_min as int, in_max as int, out_min as int, out_max as int))
}

/// `a / b` rounded toward zero, as Rust's `/` on integers.
fn div_toward_zero(a: i64, b: i64) -> (q: i64)
    requires
        b != 0,
        fits_i64(trunc_div(a as int, b as int)),
    ensures
        q == trunc_div(a as int, b as int),
{
    let aa: i128 = if a < 0 { -(a as i128) } else { a as i128 };
    let ba: i128 = if b < 0 { -(b as i128) } else { b as i128 };
    let qa: i128 = aa / ba;
    if (a < 0) != (b < 0) {
        (-qa) as i64
    } else {
        qa as i64
    }
}

pub fn map(x: i64, in_min: i64, in_max: i64, out_min: i64, out_max: i64) -> (r: i64)
    requires
        map_fits(x, in_min, in_max, out_min, out_max),
    ensures
        r == map_spec(x as int, in_min as int, in_max as int, out_min as int, out_max as int),
{
    let a = x - in_min;
    let b = out_max - out_min;
    let c = in_max - in_min;
    let p = a * b;
    let q = div_toward_zero(p, c);
    q + out_min
}

/// `x` held within `min..=max`.
pub open spec fn clamp_spec(x: int, min: int, max: int) -> int {
    if x < min {
        min
    } else if x > max {
        max
    } else {
        x
    }
}

pub fn map_clamped(x: i64, in_min: i64, in_max: i64, out_min: i64, out_max: i64) -> (r: i64)
    requires
        map_fits(x, in_min, in_max, out_min, out_max),
        out_min <= out_max,
    ensures
        r == clamp_spec(
            map_spec(x as int, in_min as int, in_max as int, out_min as int, out_max as int),
            out_min as int,
            out_max as int,
        ),
{
    map(x, in_min, in_max, out_min, out_max).constrain(out_min, out_max)
}

/// `n` carried from `min..max` onto `0..1`.
pub fn norm(n: i64, min: i64, max: i64) -> (r: i64)
    requires
        map_fits(n, min, max, 0, 1),
    ensures
        r == map_spec(n as int, min as int, max as int, 0, 1),
{
    map(n, min, max, 0, 1)
}

pub open spec fn lerp_spec(start: int, stop: int, amt: int) -> int {
    amt * (stop - start) + start
}

/// The point `amt` of the way from `start` to `stop`.
pub fn lerp(start: i64, stop: i64, amt: i64) -> (r: i64)
    requires
        fits_i64(stop - start),
        fits_i64(amt * (stop - start)),
        fits_i64(lerp_spec(start as int, stop as int, amt as int)),
    ensures
        r == lerp_spec(start as int, stop as int, amt as int),
{
    amt * (stop - start) + start
}

/// Holding a value within bounds.
pub trait Constrain: Sized {
    type Output;

    spec fn bounds_ok(min: Self, max: Self) -> bool;

    spec fn constrained(self, min: Self, max: Self) -> Self::Output;

    fn constrain(self, min: Self, max: Self) -> (r: Self::Output)
        requires
            Self::bounds_ok(min, max),
        ensures
            r == self.constrained(min, max),
    ;
}

impl Constrain for i64 {
    type Output = i64;

    open spec fn bounds_ok(min: i64, max: i64) -> bool {
        min <= max
    }

    open spec fn constrained(self, min: i64, max: i64) -> i64 {
        clamp_spec(self as int, min as int, max as int) as i64
    }

    fn constrain(self, min: i64, max: i64) -> (r: i64) {
        if self < min {
            min
        } else if self > max {
            max
        } else {
            self
        }
    }
}

/// Squaring.
pub trait Sq: Sized {
    type Output;

    spec fn sq_fits(self) -> bool;

    spec fn squared(self) -> Self::Output;

    fn sq(self) -> (r: Self::Output)
        requires
            self.sq_fits(),
        ensures
            r == self.squared(),
    ;
}

impl Sq for i64 {
    type Output = i64;

    open spec fn sq_fits(self) -> bool {
        fits_i64(self * self)
    }

    open spec fn squared(self) -> i64 {
        (self * self) as i64
    }

    fn sq(self) -> (r: i64) {
        self * self
    }
}

/// The fractional part.
pub trait Fract: Sized {
    type Output;

    spec fn fractional(self) -> Self::Output;

    fn fract(self) -> (r: Self::Output)
        ensures
            r == self.fractional(),
    ;
}

impl Fract for i64 {
    type Output = i64;

    /// An integer has no fractional part.
    open spec fn fractional(self) -> i64 {
        0
    }

    fn fract(self) -> (r: i64) {
        self % 1
    }
}

} // verus!
