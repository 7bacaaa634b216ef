//! Exact rational coordinates.
//!
//! The remapping and sampling pipeline works on exact fractions rather
//! than approximate reals, so every coordinate computation is reproducible
//! and can be reasoned about precisely.  A `Frac` is a nonnegative
//! fraction kept unreduced; the wallpaper-group remappers consume and
//! produce unit-interval fractions.  A `Coord` is a signed fraction in
//! source-image pixel space; it may lie outside the image and is brought
//! into range by wraparound when sampling.
use vstd::prelude::*;

verus! {

/// An exact nonnegative rational, kept unreduced: the value is `num / den`.
#[derive(Clone, Copy, PartialEq, Eq, Structural, Debug)]
pub struct Frac {
    pub num: u64,
    pub den: u64,
}

impl Frac {
    /// A well-formed unit-interval fraction: positive denominator and a
    /// value of at most one.
    pub open spec fn is_unit(self) -> bool {
        1 <= self.den && self.num <= self.den
    }

    /// The mirrored coordinate `1 - self`.
    pub fn one_minus(self) -> (r: Frac)
        requires
            self.is_unit(),
        ensures
            r == (Frac { num: (self.den - self.num) as u64, den: self.den }),
            r.is_unit(),
    {
        Frac { num: self.den - self.num, den: self.den }
    }
}

/// A signed exact rational pixel coordinate: the value is `num / den`.
#[derive(Clone, Copy, PartialEq, Eq, Structural, Debug)]
pub struct Coord {
    pub num: i128,
    pub den: u64,
}

impl Coord {
    /// A well-formed coordinate: positive denominator.
    pub open spec fn wf(self) -> bool {
        1 <= self.den
    }
}

} // verus!
