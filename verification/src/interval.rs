//! Closed numeric ranges: they bound valid intersection parameters and clamp
//! colour channels.

use vstd::prelude::*;
use crate::fx::{Fx, sat64};

verus! {

/// A closed range of fixed-point scalars.
#[derive(Clone, Copy, Debug)]
pub struct Interval {
    pub min: Fx,
    pub max: Fx,
}

impl Interval {
    /// The range `[min, max]`.
    pub fn new(min: Fx, max: Fx) -> (r: Interval)
        ensures
            r.min@ == min@,
            r.max@ == max@,
    {
        Interval { min, max }
    }

    /// The widest representable range.
    pub fn infinity() -> (r: Interval)
        ensures
            r.min@ == i64::MIN as int,
            r.max@ == i64::MAX as int,
    {
        Interval { min: Fx { raw: i64::MIN }, max: Fx { raw: i64::MAX } }
    }

    /// The width of the range (saturating).
    pub fn size(&self) -> (r: Fx)
        ensures
            r@ == sat64(self.max@ - self.min@),
    {
        self.max.sub(self.min)
    }

    /// Whether `test` lies in the range, endpoints included.
    pub fn contains(&self, test: Fx) -> (r: bool)
        ensures
            r == (self.min@ <= test@ <= self.max@),
    {
        self.min.raw <= test.raw && test.raw <= self.max.raw
    }

    /// Whether `test` lies strictly inside the range; intersection roots use
    /// this to keep boundary self-hits out.
    pub fn surrounds(&self, test: Fx) -> (r: bool)
        ensures
            r == (self.min@ < test@ < self.max@),
    {
        self.min.raw < test.raw && test.raw < self.max.raw
    }

    /// `x` saturated into the range.
    pub fn clamp(&self, x: Fx) -> (r: Fx)
        ensures
            r@ == if x@ < self.min@ {
                self.min@
            } else if x@ > self.max@ {
                self.max@
            } else {
                x@
            },
    {
        if x.raw < self.min.raw {
            self.min
        } else if self.max.raw < x.raw {
            self.max
        } else {
            x
        }
    }
}

} // verus!
