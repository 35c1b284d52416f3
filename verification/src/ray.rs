//! Rays: an origin and a direction, evaluated at a parameter.

use vstd::prelude::*;
use crate::fx::Fx;
use crate::vec3::{Vec3, V3, v3_add, v3_scale};

verus! {

/// The mathematical image of a ray.
pub struct RayV {
    pub origin: V3,
    pub direction: V3,
}

/// The point a ray reaches at parameter `t`: `origin + direction * t`.
pub open spec fn ray_at_s(r: RayV, t: int) -> V3 {
    v3_add(r.origin, v3_scale(r.direction, t))
}

/// A ray: origin and (not necessarily normalised) direction.
#[derive(Clone, Copy, Debug)]
pub struct Ray {
    pub origin: Vec3,
    pub direction: Vec3,
}

impl View for Ray {
    type V = RayV;

    open spec fn view(&self) -> RayV {
        RayV { origin: self.origin@, direction: self.direction@ }
    }
}

impl Ray {
    /// The ray from `origin` along `direction`.
    pub fn new(origin: Vec3, direction: Vec3) -> (r: Ray)
        ensures
            r@ == (RayV { origin: origin@, direction: direction@ }),
    {
        Ray { origin, direction }
    }

    /// The point at parameter `t`; `t` may be negative (behind the origin),
    /// callers constrain it through an `Interval`.
    pub fn at(&self, t: Fx) -> (r: Vec3)
        ensures
            r@ == ray_at_s(self@, t@),
    {
        self.origin.add(self.direction.scale(t))
    }
}

} // verus!
