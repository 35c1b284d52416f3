//! The sole concrete primitive: a sphere with a centre, a radius and a
//! material, intersected by solving its quadratic.

use vstd::prelude::*;
use crate::fx::{Fx, sat64, fmul, fquot, fsqrt, lemma_sqrt_floor, FX_ONE};
use crate::hittable::{HitRecord, sphere_record_s};
use crate::interval::Interval;
use crate::material::Material;
use crate::ray::{Ray, RayV, ray_at_s};
use crate::vec3::{Vec3, V3, v3_sub, v3_quot, v3_neg, dot_s, len_sq_s};

verus! {

/// The mathematical image of a sphere: centre and radius counts.
pub struct SphereV {
    pub center: V3,
    pub radius: int,
}

/// A sphere.  The radius is clamped nonnegative at construction.
#[derive(Clone, Copy, Debug)]
pub struct Sphere {
    pub center: Vec3,
    pub radius: Fx,
    pub mat: Material,
}

impl View for Sphere {
    type V = SphereV;

    open spec fn view(&self) -> SphereV {
        SphereV { center: self.center@, radius: self.radius@ }
    }
}

/// Centre minus ray origin.
pub open spec fn sphere_oc_s(s: SphereV, r: RayV) -> V3 {
    v3_sub(s.center, r.origin)
}

/// The quadratic's leading coefficient: the squared direction length.
pub open spec fn sphere_a_s(r: RayV) -> int {
    len_sq_s(r.direction)
}

/// Half the negated linear coefficient: `direction . oc`.
pub open spec fn sphere_h_s(s: SphereV, r: RayV) -> int {
    dot_s(r.direction, sphere_oc_s(s, r))
}

/// The constant coefficient: `|oc|^2 - radius^2`.
pub open spec fn sphere_c_s(s: SphereV, r: RayV) -> int {
    sat64(len_sq_s(sphere_oc_s(s, r)) - fmul(s.radius, s.radius))
}

/// The discriminant `h^2 - a c`.
pub open spec fn sphere_disc_s(s: SphereV, r: RayV) -> int {
    sat64(fmul(sphere_h_s(s, r), sphere_h_s(s, r)) - fmul(sphere_a_s(r), sphere_c_s(s, r)))
}

/// The square root of the discriminant.
pub open spec fn sphere_sqrtd_s(s: SphereV, r: RayV) -> int {
    fsqrt(sphere_disc_s(s, r))
}

/// The nearer quadratic root `(h - sqrt(disc)) / a`.
pub open spec fn sphere_root1_s(s: SphereV, r: RayV) -> int {
    fquot(sat64(sphere_h_s(s, r) - sphere_sqrtd_s(s, r)), sphere_a_s(r))
}

/// The farther quadratic root `(h + sqrt(disc)) / a`.
pub open spec fn sphere_root2_s(s: SphereV, r: RayV) -> int {
    fquot(sat64(sphere_h_s(s, r) + sphere_sqrtd_s(s, r)), sphere_a_s(r))
}

/// The root a sphere reports for the open window `(tmin, tmax)`: the nearer
/// root if the window surrounds it, else the farther, else none.  A negative
/// discriminant is a miss; a direction or radius shorter than one fractional
/// step leaves the quotients undefined and is a miss as well.
#[verifier::opaque]
pub open spec fn sphere_root_s(s: SphereV, r: RayV, tmin: int, tmax: int) -> Option<int> {
    if sphere_disc_s(s, r) < 0 || sphere_a_s(r) < 1 || s.radius <= 0 {
        None
    } else if tmin < sphere_root1_s(s, r) < tmax {
        Some(sphere_root1_s(s, r))
    } else if tmin < sphere_root2_s(s, r) < tmax {
        Some(sphere_root2_s(s, r))
    } else {
        None
    }
}

/// The hit point for parameter `t`.
pub open spec fn sphere_point_s(r: RayV, t: int) -> V3 {
    ray_at_s(r, t)
}

/// The outward normal at the hit point: `(point - centre) / radius`.
pub open spec fn sphere_outward_s(s: SphereV, r: RayV, t: int) -> V3 {
    v3_quot(v3_sub(sphere_point_s(r, t), s.center), s.radius)
}

/// Whether the ray strikes the front face: it runs against the outward normal.
pub open spec fn sphere_front_s(s: SphereV, r: RayV, t: int) -> bool {
    dot_s(r.direction, sphere_outward_s(s, r, t)) < 0
}

/// The stored normal: oriented against the incoming ray.
pub open spec fn sphere_normal_s(s: SphereV, r: RayV, t: int) -> V3 {
    if sphere_front_s(s, r, t) {
        sphere_outward_s(s, r, t)
    } else {
        v3_neg(sphere_outward_s(s, r, t))
    }
}

/// The two roots are ordered: the square root of the discriminant is
/// nonnegative, and dividing a larger numerator by the same positive
/// denominator cannot shrink the quotient.
pub proof fn lemma_roots_ordered(s: SphereV, r: RayV)
    requires
        sphere_disc_s(s, r) >= 0,
        sphere_a_s(r) >= 1,
    ensures
        sphere_root1_s(s, r) <= sphere_root2_s(s, r),
        sphere_sqrtd_s(s, r) >= 0,
{
    let h = sphere_h_s(s, r);
    let d = sphere_disc_s(s, r);
    let a = sphere_a_s(r);
    lemma_sqrt_floor(d * FX_ONE as int);
    let sq = sphere_sqrtd_s(s, r);
    let lo = sat64(h - sq);
    let hi = sat64(h + sq);
    assert(lo <= hi);
    assert(lo * FX_ONE as int <= hi * FX_ONE as int) by (nonlinear_arith)
        requires
            lo <= hi,
    ;
    vstd::arithmetic::div_mod::lemma_div_is_ordered(
        lo * FX_ONE as int,
        hi * FX_ONE as int,
        a,
    );
}

/// How a sphere's report for a shrunk window `(tmin, T)` relates to its
/// report for the full window `(tmin, tmax)`: a root found in the shrunk
/// window is exactly the full window's root, and a miss in the shrunk window
/// means the full window holds no root below `T`.
pub proof fn lemma_root_in_window(s: Sphere, r: RayV, tmin: int, t_cut: int, tmax: int)
    requires
        t_cut <= tmax,
    ensures
        match sphere_root_s(s@, r, tmin, t_cut) {
            Some(t) => sphere_root_s(s@, r, tmin, tmax) == Some(t),
            None => match sphere_root_s(s@, r, tmin, tmax) {
                None => true,
                Some(u) => u >= t_cut,
            },
        },
{
    reveal(sphere_root_s);
    if sphere_disc_s(s@, r) >= 0 && sphere_a_s(r) >= 1 && s@.radius > 0 {
        lemma_roots_ordered(s@, r);
    }
}

impl Sphere {
    /// A sphere; a negative radius is clamped to zero, not rejected.
    pub fn new(center: Vec3, radius: Fx, mat: Material) -> (r: Sphere)
        ensures
            r.center@ == center@,
            r.radius@ == if radius@ >= 0 {
                radius@
            } else {
                0int
            },
            r.mat == mat,
    {
        Sphere { center, radius: radius.max(Fx::zero()), mat }
    }

    /// Valid when the material is and the radius is nonnegative.
    pub open spec fn wf(&self) -> bool {
        self.mat.wf() && self.radius@ >= 0
    }

    /// The nearest intersection of `r` with this sphere strictly inside
    /// `ray_t`, solving `a t^2 - 2 h t + c = 0`.
    pub fn hit(&self, r: &Ray, ray_t: Interval) -> (res: Option<HitRecord>)
        ensures
            match res {
                None => sphere_root_s(self@, r@, ray_t.min@, ray_t.max@) is None,
                Some(rec) => {
                    &&& sphere_root_s(self@, r@, ray_t.min@, ray_t.max@) == Some(rec@.t)
                    &&& rec@ == sphere_record_s(*self, r@, rec@.t)
                    &&& ray_t.min@ < rec@.t < ray_t.max@
                },
            },
    {
        proof {
            reveal(sphere_root_s);
        }
        let oc: Vec3 = self.center.sub(r.origin);
        let a: Fx = r.direction.len_squared();
        let h: Fx = r.direction.dot(&oc);
        let c: Fx = oc.len_squared().sub(self.radius.mul(self.radius));
        let disc: Fx = h.mul(h).sub(a.mul(c));
        if disc.raw < 0 {
            return None;
        }
        if a.raw < 1 {
            return None;
        }
        if self.radius.raw <= 0 {
            return None;
        }
        let sqrtd: Fx = disc.sqrt();
        let mut root: Fx = h.sub(sqrtd).div(a);
        if !ray_t.surrounds(root) {
            root = h.add(sqrtd).div(a);
            if !ray_t.surrounds(root) {
                return None;
            }
        }
        let p: Vec3 = r.at(root);
        let outward: Vec3 = p.sub(self.center).divide(self.radius);
        let front: bool = r.direction.dot(&outward).raw < 0;
        let normal: Vec3 = if front {
            outward
        } else {
            outward.neg()
        };
        Some(HitRecord { p, normal, t: root, front_face: front, mat: self.mat })
    }
}

} // verus!
