//! Intersection records and the aggregate of primitives.

use vstd::prelude::*;
use crate::fx::Fx;
use crate::interval::Interval;
use crate::material::Material;
use crate::ray::Ray;
use crate::sphere::{Sphere, sphere_root_s, sphere_point_s, sphere_normal_s, sphere_front_s};
use crate::vec3::{Vec3, V3};

verus! {

/// The mathematical image of a hit record.
pub struct HitRecordV {
    pub p: V3,
    pub normal: V3,
    pub t: int,
    pub front_face: bool,
    pub mat: Material,
}

/// A successful ray-primitive intersection: the hit point, the normal
/// oriented against the incoming ray, the parametric distance, which side
/// was struck, and the material of the surface.
#[derive(Clone, Copy, Debug)]
pub struct HitRecord {
    pub p: Vec3,
    pub normal: Vec3,
    pub t: Fx,
    pub front_face: bool,
    pub mat: Material,
}

impl View for HitRecord {
    type V = HitRecordV;

    open spec fn view(&self) -> HitRecordV {
        HitRecordV {
            p: self.p@,
            normal: self.normal@,
            t: self.t@,
            front_face: self.front_face,
            mat: self.mat,
        }
    }
}

/// The record sphere `s` produces for a hit of ray `r` at parameter `t`.
pub open spec fn sphere_record_s(s: Sphere, r: crate::ray::RayV, t: int) -> HitRecordV {
    HitRecordV {
        p: sphere_point_s(r, t),
        normal: sphere_normal_s(s@, r, t),
        t: t,
        front_face: sphere_front_s(s@, r, t),
        mat: s.mat,
    }
}

/// An ordered collection of primitives, queried for the nearest hit.
pub struct HittableList {
    pub objects: Vec<Sphere>,
}

/// The nearest root any member offers within the open window
/// `(tmin, tmax)`: the minimum over the members' own chosen roots.
pub open spec fn nearest_root_s(objs: Seq<Sphere>, r: crate::ray::RayV, tmin: int, tmax: int)
    -> Option<int>
    decreases objs.len(),
{
    if objs.len() == 0 {
        None
    } else {
        let head = sphere_root_s(objs[0]@, r, tmin, tmax);
        let rest = nearest_root_s(objs.drop_first(), r, tmin, tmax);
        match head {
            None => rest,
            Some(t) => match rest {
                None => Some(t),
                Some(u) => if u < t {
                    Some(u)
                } else {
                    Some(t)
                },
            },
        }
    }
}

impl Default for HittableList {
    /// An empty scene.
    fn default() -> (r: HittableList)
        ensures
            r.objects@.len() == 0,
    {
        HittableList { objects: Vec::new() }
    }
}

impl HittableList {
    /// A scene holding one primitive.
    pub fn new(object: Sphere) -> (r: HittableList)
        ensures
            r.objects@ == seq![object],
    {
        let mut v: Vec<Sphere> = Vec::new();
        v.push(object);
        proof {
            assert(v@ =~= seq![object]);
        }
        HittableList { objects: v }
    }

    /// Valid when every member is.
    pub open spec fn wf(&self) -> bool {
        forall|i: int| 0 <= i < self.objects@.len() ==> (#[trigger] self.objects@[i]).wf()
    }

    /// Whether every member is valid, decided at run time for callers that
    /// assemble a scene outside verified code.
    pub fn check_wf(&self) -> (b: bool)
        ensures
            b == self.wf(),
    {
        let n: usize = self.objects.len();
        let mut i: usize = 0;
        while i < n
            invariant
                0 <= i <= n,
                n == self.objects@.len(),
                forall|k: int| 0 <= k < i ==> (#[trigger] self.objects@[k]).wf(),
            decreases n - i,
        {
            let s: &Sphere = &self.objects[i];
            if !(s.radius.raw >= 0 && s.mat.check_wf()) {
                return false;
            }
            i = i + 1;
        }
        true
    }

    /// Remove every primitive.
    pub fn clear(&mut self)
        ensures
            final(self).objects@.len() == 0,
    {
        self.objects.clear()
    }

    /// Append a primitive; the order of insertion does not affect which hit
    /// is reported.
    pub fn add(&mut self, object: Sphere)
        ensures
            final(self).objects@ == old(self).objects@.push(object),
    {
        self.objects.push(object)
    }

    /// The nearest valid intersection of `r` with any member, scanning all
    /// members and shrinking the search window to the closest hit so far.
    pub fn hit(&self, r: &Ray, ray_t: Interval) -> (res: Option<HitRecord>)
        ensures
            match res {
                None => nearest_root_s(self.objects@, r@, ray_t.min@, ray_t.max@) is None,
                Some(rec) => {
                    &&& nearest_root_s(self.objects@, r@, ray_t.min@, ray_t.max@) == Some(rec@.t)
                    &&& exists|j: int|
                        0 <= j < self.objects@.len()
                            && sphere_root_s(#[trigger] self.objects@[j]@, r@, ray_t.min@, ray_t.max@)
                            == Some(rec@.t)
                            && rec@ == sphere_record_s(self.objects@[j], r@, rec@.t)
                    &&& ray_t.min@ < rec@.t < ray_t.max@
                },
            },
    {
        let tmin: Fx = ray_t.min;
        let tmax0: Fx = ray_t.max;
        let ghost full: Seq<Sphere> = self.objects@;
        let mut closest: Fx = tmax0;
        let mut temp_rec: Option<HitRecord> = None;
        let n: usize = self.objects.len();
        let mut i: usize = 0;
        while i < n
            invariant
                0 <= i <= n,
                n == full.len(),
                full == self.objects@,
                tmin@ == ray_t.min@,
                tmax0@ == ray_t.max@,
                match temp_rec {
                    None => {
                        &&& closest@ == tmax0@
                        &&& forall|j: int|
                            0 <= j < i ==> sphere_root_s(
                                #[trigger] full[j]@,
                                r@,
                                tmin@,
                                tmax0@,
                            ) is None
                    },
                    Some(rec) => {
                        &&& closest@ == rec@.t
                        &&& tmin@ < rec@.t < tmax0@
                        &&& exists|j: int|
                            0 <= j < i && sphere_root_s(#[trigger] full[j]@, r@, tmin@, tmax0@)
                                == Some(rec@.t) && rec@ == sphere_record_s(full[j], r@, rec@.t)
                        &&& forall|j: int|
                            0 <= j < i ==> match sphere_root_s(
                                #[trigger] full[j]@,
                                r@,
                                tmin@,
                                tmax0@,
                            ) {
                                None => true,
                                Some(u) => u >= rec@.t,
                            }
                    },
                },
            decreases n - i,
        {
            let object: &Sphere = &self.objects[i];
            let window: Interval = Interval::new(tmin, closest);
            let got: Option<HitRecord> = object.hit(r, window);
            proof {
                crate::sphere::lemma_root_in_window(*object, r@, tmin@, closest@, tmax0@);
            }
            match got {
                Some(rec) => {
                    closest = rec.t;
                    temp_rec = Some(rec);
                },
                None => {},
            }
            i = i + 1;
        }
        proof {
            lemma_nearest_root_characterised(full, r@, tmin@, tmax0@);
        }
        temp_rec
    }
}

/// `nearest_root_s` is exactly the minimum of the members' offers: none when
/// no member offers a root, and otherwise some member's offer that no other
/// member undercuts.
pub proof fn lemma_nearest_root_characterised(
    objs: Seq<Sphere>,
    r: crate::ray::RayV,
    tmin: int,
    tmax: int,
)
    ensures
        match nearest_root_s(objs, r, tmin, tmax) {
            None => forall|j: int|
                0 <= j < objs.len() ==> sphere_root_s(#[trigger] objs[j]@, r, tmin, tmax) is None,
            Some(t) => {
                &&& exists|j: int|
                    0 <= j < objs.len() && sphere_root_s(#[trigger] objs[j]@, r, tmin, tmax)
                        == Some(t)
                &&& forall|j: int|
                    0 <= j < objs.len() ==> match sphere_root_s(
                        #[trigger] objs[j]@,
                        r,
                        tmin,
                        tmax,
                    ) {
                        None => true,
                        Some(u) => u >= t,
                    }
            },
        },
    decreases objs.len(),
{
    if objs.len() > 0 {
        lemma_nearest_root_characterised(objs.drop_first(), r, tmin, tmax);
        let rest = objs.drop_first();
        assert forall|j: int| 1 <= j < objs.len() implies objs[j] == rest[j - 1] by {
            assert(rest[j - 1] == objs[j]);
        }
    }
}

/// The nearest hit does not depend on the order of insertion: two scenes
/// holding the same primitives, however arranged, report the same nearest
/// root for every ray and every window.
#[verifier::rlimit(60)]
#[verifier::spinoff_prover]
pub proof fn lemma_nearest_root_order_independent(
    a: Seq<Sphere>,
    b: Seq<Sphere>,
    r: crate::ray::RayV,
    tmin: int,
    tmax: int,
)
    requires
        a.to_multiset() == b.to_multiset(),
    ensures
        nearest_root_s(a, r, tmin, tmax) == nearest_root_s(b, r, tmin, tmax),
{
    lemma_nearest_root_characterised(a, r, tmin, tmax);
    lemma_nearest_root_characterised(b, r, tmin, tmax);
    a.to_multiset_ensures();
    b.to_multiset_ensures();
    let ra = nearest_root_s(a, r, tmin, tmax);
    let rb = nearest_root_s(b, r, tmin, tmax);
    if ra is Some {
        let t = ra->Some_0;
        let j = choose|j: int|
            0 <= j < a.len() && sphere_root_s(#[trigger] a[j]@, r, tmin, tmax) == Some(t);
        assert(a.contains(a[j]));
        assert(a.to_multiset().count(a[j]) > 0);
        assert(b.to_multiset().count(a[j]) > 0);
        assert(b.contains(a[j]));
        let i = choose|i: int| 0 <= i < b.len() && b[i] == a[j];
        assert(sphere_root_s(b[i]@, r, tmin, tmax) == Some(t));
        assert(rb is Some);
    }
    if rb is Some {
        let t = rb->Some_0;
        let j = choose|j: int|
            0 <= j < b.len() && sphere_root_s(#[trigger] b[j]@, r, tmin, tmax) == Some(t);
        assert(b.contains(b[j]));
        assert(b.to_multiset().count(b[j]) > 0);
        assert(a.to_multiset().count(b[j]) > 0);
        assert(a.contains(b[j]));
        let i = choose|i: int| 0 <= i < a.len() && a[i] == b[j];
        assert(sphere_root_s(a[i]@, r, tmin, tmax) == Some(t));
        assert(ra is Some);
    }
    if ra is Some && rb is Some {
        assert(ra->Some_0 >= rb->Some_0);
        assert(rb->Some_0 >= ra->Some_0);
    }
}

} // verus!
