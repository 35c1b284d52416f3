//! Surface materials and their scattering models.
//!
//! The closed set of materials is a tagged sum: diffuse (Lambertian),
//! specular with fuzz (Metal) and refractive glass (Dielectric).  Materials
//! are immutable value objects; every primitive that uses one holds a copy.

use vstd::prelude::*;
use crate::fx::{Fx, FX_ONE, sat64, fmul, fquot, fsqrt};
use crate::hittable::HitRecord;
use crate::ray::Ray;
use crate::vec3::{
    Vec3, V3, v3_add, v3_neg, v3_scale, dot_s, len_sq_s, unit_s, near_zero_s, reflect_s, refract_s,
    is_unit_sample,
};

verus! {

/// What a material hands back: the outgoing ray, the per-channel
/// attenuation, and whether the light survives the bounce at all.
pub struct ScatterResult {
    pub scattered: Ray,
    pub attenuation: Vec3,
    pub is_scattered: bool,
}

/// A channel holds a fraction of reflected light: zero through one.
pub open spec fn albedo_wf(a: crate::vec3::V3) -> bool {
    &&& 0 <= a.x <= FX_ONE as int
    &&& 0 <= a.y <= FX_ONE as int
    &&& 0 <= a.z <= FX_ONE as int
}

/// A diffuse surface.
#[derive(Clone, Copy, Debug, PartialEq, Eq, Structural)]
pub struct Lambertian {
    pub albedo: Vec3,
}

/// A specular surface whose mirror direction is perturbed by `fuzz`.
#[derive(Clone, Copy, Debug, PartialEq, Eq, Structural)]
pub struct Metal {
    pub albedo: Vec3,
    pub fuzz: Fx,
}

/// A transparent boundary with the given refraction index.
#[derive(Clone, Copy, Debug, PartialEq, Eq, Structural)]
pub struct Dielectric {
    pub refraction_index: Fx,
}

/// The closed set of scattering behaviours.
#[derive(Clone, Copy, Debug, PartialEq, Eq, Structural)]
pub enum Material {
    Lambertian(Lambertian),
    Metal(Metal),
    Dielectric(Dielectric),
}

impl Lambertian {
    /// A diffuse surface with the given albedo.
    pub fn new(albedo: Vec3) -> (r: Lambertian)
        ensures
            r.albedo@ == albedo@,
    {
        Lambertian { albedo }
    }

    /// Valid when the albedo is a fraction per channel.
    pub open spec fn wf(&self) -> bool {
        albedo_wf(self.albedo@)
    }

    /// Diffuse scattering: a unit sample added to the normal, falling back
    /// to the normal itself when the sum cancels to nothing.  Always
    /// scatters; the attenuation is the albedo.
    pub fn scatter(&self, r_in: &Ray, rec: &HitRecord) -> (res: ScatterResult)
        ensures
            res.attenuation@ == self.albedo@,
            res.is_scattered,
            res.scattered@.origin == rec@.p,
            exists|u: V3|
                #[trigger] is_unit_sample(u) && res.scattered@.direction == lambertian_dir_s(
                    rec@.normal,
                    u,
                ),
    {
        let u: Vec3 = Vec3::random_unit_vector();
        let mut scatter_direction: Vec3 = rec.normal.add(u);
        if scatter_direction.near_zero() {
            scatter_direction = rec.normal;
        }
        let scattered: Ray = Ray::new(rec.p, scatter_direction);
        let attenuation: Vec3 = self.albedo;
        ScatterResult { scattered, attenuation, is_scattered: true }
    }
}

/// The diffuse scatter direction for a given unit sample.
pub open spec fn lambertian_dir_s(n: V3, u: V3) -> V3 {
    if near_zero_s(v3_add(n, u)) {
        n
    } else {
        v3_add(n, u)
    }
}

/// The specular base direction: the normalised mirror reflection, or the
/// normal itself when the rounded reflection is too short to normalise.
pub open spec fn metal_base_s(d: V3, n: V3) -> V3 {
    if len_sq_s(reflect_s(d, n)) >= 1 {
        unit_s(reflect_s(d, n))
    } else {
        n
    }
}

/// The specular scatter direction: the base perturbed by `fuzz` times a
/// unit sample.
pub open spec fn metal_dir_s(d: V3, n: V3, fuzz: int, u: V3) -> V3 {
    v3_add(metal_base_s(d, n), v3_scale(u, fuzz))
}

impl Metal {
    /// A specular surface; the fuzz radius is clamped into zero through one.
    pub fn new(albedo: Vec3, fuzz: Fx) -> (r: Metal)
        ensures
            r.albedo@ == albedo@,
            r.fuzz@ == if fuzz@ < 0 {
                0int
            } else if fuzz@ > FX_ONE as int {
                FX_ONE as int
            } else {
                fuzz@
            },
    {
        let f: Fx = if fuzz.raw < 0 {
            Fx::zero()
        } else if fuzz.raw > FX_ONE {
            Fx::one()
        } else {
            fuzz
        };
        Metal { albedo, fuzz: f }
    }

    /// Valid when the albedo is a fraction per channel and the fuzz radius is
    /// zero through one.
    pub open spec fn wf(&self) -> bool {
        albedo_wf(self.albedo@) && 0 <= self.fuzz@ <= FX_ONE as int
    }

    /// Specular scattering: the mirror reflection, normalised, perturbed by
    /// a fuzz-scaled unit sample.  Always scatters, even below the surface;
    /// the attenuation is the albedo.  A rounded reflection too short to
    /// normalise falls back to the normal.
    pub fn scatter(&self, r_in: &Ray, rec: &HitRecord) -> (res: ScatterResult)
        ensures
            res.attenuation@ == self.albedo@,
            res.is_scattered,
            res.scattered@.origin == rec@.p,
            exists|u: V3|
                #[trigger] is_unit_sample(u) && res.scattered@.direction == metal_dir_s(
                    r_in@.direction,
                    rec@.normal,
                    self.fuzz@,
                    u,
                ),
    {
        let reflected: Vec3 = r_in.direction.reflect(rec.normal);
        let base: Vec3 = if reflected.len_squared().raw >= 1 {
            reflected.unit_vector()
        } else {
            rec.normal
        };
        let u: Vec3 = Vec3::random_unit_vector();
        let dir: Vec3 = base.add(u.scale(self.fuzz));
        ScatterResult {
            scattered: Ray::new(rec.p, dir),
            attenuation: self.albedo,
            is_scattered: true,
        }
    }
}

impl Dielectric {
    /// A transparent boundary with the given refraction index.
    pub fn new(refraction_index: Fx) -> (r: Dielectric)
        ensures
            r.refraction_index@ == refraction_index@,
    {
        Dielectric { refraction_index }
    }

    /// Valid when the refraction index is positive.
    pub open spec fn wf(&self) -> bool {
        self.refraction_index@ > 0
    }

    /// Refractive scattering: at total internal reflection, or when the
    /// Schlick reflectance beats a uniform draw, the ray reflects; otherwise
    /// it refracts.  Always scatters; glass does not tint, so the
    /// attenuation is white.
    pub fn scatter(&self, r_in: &Ray, rec: &HitRecord) -> (res: ScatterResult)
        requires
            self.wf(),
            len_sq_s(r_in@.direction) >= 1,
        ensures
            res.attenuation@ == (V3 {
                x: FX_ONE as int,
                y: FX_ONE as int,
                z: FX_ONE as int,
            }),
            res.is_scattered,
            res.scattered@.origin == rec@.p,
            exists|q: int|
                0 <= q < FX_ONE as int && res.scattered@.direction == #[trigger] diel_dir_s(
                    unit_s(r_in@.direction),
                    rec@.normal,
                    rec@.front_face,
                    self.refraction_index@,
                    q,
                ),
            diel_tir_s(unit_s(r_in@.direction), rec@.normal, rec@.front_face,
                self.refraction_index@,
            ) ==> res.scattered@.direction == reflect_s(unit_s(r_in@.direction), rec@.normal),
    {
        let attenuation: Vec3 = Vec3::new(Fx::one(), Fx::one(), Fx::one());
        let ri: Fx = if rec.front_face {
            Fx::one().div(self.refraction_index)
        } else {
            self.refraction_index
        };
        proof {
            if rec.front_face {
                vstd::arithmetic::div_mod::lemma_div_pos_is_pos(
                    FX_ONE as int * FX_ONE as int,
                    self.refraction_index@,
                );
            }
        }
        let unit_direction: Vec3 = r_in.direction.unit_vector();
        let cos_theta: Fx = unit_direction.neg().dot(&rec.normal).min(Fx::one());
        let sin2: Fx = Fx::one().sub(cos_theta.mul(cos_theta)).max(Fx::zero());
        let sin_theta: Fx = sin2.sqrt();
        let draw: Fx = Fx::from_raw(crate::rng::random_raw_in(0, FX_ONE));
        let refl: Fx = reflectance(cos_theta, ri);
        let direction: Vec3 = if ri.mul(sin_theta).raw > FX_ONE || refl.raw > draw.raw {
            unit_direction.reflect(rec.normal)
        } else {
            unit_direction.refract(rec.normal, ri)
        };
        proof {
            assert(0 <= draw@ < FX_ONE as int && direction@ == diel_dir_s(
                unit_s(r_in@.direction),
                rec@.normal,
                rec@.front_face,
                self.refraction_index@,
                draw@,
            ));
        }
        ScatterResult { scattered: Ray::new(rec.p, direction), attenuation, is_scattered: true }
    }
}

/// The relative refraction index at the struck side: inverted when the ray
/// arrives from outside.
pub open spec fn diel_ri_s(front_face: bool, index: int) -> int {
    if front_face {
        fquot(FX_ONE as int, index)
    } else {
        index
    }
}

/// The cosine of the incidence angle, capped at one against rounding error
/// near grazing incidence.
pub open spec fn diel_cos_s(uv: V3, n: V3) -> int {
    if dot_s(v3_neg(uv), n) <= FX_ONE as int {
        dot_s(v3_neg(uv), n)
    } else {
        FX_ONE as int
    }
}

/// The sine of the incidence angle: the root of `1 - cos^2`, floored at
/// zero against rounding.
pub open spec fn diel_sin_s(uv: V3, n: V3) -> int {
    fsqrt(
        if sat64(FX_ONE as int - fmul(diel_cos_s(uv, n), diel_cos_s(uv, n))) >= 0 {
            sat64(FX_ONE as int - fmul(diel_cos_s(uv, n), diel_cos_s(uv, n)))
        } else {
            0
        },
    )
}

/// Total internal reflection: the relative index times the sine exceeds one.
pub open spec fn diel_tir_s(uv: V3, n: V3, front_face: bool, index: int) -> bool {
    fmul(diel_ri_s(front_face, index), diel_sin_s(uv, n)) > FX_ONE as int
}

/// The refractive scatter direction for a given uniform draw: reflect at
/// total internal reflection or when the Schlick reflectance beats the
/// draw, refract otherwise.
pub open spec fn diel_dir_s(uv: V3, n: V3, front_face: bool, index: int, draw: int) -> V3 {
    if diel_tir_s(uv, n, front_face, index) || reflectance_s(
        diel_cos_s(uv, n),
        diel_ri_s(front_face, index),
    ) > draw {
        reflect_s(uv, n)
    } else {
        refract_s(uv, n, diel_ri_s(front_face, index))
    }
}

/// The attenuation a material applies to every bounce: its albedo, or white
/// for untinted glass.
pub open spec fn material_attenuation_s(m: Material) -> V3 {
    match m {
        Material::Lambertian(l) => l.albedo@,
        Material::Metal(mm) => mm.albedo@,
        Material::Dielectric(_) => V3 { x: FX_ONE as int, y: FX_ONE as int, z: FX_ONE as int },
    }
}

impl Material {
    /// Valid when the variant's own fields are.
    pub open spec fn wf(&self) -> bool {
        match *self {
            Material::Lambertian(m) => m.wf(),
            Material::Metal(m) => m.wf(),
            Material::Dielectric(m) => m.wf(),
        }
    }

    /// Whether this material is valid, decided at run time for callers that
    /// assemble a scene outside verified code.
    pub fn check_wf(&self) -> (b: bool)
        ensures
            b == self.wf(),
    {
        match self {
            Material::Lambertian(m) => {
                0 <= m.albedo.x.raw && m.albedo.x.raw <= FX_ONE && 0 <= m.albedo.y.raw
                    && m.albedo.y.raw <= FX_ONE && 0 <= m.albedo.z.raw && m.albedo.z.raw <= FX_ONE
            },
            Material::Metal(m) => {
                0 <= m.albedo.x.raw && m.albedo.x.raw <= FX_ONE && 0 <= m.albedo.y.raw
                    && m.albedo.y.raw <= FX_ONE && 0 <= m.albedo.z.raw && m.albedo.z.raw <= FX_ONE
                    && 0 <= m.fuzz.raw && m.fuzz.raw <= FX_ONE
            },
            Material::Dielectric(m) => m.refraction_index.raw > 0,
        }
    }

    /// Dispatch to the variant's scattering model.  Every material always
    /// scatters; the outgoing ray starts at the hit point and the
    /// attenuation is a fraction per channel.
    pub fn scatter(&self, r_in: &Ray, rec: &HitRecord) -> (res: ScatterResult)
        requires
            self.wf(),
            len_sq_s(r_in@.direction) >= 1,
        ensures
            res.is_scattered,
            res.scattered@.origin == rec@.p,
            albedo_wf(res.attenuation@),
            res.attenuation@ == material_attenuation_s(*self),
            match *self {
                Material::Lambertian(m) => res.attenuation@ == m.albedo@ && exists|u: V3|
                    #[trigger] is_unit_sample(u) && res.scattered@.direction == lambertian_dir_s(
                        rec@.normal,
                        u,
                    ),
                Material::Metal(m) => res.attenuation@ == m.albedo@ && exists|u: V3|
                    #[trigger] is_unit_sample(u) && res.scattered@.direction == metal_dir_s(
                        r_in@.direction,
                        rec@.normal,
                        m.fuzz@,
                        u,
                    ),
                Material::Dielectric(m) => res.attenuation@ == (V3 {
                    x: FX_ONE as int,
                    y: FX_ONE as int,
                    z: FX_ONE as int,
                }) && exists|q: int|
                    0 <= q < FX_ONE as int && res.scattered@.direction == #[trigger] diel_dir_s(
                        unit_s(r_in@.direction),
                        rec@.normal,
                        rec@.front_face,
                        m.refraction_index@,
                        q,
                    ),
            },
    {
        match self {
            Material::Lambertian(m) => m.scatter(r_in, rec),
            Material::Metal(m) => m.scatter(r_in, rec),
            Material::Dielectric(m) => m.scatter(r_in, rec),
        }
    }
}

/// The fifth power of a scalar, rounded at every product.
pub open spec fn pow5_s(t: int) -> int {
    fmul(fmul(fmul(fmul(t, t), t), t), t)
}

/// Schlick's reflectance approximation:
/// `r0 + (1 - r0) * (1 - cos)^5` with `r0 = ((1 - ri) / (1 + ri))^2`.
pub open spec fn reflectance_s(cos: int, ri: int) -> int {
    let q = fquot(sat64(FX_ONE as int - ri), sat64(FX_ONE as int + ri));
    let r0 = fmul(q, q);
    sat64(r0 + fmul(sat64(FX_ONE as int - r0), pow5_s(sat64(FX_ONE as int - cos))))
}

/// Multiplying by one is exact.
proof fn lemma_fmul_one(x: int)
    requires
        i64::MIN as int <= x <= i64::MAX as int,
    ensures
        fmul(x, FX_ONE as int) == x,
{
    vstd::arithmetic::div_mod::lemma_div_multiples_vanish(x, FX_ONE as int);
    assert(x * (FX_ONE as int) == (FX_ONE as int) * x) by (nonlinear_arith);
}

/// The quotient `(1 - ri) / (1 + ri)` lies between minus one and one
/// when `ri` is nonnegative, so Schlick's `r0` is a fraction.
proof fn lemma_schlick_r0_fraction(ri: int)
    requires
        0 <= ri <= i64::MAX as int,
    ensures
        0 <= fmul(
            fquot(sat64(FX_ONE as int - ri), sat64(FX_ONE as int + ri)),
            fquot(sat64(FX_ONE as int - ri), sat64(FX_ONE as int + ri)),
        ) <= FX_ONE as int,
{
    let s = FX_ONE as int;
    let a = sat64(s - ri);
    let b = sat64(s + ri);
    assert(b >= s);
    assert(-b <= a <= b);
    let p = a * s;
    assert(-(b * s) <= p <= b * s) by (nonlinear_arith)
        requires
            -b <= a <= b,
            s > 0,
            p == a * s,
    ;
    vstd::arithmetic::div_mod::lemma_div_is_ordered(p, b * s, b);
    vstd::arithmetic::div_mod::lemma_div_is_ordered(-(b * s), p, b);
    vstd::arithmetic::div_mod::lemma_div_multiples_vanish(s, b);
    vstd::arithmetic::div_mod::lemma_div_multiples_vanish(-s, b);
    assert(b * s == s * b) by (nonlinear_arith);
    assert(-(b * s) == (-s) * b) by (nonlinear_arith);
    assert(-s <= p / b <= s);
    let q = fquot(a, b);
    assert(-s <= q <= s);
    let qq = q * q;
    assert(0 <= qq <= s * s) by (nonlinear_arith)
        requires
            -s <= q <= s,
            qq == q * q,
    ;
    vstd::arithmetic::div_mod::lemma_div_pos_is_pos(qq, s);
    if qq > 0 {
    } else {
        vstd::arithmetic::div_mod::lemma_div_of0(s);
    }
    vstd::arithmetic::div_mod::lemma_div_is_ordered(qq, s * s, s);
    vstd::arithmetic::div_mod::lemma_div_multiples_vanish(s, s);
    assert(s * s == s * s) by (nonlinear_arith);
}

/// At a grazing angle (`cos == 0`) Schlick's approximation reflects fully:
/// the fifth power of one is exactly one, and `r0 + (1 - r0)` collapses to
/// one, for every nonnegative refraction index.
pub proof fn lemma_reflectance_at_grazing(ri: int)
    requires
        0 <= ri <= i64::MAX as int,
    ensures
        reflectance_s(0, ri) == FX_ONE as int,
{
    let s = FX_ONE as int;
    assert(sat64(s - 0) == s);
    assert((s * s) / s == s);
    assert(fmul(s, s) == s);
    assert(pow5_s(sat64(s - 0)) == s);
    lemma_schlick_r0_fraction(ri);
    let q = fquot(sat64(s - ri), sat64(s + ri));
    let r0 = fmul(q, q);
    lemma_fmul_one(sat64(s - r0));
    assert(sat64(s - r0) == s - r0);
    assert(reflectance_s(0, ri) == sat64(r0 + (s - r0)));
}

/// Schlick's reflectance for a dielectric boundary.
pub fn reflectance(cosine: Fx, refraction_index: Fx) -> (r: Fx)
    requires
        refraction_index@ > -(FX_ONE as int),
    ensures
        r@ == reflectance_s(cosine@, refraction_index@),
        cosine@ == 0 && refraction_index@ >= 0 ==> r@ == FX_ONE as int,
{
    proof {
        if cosine@ == 0 && refraction_index@ >= 0 {
            lemma_reflectance_at_grazing(refraction_index@);
        }
    }
    let one: Fx = Fx::one();
    let num: Fx = one.sub(refraction_index);
    let den: Fx = one.add(refraction_index);
    let q: Fx = num.div(den);
    let r0: Fx = q.mul(q);
    let t: Fx = one.sub(cosine);
    let p5: Fx = t.mul(t).mul(t).mul(t).mul(t);
    r0.add(one.sub(r0).mul(p5))
}

} // verus!
