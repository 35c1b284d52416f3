//! The pinhole camera: viewport geometry derived once from the
//! configuration, jittered per-pixel sample rays, the recursive shading
//! function, and the scanline loop that emits the plain-text image.
//!
//! The tangent of half the vertical field of view arrives precomputed: it is
//! the one transcendental quantity of the model, and the scene builder
//! supplies it alongside the rest of the configuration.

use vstd::prelude::*;
use crate::color::{write_color, is_color_line, color_line_s, dec_s, push_dec};
use crate::fx::{Fx, FX_ONE, sat64, fmul, fquot, lemma_fmul_scaled};
use crate::hittable::{HittableList, nearest_root_s, sphere_record_s};
use crate::interval::Interval;
use crate::ray::{Ray, RayV};
use crate::sphere::sphere_root_s;
use crate::vec3::{
    Vec3, V3, v3_add, v3_sub, v3_neg, v3_scale, v3_quot, v3_mul, cross_s, len_sq_s, len_s, unit_s,
};

verus! {

/// The lower intersection bound: about a thousandth of a unit, enough to
/// keep a bounced ray from striking its own surface again.
pub const EPS_RAW: i64 = 64;

/// Black: the colour of an exhausted or absorbed ray.
pub open spec fn black_v() -> V3 {
    V3 { x: 0, y: 0, z: 0 }
}

/// White, the top of the sky gradient.
pub open spec fn white_v() -> V3 {
    V3 { x: FX_ONE as int, y: FX_ONE as int, z: FX_ONE as int }
}

/// Sky blue, the bottom of the sky gradient.
pub open spec fn blue_v() -> V3 {
    V3 { x: 32768, y: 45875, z: FX_ONE as int }
}

/// The sky gradient for a miss: blend white into blue by the height of the
/// normalised direction.  The blend weight is clamped into zero through one
/// to absorb normalisation rounding.
pub open spec fn sky_s(d: V3) -> V3 {
    let a0 = fmul(sat64(unit_s(d).y + FX_ONE as int), 32768);
    let a = if a0 < 0 {
        0int
    } else if a0 > FX_ONE as int {
        FX_ONE as int
    } else {
        a0
    };
    v3_add(v3_scale(white_v(), sat64(FX_ONE as int - a)), v3_scale(blue_v(), a))
}

/// The derived image height: width over aspect ratio, floored, at least one.
pub open spec fn cam_height_s(width: int, aspect: int) -> int {
    let h = fquot(sat64(width * (FX_ONE as int)), aspect);
    if h <= FX_ONE as int {
        1
    } else {
        h / (FX_ONE as int)
    }
}

/// The per-pixel sample weight `1 / samples_per_pixel`.
pub open spec fn cam_scale_s(samples: int) -> int {
    fquot(FX_ONE as int, sat64(samples * (FX_ONE as int)))
}

/// The focal length: the distance from the eye to the target point.
pub open spec fn cam_focal_s(lookfrom: V3, lookat: V3) -> int {
    len_s(v3_sub(lookfrom, lookat))
}

/// The basis vector pointing from the target back at the eye.
pub open spec fn cam_w_s(lookfrom: V3, lookat: V3) -> V3 {
    unit_s(v3_sub(lookfrom, lookat))
}

/// The basis vector pointing right across the viewport.
pub open spec fn cam_u_s(lookfrom: V3, lookat: V3, vup: V3) -> V3 {
    unit_s(cross_s(vup, cam_w_s(lookfrom, lookat)))
}

/// The basis vector pointing up the viewport.
pub open spec fn cam_v_s(lookfrom: V3, lookat: V3, vup: V3) -> V3 {
    cross_s(cam_w_s(lookfrom, lookat), cam_u_s(lookfrom, lookat, vup))
}

/// The viewport height: twice the half-field tangent times the focal length.
pub open spec fn cam_vh_s(tan_half_vfov: int, lookfrom: V3, lookat: V3) -> int {
    fmul(fmul(2 * FX_ONE as int, tan_half_vfov), cam_focal_s(lookfrom, lookat))
}

/// The viewport width: the height scaled by the realised aspect ratio.
pub open spec fn cam_vw_s(
    tan_half_vfov: int,
    lookfrom: V3,
    lookat: V3,
    width: int,
    aspect: int,
) -> int {
    fmul(
        cam_vh_s(tan_half_vfov, lookfrom, lookat),
        fquot(sat64(width * (FX_ONE as int)), sat64(cam_height_s(width, aspect) * (FX_ONE as int))),
    )
}

/// The vector spanning the viewport's top edge.
pub open spec fn cam_viewport_u_s(
    tan_half_vfov: int,
    lookfrom: V3,
    lookat: V3,
    vup: V3,
    width: int,
    aspect: int,
) -> V3 {
    v3_scale(cam_u_s(lookfrom, lookat, vup), cam_vw_s(tan_half_vfov, lookfrom, lookat, width, aspect))
}

/// The vector spanning the viewport's left edge, downward.
pub open spec fn cam_viewport_v_s(
    tan_half_vfov: int,
    lookfrom: V3,
    lookat: V3,
    vup: V3,
) -> V3 {
    v3_scale(v3_neg(cam_v_s(lookfrom, lookat, vup)), cam_vh_s(tan_half_vfov, lookfrom, lookat))
}

/// The step from one pixel to the next along a row.
pub open spec fn cam_pdu_s(
    tan_half_vfov: int,
    lookfrom: V3,
    lookat: V3,
    vup: V3,
    width: int,
    aspect: int,
) -> V3 {
    v3_quot(
        cam_viewport_u_s(tan_half_vfov, lookfrom, lookat, vup, width, aspect),
        sat64(width * (FX_ONE as int)),
    )
}

/// The step from one row to the next.
pub open spec fn cam_pdv_s(
    tan_half_vfov: int,
    lookfrom: V3,
    lookat: V3,
    vup: V3,
    width: int,
    aspect: int,
) -> V3 {
    v3_quot(
        cam_viewport_v_s(tan_half_vfov, lookfrom, lookat, vup),
        sat64(cam_height_s(width, aspect) * (FX_ONE as int)),
    )
}

/// The centre of the top-left pixel: the viewport's upper-left corner plus
/// half a pixel step each way.
pub open spec fn cam_pixel00_s(
    tan_half_vfov: int,
    lookfrom: V3,
    lookat: V3,
    vup: V3,
    width: int,
    aspect: int,
) -> V3 {
    let upper_left = v3_sub(
        v3_sub(
            v3_sub(
                lookfrom,
                v3_scale(cam_w_s(lookfrom, lookat), cam_focal_s(lookfrom, lookat)),
            ),
            v3_quot(
                cam_viewport_u_s(tan_half_vfov, lookfrom, lookat, vup, width, aspect),
                2 * FX_ONE as int,
            ),
        ),
        v3_quot(cam_viewport_v_s(tan_half_vfov, lookfrom, lookat, vup), 2 * FX_ONE as int),
    );
    v3_add(
        upper_left,
        v3_scale(
            v3_add(
                cam_pdu_s(tan_half_vfov, lookfrom, lookat, vup, width, aspect),
                cam_pdv_s(tan_half_vfov, lookfrom, lookat, vup, width, aspect),
            ),
            32768,
        ),
    )
}

/// The header of the plain-text image: `P3`, the dimensions, the maximum
/// channel value.
pub open spec fn ppm_header_s(w: int, h: int) -> Seq<u8> {
    seq![80u8, 51u8, 10u8] + dec_s(w) + seq![32u8] + dec_s(h) + seq![10u8, 50u8, 53u8, 53u8, 10u8]
}

/// The pinhole camera: configuration and the viewport geometry derived from
/// it at construction.
pub struct Camera {
    pub aspect_ratio: Fx,
    pub image_width: u64,
    pub samples_per_pixel: u64,
    pub max_depth: u32,
    pub tan_half_vfov: Fx,
    pub lookfrom: Vec3,
    pub lookat: Vec3,
    pub vup: Vec3,
    pub image_height: u64,
    pub pixel_samples_scale: Fx,
    pub center: Vec3,
    pub pixel00_loc: Vec3,
    pub pixel_delta_u: Vec3,
    pub pixel_delta_v: Vec3,
}

impl Camera {
    /// Derive the viewport geometry once.  The eye and target must be
    /// distinct and the up vector must not be parallel to the view
    /// direction, each by at least one fractional step, or no orthonormal
    /// basis exists; the width and sample count fit comfortably in range.
    pub fn new(
        aspect_ratio: Fx,
        image_width: u64,
        samples_per_pixel: u64,
        max_depth: u32,
        tan_half_vfov: Fx,
        lookfrom: Vec3,
        lookat: Vec3,
        vup: Vec3,
    ) -> (cam: Camera)
        requires
            aspect_ratio@ > 0,
            1 <= image_width <= 0x7fff_ffff,
            1 <= samples_per_pixel <= 0x7fff_ffff,
            len_sq_s(v3_sub(lookfrom@, lookat@)) >= 1,
            len_sq_s(cross_s(vup@, cam_w_s(lookfrom@, lookat@))) >= 1,
        ensures
            cam.aspect_ratio == aspect_ratio,
            cam.image_width == image_width,
            cam.samples_per_pixel == samples_per_pixel,
            cam.max_depth == max_depth,
            cam.tan_half_vfov == tan_half_vfov,
            cam.lookfrom == lookfrom,
            cam.lookat == lookat,
            cam.vup == vup,
            cam.image_height as int == cam_height_s(image_width as int, aspect_ratio@),
            1 <= cam.image_height <= 0x7fff_ffff_ffff,
            cam.pixel_samples_scale@ == cam_scale_s(samples_per_pixel as int),
            cam.center@ == lookfrom@,
            cam.pixel00_loc@ == cam_pixel00_s(
                tan_half_vfov@,
                lookfrom@,
                lookat@,
                vup@,
                image_width as int,
                aspect_ratio@,
            ),
            cam.pixel_delta_u@ == cam_pdu_s(
                tan_half_vfov@,
                lookfrom@,
                lookat@,
                vup@,
                image_width as int,
                aspect_ratio@,
            ),
            cam.pixel_delta_v@ == cam_pdv_s(
                tan_half_vfov@,
                lookfrom@,
                lookat@,
                vup@,
                image_width as int,
                aspect_ratio@,
            ),
    {
        let width_fx: Fx = Fx::from_int(image_width as i64);
        let height_fx_q: Fx = width_fx.div(aspect_ratio);
        let image_height: u64 = if height_fx_q.raw <= FX_ONE {
            1u64
        } else {
            proof {
                vstd::arithmetic::div_mod::lemma_div_is_ordered(
                    height_fx_q.raw as int,
                    i64::MAX as int,
                    FX_ONE as int,
                );
                vstd::arithmetic::div_mod::lemma_div_pos_is_pos(
                    height_fx_q.raw as int,
                    FX_ONE as int,
                );
            }
            (height_fx_q.raw as u64) / 65536
        };

        let pixel_samples_scale: Fx = Fx::one().div(Fx::from_int(samples_per_pixel as i64));

        let gaze: Vec3 = lookfrom.sub(lookat);
        let focal_length: Fx = gaze.len();
        let viewport_height: Fx = Fx::from_raw(2 * FX_ONE).mul(tan_half_vfov).mul(focal_length);
        let height_whole: Fx = Fx::from_int(image_height as i64);
        let viewport_width: Fx = viewport_height.mul(width_fx.div(height_whole));
        let center: Vec3 = lookfrom;

        let w: Vec3 = gaze.unit_vector();
        let u: Vec3 = vup.cross(&w).unit_vector();
        let v: Vec3 = w.cross(&u);

        let viewport_u: Vec3 = u.scale(viewport_width);
        let viewport_v: Vec3 = v.neg().scale(viewport_height);

        let pixel_delta_u: Vec3 = viewport_u.divide(width_fx);
        let pixel_delta_v: Vec3 = viewport_v.divide(height_whole);

        let two: Fx = Fx::from_raw(2 * FX_ONE);
        let viewport_upper_left: Vec3 = center.sub(w.scale(focal_length)).sub(
            viewport_u.divide(two),
        ).sub(viewport_v.divide(two));
        let pixel00_loc: Vec3 = viewport_upper_left.add(
            pixel_delta_u.add(pixel_delta_v).scale(Fx::from_raw(32768)),
        );

        Camera {
            aspect_ratio,
            image_width,
            samples_per_pixel,
            max_depth,
            tan_half_vfov,
            lookfrom,
            lookat,
            vup,
            image_height,
            pixel_samples_scale,
            center,
            pixel00_loc,
            pixel_delta_u,
            pixel_delta_v,
        }
    }

    /// The ray for one sample of pixel `(i, j)`: from the eye through the
    /// pixel centre jittered by a uniform offset in `[-1/2, 1/2)` each way.
    pub fn get_ray(&self, i: i64, j: i64) -> (r: Ray)
        ensures
            exists|ox: int, oy: int|
                -32768 <= ox < 32768 && -32768 <= oy < 32768 && r@ == #[trigger] get_ray_s(
                    *self,
                    i as int,
                    j as int,
                    ox,
                    oy,
                ),
    {
        let offset: Vec3 = self.sample_square();
        let pixel_center: Vec3 = self.pixel00_loc.add(
            self.pixel_delta_u.scale(Fx::from_int(i).add(offset.x())),
        ).add(self.pixel_delta_v.scale(Fx::from_int(j).add(offset.y())));
        let ray_direction: Vec3 = pixel_center.sub(self.center);
        let r: Ray = Ray::new(self.center, ray_direction);
        proof {
            assert(-32768 <= offset@.x < 32768 && -32768 <= offset@.y < 32768 && r@
                == get_ray_s(*self, i as int, j as int, offset@.x, offset@.y));
        }
        r
    }

    /// A uniform jitter in `[-1/2, 1/2)` across the pixel square.
    fn sample_square(&self) -> (r: Vec3)
        ensures
            -32768 <= r@.x < 32768,
            -32768 <= r@.y < 32768,
            r@.z == 0,
    {
        let x: Fx = Fx::from_raw(crate::rng::random_raw_in(-32768, 32768));
        let y: Fx = Fx::from_raw(crate::rng::random_raw_in(-32768, 32768));
        Vec3::new(x, y, Fx::zero())
    }

    /// What a ray contributes: black once the recursion budget is spent or
    /// the direction degenerates, the attenuated contribution of the
    /// scattered ray on a hit, and the sky gradient on a miss.  Every
    /// channel stays a fraction of full brightness.
    pub fn ray_color(&self, r: &Ray, depth: u32, world: &HittableList) -> (c: Vec3)
        requires
            world.wf(),
        ensures
            0 <= c@.x <= FX_ONE as int,
            0 <= c@.y <= FX_ONE as int,
            0 <= c@.z <= FX_ONE as int,
            depth == 0 ==> c@ == black_v(),
            depth > 0 && len_sq_s(r@.direction) >= 1 && nearest_root_s(
                world.objects@,
                r@,
                EPS_RAW as int,
                i64::MAX as int,
            ) is None ==> c@ == sky_s(r@.direction),
            depth > 0 && len_sq_s(r@.direction) >= 1 && nearest_root_s(
                world.objects@,
                r@,
                EPS_RAW as int,
                i64::MAX as int,
            ) is Some ==> exists|j: int, b: V3|
                {
                    &&& 0 <= j < world.objects@.len()
                    &&& sphere_root_s(world.objects@[j]@, r@, EPS_RAW as int, i64::MAX as int)
                        == nearest_root_s(world.objects@, r@, EPS_RAW as int, i64::MAX as int)
                    &&& 0 <= b.x <= FX_ONE as int
                    &&& 0 <= b.y <= FX_ONE as int
                    &&& 0 <= b.z <= FX_ONE as int
                    &&& c@ == #[trigger] v3_mul(
                        crate::material::material_attenuation_s(world.objects@[j].mat),
                        b,
                    )
                },
        decreases depth,
    {
        if depth == 0 {
            return Vec3::new(Fx::zero(), Fx::zero(), Fx::zero());
        }
        if r.direction.len_squared().raw < 1 {
            // A direction below one fractional step cannot be normalised;
            // such a ray is treated as absorbed.
            return Vec3::new(Fx::zero(), Fx::zero(), Fx::zero());
        }
        let window: Interval = Interval::new(Fx::from_raw(EPS_RAW), Fx::from_raw(i64::MAX));
        match world.hit(r, window) {
            Some(rec) => {
                proof {
                    let jj = choose|j: int|
                        0 <= j < world.objects@.len() && sphere_root_s(
                            #[trigger] world.objects@[j]@,
                            r@,
                            window.min@,
                            window.max@,
                        ) == Some(rec@.t) && rec@ == sphere_record_s(world.objects@[j], r@, rec@.t);
                    assert(world.objects@[jj].wf());
                }
                let result: crate::material::ScatterResult = rec.mat.scatter(r, &rec);
                if result.is_scattered {
                    let bounced: Vec3 = self.ray_color(&result.scattered, depth - 1, world);
                    let out: Vec3 = result.attenuation.mul(bounced);
                    proof {
                        lemma_fmul_scaled(result.attenuation@.x, bounced@.x);
                        lemma_fmul_scaled(result.attenuation@.y, bounced@.y);
                        lemma_fmul_scaled(result.attenuation@.z, bounced@.z);
                        let jj = choose|j: int|
                            0 <= j < world.objects@.len() && sphere_root_s(
                                #[trigger] world.objects@[j]@,
                                r@,
                                window.min@,
                                window.max@,
                            ) == Some(rec@.t) && rec@ == sphere_record_s(
                                world.objects@[j],
                                r@,
                                rec@.t,
                            );
                        assert(rec.mat == world.objects@[jj].mat);
                        assert(out@ == v3_mul(
                            crate::material::material_attenuation_s(world.objects@[jj].mat),
                            bounced@,
                        ));
                    }
                    return out;
                }
                Vec3::new(Fx::zero(), Fx::zero(), Fx::zero())
            },
            None => {
                let unit_direction: Vec3 = r.direction.unit_vector();
                let a0: Fx = unit_direction.y().add(Fx::one()).mul(Fx::from_raw(32768));
                let a: Fx = Interval::new(Fx::zero(), Fx::one()).clamp(a0);
                let white: Vec3 = Vec3::new(Fx::one(), Fx::one(), Fx::one());
                let blue: Vec3 = Vec3::new(Fx::from_raw(32768), Fx::from_raw(45875), Fx::one());
                let out: Vec3 = white.scale(Fx::one().sub(a)).add(blue.scale(a));
                proof {
                    lemma_fmul_scaled(white_v().x, sat64(FX_ONE as int - a@));
                    lemma_fmul_scaled(white_v().y, sat64(FX_ONE as int - a@));
                    lemma_fmul_scaled(white_v().z, sat64(FX_ONE as int - a@));
                    lemma_fmul_scaled(blue_v().x, a@);
                    lemma_fmul_scaled(blue_v().y, a@);
                    lemma_fmul_scaled(blue_v().z, a@);
                }
                out
            },
        }
    }

    /// Render the scene: for every pixel of every scanline, average the
    /// sample contributions and emit one line of three channel bytes.  The
    /// output is the image header followed by exactly `height * width`
    /// pixel lines.
    pub fn render(&self, world: &HittableList) -> (out: Vec<u8>)
        requires
            world.wf(),
            1 <= self.image_width <= 0x7fff_ffff,
            1 <= self.image_height <= 0x7fff_ffff_ffff,
            0 <= self.pixel_samples_scale@,
        ensures
            exists|lines: Seq<Seq<u8>>|
                {
                    &&& out@ == ppm_header_s(self.image_width as int, self.image_height as int)
                        + #[trigger] lines.flatten()
                    &&& lines.len() == self.image_height * self.image_width
                    &&& forall|k: int| 0 <= k < lines.len() ==> is_color_line(#[trigger] lines[k])
                    &&& forall|k: int|
                        0 <= k < lines.len() ==> exists|cv: V3|
                            0 <= cv.x && 0 <= cv.y && 0 <= cv.z && #[trigger] lines[k]
                                == #[trigger] color_line_s(cv)
                },
    {
        let mut out: Vec<u8> = Vec::new();
        out.push(80);
        out.push(51);
        out.push(10);
        push_dec(&mut out, self.image_width);
        out.push(32);
        push_dec(&mut out, self.image_height);
        out.push(10);
        out.push(50);
        out.push(53);
        out.push(53);
        out.push(10);
        proof {
            assert(out@ =~= ppm_header_s(self.image_width as int, self.image_height as int));
        }
        let ghost hdr: Seq<u8> = out@;
        let ghost mut lines: Seq<Seq<u8>> = Seq::empty();
        let mut j: u64 = 0;
        while j < self.image_height
            invariant
                world.wf(),
                self.image_width <= 0x7fff_ffff,
                self.image_height <= 0x7fff_ffff_ffff,
                0 <= self.pixel_samples_scale@,
                j <= self.image_height,
                lines.len() == j * self.image_width,
                forall|k: int| 0 <= k < lines.len() ==> is_color_line(#[trigger] lines[k]),
                forall|k: int|
                    0 <= k < lines.len() ==> exists|cv: V3|
                        0 <= cv.x && 0 <= cv.y && 0 <= cv.z && #[trigger] lines[k]
                            == #[trigger] color_line_s(cv),
                out@ == hdr + lines.flatten(),
            decreases self.image_height - j,
        {
            let mut i: u64 = 0;
            while i < self.image_width
                invariant
                    world.wf(),
                    self.image_width <= 0x7fff_ffff,
                    self.image_height <= 0x7fff_ffff_ffff,
                    0 <= self.pixel_samples_scale@,
                    j < self.image_height,
                    i <= self.image_width,
                    lines.len() == j * self.image_width + i,
                    forall|k: int| 0 <= k < lines.len() ==> is_color_line(#[trigger] lines[k]),
                    forall|k: int|
                        0 <= k < lines.len() ==> exists|cv: V3|
                            0 <= cv.x && 0 <= cv.y && 0 <= cv.z && #[trigger] lines[k]
                                == #[trigger] color_line_s(cv),
                    out@ == hdr + lines.flatten(),
                decreases self.image_width - i,
            {
                let mut pixel_color: Vec3 = Vec3::new(Fx::zero(), Fx::zero(), Fx::zero());
                let mut s: u64 = 0;
                while s < self.samples_per_pixel
                    invariant
                        world.wf(),
                        i <= 0x7fff_ffff,
                        j <= 0x7fff_ffff_ffff,
                        0 <= pixel_color@.x,
                        0 <= pixel_color@.y,
                        0 <= pixel_color@.z,
                    decreases self.samples_per_pixel - s,
                {
                    let ray: Ray = self.get_ray(i as i64, j as i64);
                    let sample: Vec3 = self.ray_color(&ray, self.max_depth, world);
                    pixel_color = pixel_color.add(sample);
                    s = s + 1;
                }
                let scaled: Vec3 = pixel_color.scale(self.pixel_samples_scale);
                write_color(&mut out, scaled);
                proof {
                    crate::fx::lemma_fmul_nonneg(pixel_color@.x, self.pixel_samples_scale@);
                    crate::fx::lemma_fmul_nonneg(pixel_color@.y, self.pixel_samples_scale@);
                    crate::fx::lemma_fmul_nonneg(pixel_color@.z, self.pixel_samples_scale@);
                    assert(0 <= scaled@.x && 0 <= scaled@.y && 0 <= scaled@.z && color_line_s(
                        scaled@,
                    ) == color_line_s(scaled@));
                    let line = color_line_s(scaled@);
                    lines.lemma_flatten_push(line);
                    lines = lines.push(line);
                }
                i = i + 1;
            }
            proof {
                assert((j + 1) * self.image_width == j * self.image_width + self.image_width)
                    by (nonlinear_arith);
            }
            j = j + 1;
        }
        proof {
            assert(lines.len() == self.image_height * self.image_width);
        }
        out
    }
}

/// The sample ray for pixel `(i, j)` under the jitter `(ox, oy)`.
pub open spec fn get_ray_s(cam: Camera, i: int, j: int, ox: int, oy: int) -> RayV {
    let pixel_center = v3_add(
        v3_add(
            cam.pixel00_loc@,
            v3_scale(cam.pixel_delta_u@, sat64(sat64(i * (FX_ONE as int)) + ox)),
        ),
        v3_scale(cam.pixel_delta_v@, sat64(sat64(j * (FX_ONE as int)) + oy)),
    );
    RayV { origin: cam.center@, direction: v3_sub(pixel_center, cam.center@) }
}

} // verus!
