use vstd::prelude::*;

use crate::fixed::{
    fdiv, fmul, isqrt_s, lemma_fmul_bound, lemma_fmul_le_one, lemma_fmul_one, lemma_fmul_sign,
    lemma_fmul_zero, lemma_tdiv_bound, tdiv, Fixed,
};
use crate::hittable::HitRecord;
use crate::hittable_list::{list_hit_s, HittableList};
use crate::materials::{color_wf, mat_attenuation_s, Material};
use crate::ray::{ray_wf, Ray};
use crate::utils;
use crate::vec3::{
    bounded3, lemma_unit_bounded, lemma_wide_dot_self, unit_s, v3, vadd3, vmul3, vscale3,
    wide_dot, Color, Vec3,
};

verus! {

/// The lower end of the parameter interval a bounce accepts: just above
/// 0.001, so that a scattered ray cannot strike its own origin through
/// rounding (shadow acne).
pub const T_MIN_BOUNCE: i64 = 66;

/// The upper end of the parameter interval: the fixed-point stand-in for
/// infinity, about a million units down the ray.
pub const T_FAR: i64 = 0x1000000000;

/// The blend factor of the sky gradient: half of the unit direction's
/// y-component plus one, forced into [0, 1] (with exact arithmetic it
/// already lies there).
pub open spec fn sky_blend_s(rd: (int, int, int)) -> int {
    let t = fmul(32768, unit_s(rd).1 + 65536);
    if t < 0 {
        0
    } else if t > 65536 {
        65536
    } else {
        t
    }
}

/// The background: white blended toward sky-blue as the unit direction
/// points upward.
pub open spec fn sky_color_s(rd: (int, int, int)) -> (int, int, int) {
    let t = sky_blend_s(rd);
    vadd3(
        vscale3((65536int, 65536int, 65536int), 65536 - t),
        vscale3((32768int, 45875int, 65536int), t),
    )
}

/// Whether a ray is one the tracer can follow: bounded origin and
/// direction, and a direction long enough to normalize.
fn ray_ok(r: &Ray) -> (b: bool)
    ensures
        b == ray_wf(*r),
{
    if r.origin.x.raw > 0x8000000 || r.origin.x.raw < -0x8000000 || r.origin.y.raw > 0x8000000
        || r.origin.y.raw < -0x8000000 || r.origin.z.raw > 0x8000000 || r.origin.z.raw
        < -0x8000000 {
        return false;
    }
    if r.direction.x.raw > 0x2000000 || r.direction.x.raw < -0x2000000 || r.direction.y.raw
        > 0x2000000 || r.direction.y.raw < -0x2000000 || r.direction.z.raw > 0x2000000
        || r.direction.z.raw < -0x2000000 {
        return false;
    }
    let ls = r.direction.length_squared();
    proof {
        let rd = v3(r.direction);
        lemma_wide_dot_self(rd);
        assert(tdiv(wide_dot(rd, rd), 65536) >= 1 ==> wide_dot(rd, rd) >= 65536)
            by (nonlinear_arith)
            requires
                wide_dot(rd, rd) >= 0;
        assert(wide_dot(rd, rd) >= 65536 ==> tdiv(wide_dot(rd, rd), 65536) >= 1)
            by (nonlinear_arith);
    }
    ls.raw >= 1
}

/// The sky gradient for a ray that misses everything.
fn sky_color(r: &Ray) -> (c: Color)
    requires
        ray_wf(*r),
    ensures
        v3(c) == sky_color_s(v3(r.direction)),
        color_wf(v3(c)),
{
    proof {
        lemma_unit_bounded(v3(r.direction));
    }
    let unit_direction = r.direction.unit();
    proof {
        lemma_fmul_bound(32768, unit_direction.y.val() + 65536, 32768, 0x30000);
        lemma_fmul_sign(32768, unit_direction.y.val() + 65536);
    }
    let t_raw = Fixed { raw: 32768 }.mul(unit_direction.y.add(Fixed { raw: 65536 }));
    let t = utils::clamp(t_raw, Fixed { raw: 0 }, Fixed { raw: 65536 });
    proof {
        lemma_fmul_one(65536 - t.val());
        lemma_fmul_bound(32768, t.val(), 65536, 65536);
        lemma_fmul_bound(45875, t.val(), 65536, 65536);
        lemma_fmul_one(t.val());
        lemma_fmul_sign(32768, t.val());
        lemma_fmul_sign(45875, t.val());
        lemma_fmul_sign(65536, t.val());
        lemma_fmul_le_one(32768, t.val());
        lemma_fmul_le_one(45875, t.val());
        lemma_fmul_le_one(65536, t.val());
    }
    let white_part = Vec3::ones().scale(Fixed { raw: 65536 }.sub(t));
    let sky_part = Vec3::new(
        Fixed { raw: 32768 },
        Fixed { raw: 45875 },
        Fixed { raw: 65536 },
    ).scale(t);
    white_part.add(sky_part)
}

/// Whether the record's normal is small enough for the scattering
/// arithmetic; a sound intersection always leaves a roughly unit normal.
fn rec_normal_small(rec: &HitRecord) -> (b: bool)
    ensures
        b == bounded3(v3(rec.normal), 0x20000),
{
    rec.normal.x.raw <= 0x20000 && rec.normal.x.raw >= -0x20000 && rec.normal.y.raw <= 0x20000
        && rec.normal.y.raw >= -0x20000 && rec.normal.z.raw <= 0x20000 && rec.normal.z.raw
        >= -0x20000
}

/// The color gathered along a ray: black once the bounce budget is spent;
/// the sky gradient on a miss; on a hit, the material's attenuation
/// multiplied componentwise into the scattered ray's own color, or black
/// when the material absorbs the ray. A ray or a normal outside the
/// tracer's numeric range contributes black.
pub fn ray_color(r: &Ray, world: &HittableList, depth: i32) -> (c: Color)
    requires
        world.wf(),
    ensures
        depth <= 0 ==> v3(c) == (0int, 0int, 0int),
        color_wf(v3(c)),
        (depth > 0 && ray_wf(*r) && list_hit_s(
            world.objects@,
            v3(r.origin),
            v3(r.direction),
            66,
            0x1000000000,
        ) is None) ==> v3(c) == sky_color_s(v3(r.direction)),
        (depth > 0 && ray_wf(*r)) ==> (list_hit_s(
            world.objects@,
            v3(r.origin),
            v3(r.direction),
            66,
            0x1000000000,
        ) matches Some(jt) && world.objects@[jt.0].material is None ==> v3(c) == (
            0int,
            0int,
            0int,
        )),
        (depth > 0 && ray_wf(*r)) ==> (list_hit_s(
            world.objects@,
            v3(r.origin),
            v3(r.direction),
            66,
            0x1000000000,
        ) matches Some(jt) ==> (world.objects@[jt.0].material matches Some(m) ==> (v3(c) == (
            0int,
            0int,
            0int,
        ) || (exists|bounce: (int, int, int)|
            color_wf(bounce) && v3(c) == #[trigger] vmul3(mat_attenuation_s(m), bounce))))),
    decreases depth,
{
    if depth <= 0 {
        return Vec3::zero();
    }
    if !ray_ok(r) {
        return Vec3::zero();
    }
    let mut rec = HitRecord::new();
    if world.hit(r, Fixed { raw: T_MIN_BOUNCE }, Fixed { raw: T_FAR }, &mut rec) {
        if let Some(mat) = rec.material {
            proof {
                let jt = list_hit_s(
                    world.objects@,
                    v3(r.origin),
                    v3(r.direction),
                    66,
                    0x1000000000,
                ).unwrap();
                assert(world.objects@[jt.0].wf());
            }
            if rec_normal_small(&rec) {
                let mut attenuation = Vec3::zero();
                let mut scattered = Ray::new(Vec3::zero(), Vec3::zero());
                if mat.scatter(r, &rec, &mut attenuation, &mut scattered) {
                    let bounced = ray_color(&scattered, world, depth - 1);
                    proof {
                        let av = v3(attenuation);
                        let bv = v3(bounced);
                        lemma_fmul_bound(av.0, bv.0, 65536, 65536);
                        lemma_fmul_bound(av.1, bv.1, 65536, 65536);
                        lemma_fmul_bound(av.2, bv.2, 65536, 65536);
                        lemma_fmul_sign(av.0, bv.0);
                        lemma_fmul_sign(av.1, bv.1);
                        lemma_fmul_sign(av.2, bv.2);
                        assert(v3(attenuation) == mat_attenuation_s(mat)) by {
                            match mat {
                                Material::Lambertian(_) => {},
                                Material::Metal(_) => {},
                                Material::Dielectric(_) => {},
                            }
                        }
                    }
                    let shaded = attenuation.mul(bounced);
                    proof {
                        assert(color_wf(v3(bounced)) && v3(shaded) == vmul3(
                            mat_attenuation_s(mat),
                            v3(bounced),
                        ));
                    }
                    return shaded;
                }
            }
            return Vec3::zero();
        }
        return Vec3::zero();
    }
    sky_color(r)
}

/// One display channel: the accumulated channel averaged over the samples,
/// gamma-corrected by a square root, clamped below 0.999 and quantized to
/// eight bits.
pub open spec fn px_channel_s(x: int, n: int) -> int {
    let avg = fdiv(x, n * 65536);
    let g = isqrt_s(avg * 65536);
    let cl = if g < 0 {
        0
    } else if g > 65470 {
        65470
    } else {
        g
    };
    cl / 256
}

/// The three 8-bit display values of an accumulated pixel: each channel is
/// averaged, gamma-corrected, clamped and quantized. Every result lies in
/// [0, 255].
pub fn pixel_channels(pixel: &Color, samples_per_pixel: i32) -> (rgb: (i32, i32, i32))
    requires
        samples_per_pixel >= 1,
        0 <= v3(*pixel).0 <= samples_per_pixel * 65536,
        0 <= v3(*pixel).1 <= samples_per_pixel * 65536,
        0 <= v3(*pixel).2 <= samples_per_pixel * 65536,
    ensures
        rgb.0 == px_channel_s(v3(*pixel).0, samples_per_pixel as int),
        rgb.1 == px_channel_s(v3(*pixel).1, samples_per_pixel as int),
        rgb.2 == px_channel_s(v3(*pixel).2, samples_per_pixel as int),
        0 <= rgb.0 <= 255 && 0 <= rgb.1 <= 255 && 0 <= rgb.2 <= 255,
{
    let n = Fixed::from_int(samples_per_pixel);
    let r = channel(pixel.x, n);
    let g = channel(pixel.y, n);
    let b = channel(pixel.z, n);
    (r, g, b)
}

/// One channel of `pixel_channels`.
fn channel(x: Fixed, n: Fixed) -> (v: i32)
    requires
        n.val() >= 65536,
        n.val() % 65536 == 0,
        0 <= x.val() <= n.val(),
    ensures
        v == px_channel_s(x.val(), n.val() / 65536),
        0 <= v <= 255,
{
    proof {
        lemma_tdiv_bound(x.val() * 65536, n.val(), x.val() * 65536);
        assert(n.val() / 65536 * 65536 == n.val());
        assert(tdiv(x.val() * 65536, n.val()) <= 65536 && tdiv(x.val() * 65536, n.val()) >= 0)
            by (nonlinear_arith)
            requires
                0 <= x.val() <= n.val(),
                n.val() >= 65536;
    }
    let avg = x.div(n);
    let g = avg.sqrt();
    proof {
        crate::fixed::lemma_isqrt_exists(avg.val() * 65536);
        assert(crate::fixed::is_isqrt(avg.val() * 65536, g.val()));
        assert(g.val() <= 65536) by (nonlinear_arith)
            requires
                crate::fixed::is_isqrt(avg.val() * 65536, g.val()),
                avg.val() <= 65536;
    }
    let cl = utils::clamp(g, Fixed { raw: 0 }, Fixed { raw: 65470 });
    (((cl.raw as u64) / 256) as i32)
}

/// At the gradient's ends the sky takes its pure colors: a unit direction
/// pointing straight up gives exactly sky-blue, one pointing straight down
/// gives exactly white.
pub proof fn lemma_sky_endpoints(rd: (int, int, int))
    ensures
        unit_s(rd).1 == 65536 ==> sky_color_s(rd) == (32768int, 45875int, 65536int),
        unit_s(rd).1 == -65536 ==> sky_color_s(rd) == (65536int, 65536int, 65536int),
{
    if unit_s(rd).1 == 65536 {
        assert(fmul(32768, 131072) == 65536) by (nonlinear_arith);
        lemma_fmul_zero(65536);
        lemma_fmul_one(32768);
        lemma_fmul_one(45875);
        lemma_fmul_one(65536);
    }
    if unit_s(rd).1 == -65536 {
        lemma_fmul_zero(32768);
        lemma_fmul_zero(45875);
        lemma_fmul_zero(65536);
        lemma_fmul_one(65536);
    }
}

} // verus!
