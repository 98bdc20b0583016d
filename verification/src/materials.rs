use vstd::prelude::*;

use crate::fixed::{
    fdiv, fmul, iabs, is_isqrt, isqrt_s, lemma_fmul_bound, lemma_fmul_self_nonneg,
    lemma_fmul_zero, lemma_tdiv_bound, tdiv, Fixed,
};
use crate::hittable::HitRecord;
use crate::ray::Ray;
use crate::utils;
use crate::vec3::{
    bounded3, dot_s, len_sq_s, lemma_unit_bounded, lemma_wide_dot_bound, min_s, reflect_s,
    refract_s, unit_s, v3, vadd3, vneg3, vscale3, wide_dot, Color, Vec3,
};

verus! {

/// A diffuse surface: scatters into a random direction near the normal and
/// attenuates by its albedo.
#[derive(Clone, Copy, Debug)]
pub struct Lambertian {
    pub albedo: Color,
}

/// A reflective surface: mirrors the incoming direction about the normal,
/// blurred by a fuzz radius between 0 and 1.
#[derive(Clone, Copy, Debug)]
pub struct Metal {
    pub albedo: Color,
    pub fuzz: Fixed,
}

/// A refractive surface with the given index of refraction: reflects or
/// refracts, and never absorbs.
#[derive(Clone, Copy, Debug)]
pub struct Dielectric {
    pub ref_idx: Fixed,
}

/// The closed set of scattering behaviours a surface can have.
#[derive(Clone, Copy, Debug)]
pub enum Material {
    Lambertian(Lambertian),
    Metal(Metal),
    Dielectric(Dielectric),
}

/// An RGB color whose channels all lie in [0, 1].
pub open spec fn color_wf(c: (int, int, int)) -> bool {
    &&& 0 <= c.0 <= 65536
    &&& 0 <= c.1 <= 65536
    &&& 0 <= c.2 <= 65536
}

/// The negative part of a scalar cut away.
pub open spec fn max0_s(a: int) -> int {
    if a < 0 {
        0
    } else {
        a
    }
}

/// The effective refractive-index ratio: the reciprocal of the index when
/// the ray enters through the front face, the index itself when it exits.
pub open spec fn eta_ratio_s(ref_idx: int, front_face: bool) -> int {
    if front_face {
        fdiv(65536, ref_idx)
    } else {
        ref_idx
    }
}

/// The cosine of the angle between the reversed unit direction `u` and the
/// normal, capped at 1.
pub open spec fn cos_theta_s(u: (int, int, int), n: (int, int, int)) -> int {
    min_s(dot_s(vneg3(u), n), 65536)
}

/// The sine recovered from the capped cosine; rounding can push the
/// radicand barely below zero, in which case it is treated as zero.
pub open spec fn sin_theta_s(u: (int, int, int), n: (int, int, int)) -> int {
    isqrt_s(max0_s(65536 - fmul(cos_theta_s(u, n), cos_theta_s(u, n))) * 65536)
}

/// The fifth power of a fixed-point scalar, multiplied out left to right.
pub open spec fn pow5_s(c: int) -> int {
    fmul(fmul(fmul(fmul(c, c), c), c), c)
}

/// Schlick's reflectance approximation for the capped cosine and the
/// refractive-index ratio.
pub open spec fn schlick_s(cosine: int, ref_idx: int) -> int {
    let r0 = fdiv(65536 - ref_idx, 65536 + ref_idx);
    let r0sq = fmul(r0, r0);
    r0sq + fmul(65536 - r0sq, pow5_s(65536 - cosine))
}

/// The attenuation each material reports on a scatter: its albedo for the
/// diffuse and reflective kinds, the unit color for glass.
pub open spec fn mat_attenuation_s(m: Material) -> (int, int, int) {
    match m {
        Material::Lambertian(l) => v3(l.albedo),
        Material::Metal(mm) => v3(mm.albedo),
        Material::Dielectric(_) => (65536int, 65536int, 65536int),
    }
}

/// What a dielectric may hand back for an incoming direction `dir_in` and
/// normal `n`: forced reflection past the critical angle; otherwise either
/// the reflection or the refraction, and certainly the refraction when the
/// Schlick reflectance is not positive, since the random draw is
/// nonnegative.
pub open spec fn dielectric_scatter_ok(
    ref_idx: int,
    front_face: bool,
    dir_in: (int, int, int),
    n: (int, int, int),
    dir_out: (int, int, int),
) -> bool {
    let u = unit_s(dir_in);
    let eta = eta_ratio_s(ref_idx, front_face);
    let sin = sin_theta_s(u, n);
    &&& (fmul(eta, sin) > 65536 ==> dir_out == reflect_s(u, n))
    &&& (fmul(eta, sin) <= 65536 ==> (dir_out == reflect_s(u, n) || dir_out == refract_s(
        u,
        n,
        eta,
    )))
    &&& ((fmul(eta, sin) <= 65536 && schlick_s(cos_theta_s(u, n), eta) <= 0) ==> dir_out
        == refract_s(u, n, eta))
}

impl Lambertian {
    /// Always scatters: the new direction is the normal plus a random unit
    /// vector, and the attenuation is the albedo.
    pub fn scatter(
        &self,
        r_in: &Ray,
        rec: &HitRecord,
        attenuation: &mut Color,
        scattered: &mut Ray,
    ) -> (r: bool)
        requires
            bounded3(v3(rec.normal), 0x20000),
        ensures
            r == true,
            *final(attenuation) == self.albedo,
            final(scattered).origin == rec.p,
            bounded3(v3(final(scattered).direction), 0x40000),
            exists|u: (int, int, int)|
                65529 <= len_sq_s(u) <= 65550 && v3(final(scattered).direction) == #[trigger] vadd3(
                    v3(rec.normal),
                    u,
                ),
    {
        let unit_vec = Vec3::random_unit_vector();
        let scatter_direction = rec.normal.add(unit_vec);
        *scattered = Ray::new(rec.p, scatter_direction);
        *attenuation = self.albedo;
        proof {
            assert(65529 <= len_sq_s(v3(unit_vec)) <= 65550 && v3(scattered.direction) == vadd3(
                v3(rec.normal),
                v3(unit_vec),
            ));
        }
        true
    }
}

impl Metal {
    /// Reflects the unit incoming direction about the normal and perturbs it
    /// by a random point of the unit sphere scaled by the fuzz. The scatter
    /// counts only when the result still points out of the surface. With a
    /// fuzz of zero the direction is exactly the geometric reflection.
    pub fn scatter(
        &self,
        r_in: &Ray,
        rec: &HitRecord,
        attenuation: &mut Color,
        scattered: &mut Ray,
    ) -> (r: bool)
        requires
            bounded3(v3(r_in.direction), 0x2000000),
            wide_dot(v3(r_in.direction), v3(r_in.direction)) >= 65536,
            bounded3(v3(rec.normal), 0x20000),
            0 <= self.fuzz.val() <= 65536,
        ensures
            *final(attenuation) == self.albedo,
            final(scattered).origin == rec.p,
            bounded3(v3(final(scattered).direction), 0x500000),
            r == (dot_s(v3(final(scattered).direction), v3(rec.normal)) > 0),
            exists|s2: (int, int, int)|
                bounded3(s2, 65536) && len_sq_s(s2) < 65536 && v3(final(scattered).direction)
                    == #[trigger] vadd3(
                    reflect_s(unit_s(v3(r_in.direction)), v3(rec.normal)),
                    vscale3(s2, self.fuzz.val()),
                ),
            self.fuzz.val() == 0 ==> v3(final(scattered).direction) == reflect_s(
                unit_s(v3(r_in.direction)),
                v3(rec.normal),
            ),
    {
        proof {
            lemma_unit_bounded(v3(r_in.direction));
        }
        let unit_dir = r_in.direction.unit();
        proof {
            lemma_wide_dot_bound(v3(unit_dir), v3(rec.normal), 0x20000);
            lemma_tdiv_bound(
                wide_dot(v3(unit_dir), v3(rec.normal)),
                65536,
                3int * 0x20000 * 0x20000,
            );
            let two_d = 2 * dot_s(v3(unit_dir), v3(rec.normal));
            lemma_fmul_bound(v3(rec.normal).0, two_d, 0x20000, 0x180000);
            lemma_fmul_bound(v3(rec.normal).1, two_d, 0x20000, 0x180000);
            lemma_fmul_bound(v3(rec.normal).2, two_d, 0x20000, 0x180000);
        }
        let reflected = unit_dir.reflect(&rec.normal);
        let sphere_point = Vec3::random_in_unit_sphere();
        proof {
            lemma_fmul_bound(v3(sphere_point).0, self.fuzz.val(), 0x10000, 0x10000);
            lemma_fmul_bound(v3(sphere_point).1, self.fuzz.val(), 0x10000, 0x10000);
            lemma_fmul_bound(v3(sphere_point).2, self.fuzz.val(), 0x10000, 0x10000);
            if self.fuzz.val() == 0 {
                lemma_fmul_zero(v3(sphere_point).0);
                lemma_fmul_zero(v3(sphere_point).1);
                lemma_fmul_zero(v3(sphere_point).2);
            }
        }
        let fuzz_vec = sphere_point.scale(self.fuzz);
        let direction = reflected.add(fuzz_vec);
        *scattered = Ray::new(rec.p, direction);
        *attenuation = self.albedo;
        proof {
            assert(bounded3(v3(sphere_point), 65536) && len_sq_s(v3(sphere_point)) < 65536 && v3(
                scattered.direction,
            ) == vadd3(
                reflect_s(unit_s(v3(r_in.direction)), v3(rec.normal)),
                vscale3(v3(sphere_point), self.fuzz.val()),
            ));
        }
        let alignment = scattered.direction.dot(&rec.normal);
        alignment.raw > 0
    }
}

/// Schlick's reflectance approximation, computed exactly as the
/// specification states it.
fn schlick(cosine: Fixed, ref_idx: Fixed) -> (r: Fixed)
    requires
        -0xC0000 <= cosine.val() <= 65536,
        16384 <= ref_idx.val() <= 0x40000,
    ensures
        r.val() == schlick_s(cosine.val(), ref_idx.val()),
{
    let num = Fixed { raw: 65536 }.sub(ref_idx);
    let den = Fixed { raw: 65536 }.add(ref_idx);
    proof {
        assert(iabs(tdiv(num.val() * 65536, den.val())) <= 157287) by (nonlinear_arith)
            requires
                iabs(num.val()) <= 196608,
                81920 <= den.val() <= 327680;
    }
    let r0 = num.div(den);
    proof {
        lemma_fmul_bound(r0.val(), r0.val(), 157287, 157287);
        lemma_fmul_self_nonneg(r0.val());
    }
    let r0sq = r0.mul(r0);
    let c1 = Fixed { raw: 65536 }.sub(cosine);
    proof {
        // magnitude bookkeeping: |c1| is at most 13 in fixed-point units,
        // so each further factor multiplies the bound by 13
        lemma_fmul_bound(c1.val(), c1.val(), 0xD0000, 0xD0000);
        lemma_fmul_bound(fmul(c1.val(), c1.val()), c1.val(), 0xA90000int, 0xD0000);
        lemma_fmul_bound(
            fmul(fmul(c1.val(), c1.val()), c1.val()),
            c1.val(),
            0xA90000int * 13,
            0xD0000,
        );
        lemma_fmul_bound(
            fmul(fmul(fmul(c1.val(), c1.val()), c1.val()), c1.val()),
            c1.val(),
            0xA90000int * 13 * 13,
            0xD0000,
        );
        lemma_fmul_bound(
            65536 - r0sq.val(),
            pow5_s(c1.val()),
            0x60000,
            0xA90000int * 13 * 13 * 13,
        );
    }
    let e2 = c1.mul(c1);
    let e3 = e2.mul(c1);
    let e4 = e3.mul(c1);
    let e5 = e4.mul(c1);
    let one_minus = Fixed { raw: 65536 }.sub(r0sq);
    r0sq.add(one_minus.mul(e5))
}

impl Dielectric {
    /// Always scatters and never absorbs: past the critical angle the unit
    /// incoming direction is reflected about the normal; otherwise it is
    /// refracted, except that a uniform random draw below the Schlick
    /// reflectance picks the reflection instead.
    pub fn scatter(
        &self,
        r_in: &Ray,
        rec: &HitRecord,
        attenuation: &mut Color,
        scattered: &mut Ray,
    ) -> (r: bool)
        requires
            bounded3(v3(r_in.direction), 0x2000000),
            wide_dot(v3(r_in.direction), v3(r_in.direction)) >= 65536,
            bounded3(v3(rec.normal), 0x20000),
            16384 <= self.ref_idx.val() <= 0x40000,
        ensures
            r == true,
            v3(*final(attenuation)) == (65536int, 65536int, 65536int),
            final(scattered).origin == rec.p,
            bounded3(v3(final(scattered).direction), 0x700000),
            dielectric_scatter_ok(
                self.ref_idx.val(),
                rec.front_face,
                v3(r_in.direction),
                v3(rec.normal),
                v3(final(scattered).direction),
            ),
    {
        *attenuation = Vec3::ones();
        let etai_over_etat = if rec.front_face {
            let e = Fixed { raw: 65536 }.div(self.ref_idx);
            proof {
                assert(16384 <= tdiv(65536int * 65536, self.ref_idx.val()) <= 0x40000)
                    by (nonlinear_arith)
                    requires
                        16384 <= self.ref_idx.val() <= 0x40000;
            }
            e
        } else {
            self.ref_idx
        };
        proof {
            lemma_unit_bounded(v3(r_in.direction));
        }
        let unit_direction = r_in.direction.unit();
        proof {
            lemma_wide_dot_bound(vneg3(v3(unit_direction)), v3(rec.normal), 0x20000);
            lemma_tdiv_bound(
                wide_dot(vneg3(v3(unit_direction)), v3(rec.normal)),
                65536,
                3int * 0x20000 * 0x20000,
            );
        }
        let cos_theta = unit_direction.neg().dot(&rec.normal).min(Fixed { raw: 65536 });
        proof {
            lemma_fmul_bound(cos_theta.val(), cos_theta.val(), 0xC0000, 0xC0000);
            lemma_fmul_self_nonneg(cos_theta.val());
        }
        let cos_sq = cos_theta.mul(cos_theta);
        let radicand = Fixed { raw: 65536 }.sub(cos_sq);
        let clamped = if radicand.raw < 0 {
            Fixed { raw: 0 }
        } else {
            radicand
        };
        let sin_theta = clamped.sqrt();
        proof {
            crate::fixed::lemma_isqrt_exists(clamped.val() * 65536);
            assert(crate::fixed::is_isqrt(clamped.val() * 65536, sin_theta.val()));
            assert(sin_theta.val() <= 65536) by (nonlinear_arith)
                requires
                    crate::fixed::is_isqrt(clamped.val() * 65536, sin_theta.val()),
                    clamped.val() <= 65536;
            lemma_fmul_bound(etai_over_etat.val(), sin_theta.val(), 0x40000, 0x10000);
        }
        let sine_scaled = etai_over_etat.mul(sin_theta);
        proof {
            lemma_wide_dot_bound(v3(unit_direction), v3(rec.normal), 0x20000);
            lemma_tdiv_bound(
                wide_dot(v3(unit_direction), v3(rec.normal)),
                65536,
                3int * 0x20000 * 0x20000,
            );
            let two_d = 2 * dot_s(v3(unit_direction), v3(rec.normal));
            lemma_fmul_bound(v3(rec.normal).0, two_d, 0x20000, 0x180000);
            lemma_fmul_bound(v3(rec.normal).1, two_d, 0x20000, 0x180000);
            lemma_fmul_bound(v3(rec.normal).2, two_d, 0x20000, 0x180000);
        }
        if sine_scaled.raw > 65536 {
            let reflected = unit_direction.reflect(&rec.normal);
            *scattered = Ray::new(rec.p, reflected);
            return true;
        }
        let reflect_prob = schlick(cos_theta, etai_over_etat);
        if utils::random().lt(reflect_prob) {
            let reflected = unit_direction.reflect(&rec.normal);
            *scattered = Ray::new(rec.p, reflected);
            return true;
        }
        let refracted = unit_direction.refract(&rec.normal, etai_over_etat);
        *scattered = Ray::new(rec.p, refracted);
        true
    }
}

/// At exact normal incidence with matching refractive indices — a unit
/// incoming direction exactly opposite a unit normal, and a ratio of one —
/// the capped cosine is one, the sine is zero, the Schlick reflectance is
/// zero (so a dielectric never reflects there), and the refracted direction
/// is exactly the incoming direction.
pub proof fn lemma_dielectric_normal_incidence(u: (int, int, int), n: (int, int, int))
    requires
        u == vneg3(n),
        wide_dot(n, n) == 65536 * 65536,
    ensures
        cos_theta_s(u, n) == 65536,
        sin_theta_s(u, n) == 0,
        fmul(65536, sin_theta_s(u, n)) == 0,
        schlick_s(cos_theta_s(u, n), 65536) == 0,
        refract_s(u, n, 65536) == u,
{
    crate::fixed::lemma_fmul_one(65536);
    assert(vneg3(u) == n);
    assert(dot_s(vneg3(u), n) == 65536);
    assert(cos_theta_s(u, n) == 65536);
    // the radicand of the sine vanishes, so the sine is zero
    crate::fixed::lemma_isqrt_is(0, 0);
    assert(sin_theta_s(u, n) == 0);
    crate::fixed::lemma_fmul_zero(65536);
    // Schlick: the base reflectance is zero and the fifth power vanishes
    assert(iabs(0int) / iabs(131072int) == 0) by (nonlinear_arith);
    assert(fdiv(0, 131072) == 0);
    crate::fixed::lemma_fmul_zero(0);
    assert(pow5_s(0) == 0) by {
        crate::fixed::lemma_fmul_zero(0);
    }
    assert(schlick_s(65536, 65536) == 0);
    // refraction: the perpendicular part vanishes and the parallel part is
    // the negated normal, which is the incoming direction itself
    crate::fixed::lemma_fmul_one(n.0);
    crate::fixed::lemma_fmul_one(n.1);
    crate::fixed::lemma_fmul_one(n.2);
    let inner = vadd3(u, vscale3(n, 65536));
    assert(inner == (0int, 0int, 0int));
    crate::fixed::lemma_fmul_zero(65536);
    assert(vscale3(inner, 65536) == (0int, 0int, 0int)) by {
        crate::fixed::lemma_fmul_zero(65536);
    }
    let perp = vscale3(inner, 65536);
    assert(len_sq_s(perp) == 0) by {
        assert(iabs(0int) / iabs(65536int) == 0) by (nonlinear_arith);
    }
    assert(is_isqrt(65536int * 65536, 65536)) by (nonlinear_arith);
    crate::fixed::lemma_isqrt_is(65536int * 65536, 65536);
    assert(fmul(n.0, -65536) == -n.0) by {
        crate::fixed::lemma_tdiv_neg(n.0 * 65536, 65536);
        crate::fixed::lemma_fmul_one(n.0);
        assert(n.0 * (-65536) == -(n.0 * 65536));
    }
    assert(fmul(n.1, -65536) == -n.1) by {
        crate::fixed::lemma_tdiv_neg(n.1 * 65536, 65536);
        crate::fixed::lemma_fmul_one(n.1);
        assert(n.1 * (-65536) == -(n.1 * 65536));
    }
    assert(fmul(n.2, -65536) == -n.2) by {
        crate::fixed::lemma_tdiv_neg(n.2 * 65536, 65536);
        crate::fixed::lemma_fmul_one(n.2);
        assert(n.2 * (-65536) == -(n.2 * 65536));
    }
    assert(refract_s(u, n, 65536) == u);
}

impl Material {
    /// A material whose parameters lie in the ranges the renderer relies on:
    /// albedo channels in [0, 1], fuzz in [0, 1], refractive index in
    /// [1/4, 4].
    pub open spec fn wf(self) -> bool {
        match self {
            Material::Lambertian(m) => color_wf(v3(m.albedo)),
            Material::Metal(m) => color_wf(v3(m.albedo)) && 0 <= m.fuzz.val() <= 65536,
            Material::Dielectric(m) => 16384 <= m.ref_idx.val() <= 0x40000,
        }
    }

    /// Dispatches to the variant's scattering rule. On a scatter the
    /// attenuation is a well-formed color and the new ray starts at the hit
    /// point with a bounded direction.
    pub fn scatter(
        &self,
        r_in: &Ray,
        rec: &HitRecord,
        attenuation: &mut Color,
        scattered: &mut Ray,
    ) -> (r: bool)
        requires
            self.wf(),
            bounded3(v3(r_in.direction), 0x2000000),
            wide_dot(v3(r_in.direction), v3(r_in.direction)) >= 65536,
            bounded3(v3(rec.normal), 0x20000),
        ensures
            r ==> color_wf(v3(*final(attenuation))),
            r ==> final(scattered).origin == rec.p,
            r ==> bounded3(v3(final(scattered).direction), 0x700000),
            self matches Material::Lambertian(m) ==> r == true && *final(attenuation) == m.albedo,
            self matches Material::Metal(m) ==> *final(attenuation) == m.albedo && r == (dot_s(
                v3(final(scattered).direction),
                v3(rec.normal),
            ) > 0) && (m.fuzz.val() == 0 ==> v3(final(scattered).direction) == reflect_s(
                unit_s(v3(r_in.direction)),
                v3(rec.normal),
            )),
            self matches Material::Dielectric(m) ==> r == true && v3(*final(attenuation)) == (
                65536int,
                65536int,
                65536int,
            ) && dielectric_scatter_ok(
                m.ref_idx.val(),
                rec.front_face,
                v3(r_in.direction),
                v3(rec.normal),
                v3(final(scattered).direction),
            ),
    {
        match self {
            Material::Lambertian(m) => m.scatter(r_in, rec, attenuation, scattered),
            Material::Metal(m) => m.scatter(r_in, rec, attenuation, scattered),
            Material::Dielectric(m) => m.scatter(r_in, rec, attenuation, scattered),
        }
    }
}

} // verus!
