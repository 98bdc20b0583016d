use vstd::prelude::*;

use crate::fixed::{
    fdiv, fmul, iabs, lemma_fmul_bound, lemma_fmul_sign, lemma_fmul_zero, lemma_tdiv_bound, Fixed,
};
use crate::ray::Ray;
use crate::utils;
use crate::vec3::{
    bounded3, cross_s, len_sq_s, lemma_unit_bounded, unit_s, v3, vadd3, vdiv3, vscale3, vsub3,
    wide_dot, Point3, Vec3,
};

verus! {

/// Maps normalized image-plane coordinates, plus a random lens jitter, to
/// primary rays. All fields are derived once at construction.
pub struct Camera {
    pub origin: Point3,
    pub lower_left_corner: Point3,
    pub horizontal: Vec3,
    pub vertical: Vec3,
    pub u: Vec3,
    pub v: Vec3,
    pub w: Vec3,
    pub lens_radius: Fixed,
}

impl Camera {
    /// A camera whose derived fields lie in the ranges the ray generation
    /// relies on.
    pub open spec fn wf(self) -> bool {
        &&& bounded3(v3(self.origin), 0x4000000)
        &&& bounded3(v3(self.horizontal), 0x500000)
        &&& bounded3(v3(self.vertical), 0xA00000)
        &&& bounded3(vsub3(v3(self.lower_left_corner), v3(self.origin)), 0x8C0000)
        &&& bounded3(v3(self.u), 0x20000)
        &&& bounded3(v3(self.v), 0x80000)
        &&& bounded3(v3(self.w), 0x20000)
        &&& 0 <= self.lens_radius.val() <= 16384
    }

    /// The direction of the ray through image-plane coordinates `(s, t)`
    /// when the lens has no aperture.
    pub open spec fn ray_dir_s(self, s: int, t: int) -> (int, int, int) {
        vsub3(
            vadd3(
                vadd3(v3(self.lower_left_corner), vscale3(v3(self.horizontal), s)),
                vscale3(v3(self.vertical), t),
            ),
            v3(self.origin),
        )
    }

    /// The lens jitter for a disk point `(px, py)`: the point scaled by the
    /// lens radius and laid out along the camera's own basis.
    pub open spec fn lens_offset_s(self, px: int, py: int) -> (int, int, int) {
        vadd3(
            vscale3(v3(self.u), fmul(px, self.lens_radius.val())),
            vscale3(v3(self.v), fmul(py, self.lens_radius.val())),
        )
    }

    /// Derives the camera frame from the eye position, the look-at target,
    /// the up direction, the tangent of half the vertical field of view,
    /// the aspect ratio, the lens aperture and the focus distance.
    pub fn new(
        lookfrom: Point3,
        lookat: Point3,
        vup: Vec3,
        half_height: Fixed,
        aspect_ratio: Fixed,
        aperture: Fixed,
        focus_dist: Fixed,
    ) -> (cam: Camera)
        requires
            bounded3(v3(lookfrom), 0x4000000),
            bounded3(v3(lookat), 0x4000000),
            bounded3(v3(vup), 0x20000),
            wide_dot(
                vsub3(v3(lookfrom), v3(lookat)),
                vsub3(v3(lookfrom), v3(lookat)),
            ) >= 65536,
            wide_dot(
                cross_s(v3(vup), unit_s(vsub3(v3(lookfrom), v3(lookat)))),
                cross_s(v3(vup), unit_s(vsub3(v3(lookfrom), v3(lookat)))),
            ) >= 65536,
            0 <= half_height.val() <= 65536,
            0 < aspect_ratio.val(),
            fmul(aspect_ratio.val(), half_height.val()) <= 0x20000,
            0 <= aperture.val() <= 32768,
            0 < focus_dist.val() <= 0xA0000,
        ensures
            cam.wf(),
            cam.origin == lookfrom,
            v3(cam.w) == unit_s(vsub3(v3(lookfrom), v3(lookat))),
            v3(cam.u) == unit_s(cross_s(v3(vup), v3(cam.w))),
            v3(cam.v) == cross_s(v3(cam.w), v3(cam.u)),
            v3(cam.horizontal) == vscale3(
                v3(cam.u),
                fmul(2 * fmul(aspect_ratio.val(), half_height.val()), focus_dist.val()),
            ),
            v3(cam.vertical) == vscale3(v3(cam.v), fmul(2 * half_height.val(), focus_dist.val())),
            v3(cam.lower_left_corner) == vsub3(
                vsub3(
                    vsub3(v3(lookfrom), vdiv3(v3(cam.horizontal), 131072)),
                    vdiv3(v3(cam.vertical), 131072),
                ),
                vscale3(v3(cam.w), focus_dist.val()),
            ),
            cam.lens_radius.val() == fdiv(aperture.val(), 131072),
    {
        proof {
            lemma_unit_bounded(vsub3(v3(lookfrom), v3(lookat)));
        }
        let direction = lookfrom.sub(lookat);
        let w_vec = direction.unit();
        proof {
            let a = v3(vup);
            let b = v3(w_vec);
            crate::fixed::lemma_prod_bound(a.1, b.2, 0x20000, 0x20000);
            crate::fixed::lemma_prod_bound(a.2, b.1, 0x20000, 0x20000);
            crate::fixed::lemma_prod_bound(a.2, b.0, 0x20000, 0x20000);
            crate::fixed::lemma_prod_bound(a.0, b.2, 0x20000, 0x20000);
            crate::fixed::lemma_prod_bound(a.0, b.1, 0x20000, 0x20000);
            crate::fixed::lemma_prod_bound(a.1, b.0, 0x20000, 0x20000);
            lemma_tdiv_bound(crate::vec3::cross_w(a, b).0, 65536, 2int * 0x20000 * 0x20000);
            lemma_tdiv_bound(crate::vec3::cross_w(a, b).1, 65536, 2int * 0x20000 * 0x20000);
            lemma_tdiv_bound(crate::vec3::cross_w(a, b).2, 65536, 2int * 0x20000 * 0x20000);
            lemma_unit_bounded(cross_s(v3(vup), v3(w_vec)));
        }
        let u_vec = vup.cross(&w_vec).unit();
        let v_vec = w_vec.cross(&u_vec);
        proof {
            let a = v3(w_vec);
            let b = v3(u_vec);
            crate::fixed::lemma_prod_bound(a.1, b.2, 0x20000, 0x20000);
            crate::fixed::lemma_prod_bound(a.2, b.1, 0x20000, 0x20000);
            crate::fixed::lemma_prod_bound(a.2, b.0, 0x20000, 0x20000);
            crate::fixed::lemma_prod_bound(a.0, b.2, 0x20000, 0x20000);
            crate::fixed::lemma_prod_bound(a.0, b.1, 0x20000, 0x20000);
            crate::fixed::lemma_prod_bound(a.1, b.0, 0x20000, 0x20000);
            lemma_tdiv_bound(crate::vec3::cross_w(a, b).0, 65536, 2int * 0x20000 * 0x20000);
            lemma_tdiv_bound(crate::vec3::cross_w(a, b).1, 65536, 2int * 0x20000 * 0x20000);
            lemma_tdiv_bound(crate::vec3::cross_w(a, b).2, 65536, 2int * 0x20000 * 0x20000);
            lemma_fmul_sign(aspect_ratio.val(), half_height.val());
        }
        let half_width = aspect_ratio.mul(half_height);
        let hw2 = half_width.add(half_width);
        proof {
            lemma_fmul_bound(hw2.val(), focus_dist.val(), 0x40000, 0xA0000);
        }
        let hscale = hw2.mul(focus_dist);
        proof {
            lemma_fmul_bound(v3(u_vec).0, hscale.val(), 0x20000, 0x280000);
            lemma_fmul_bound(v3(u_vec).1, hscale.val(), 0x20000, 0x280000);
            lemma_fmul_bound(v3(u_vec).2, hscale.val(), 0x20000, 0x280000);
        }
        let horizontal = u_vec.scale(hscale);
        let vh2 = half_height.add(half_height);
        proof {
            lemma_fmul_bound(vh2.val(), focus_dist.val(), 0x20000, 0xA0000);
        }
        let vscale = vh2.mul(focus_dist);
        proof {
            lemma_fmul_bound(v3(v_vec).0, vscale.val(), 0x80000, 0x140000);
            lemma_fmul_bound(v3(v_vec).1, vscale.val(), 0x80000, 0x140000);
            lemma_fmul_bound(v3(v_vec).2, vscale.val(), 0x80000, 0x140000);
            lemma_fmul_bound(v3(w_vec).0, focus_dist.val(), 0x20000, 0xA0000);
            lemma_fmul_bound(v3(w_vec).1, focus_dist.val(), 0x20000, 0xA0000);
            lemma_fmul_bound(v3(w_vec).2, focus_dist.val(), 0x20000, 0xA0000);
            lemma_tdiv_bound(v3(horizontal).0 * 65536, 131072, 0x500000int * 65536);
            lemma_tdiv_bound(v3(horizontal).1 * 65536, 131072, 0x500000int * 65536);
            lemma_tdiv_bound(v3(horizontal).2 * 65536, 131072, 0x500000int * 65536);
        }
        let two = Fixed { raw: 131072 };
        let vertical = v_vec.scale(vscale);
        proof {
            lemma_tdiv_bound(v3(vertical).0 * 65536, 131072, 0xA00000int * 65536);
            lemma_tdiv_bound(v3(vertical).1 * 65536, 131072, 0xA00000int * 65536);
            lemma_tdiv_bound(v3(vertical).2 * 65536, 131072, 0xA00000int * 65536);
        }
        let lower_left_corner = lookfrom.sub(horizontal.div_scalar(two)).sub(
            vertical.div_scalar(two),
        ).sub(w_vec.scale(focus_dist));
        proof {
            lemma_tdiv_bound(aperture.val() * 65536, 131072, 32768int * 65536);
        }
        let lens_radius = aperture.div(two);
        Camera {
            origin: lookfrom,
            lower_left_corner,
            horizontal,
            vertical,
            u: u_vec,
            v: v_vec,
            w: w_vec,
            lens_radius,
        }
    }

    /// The primary ray through the normalized image-plane coordinates
    /// `(s, t)`, jittered within the lens aperture: the origin moves by the
    /// lens offset of some point of the unit disk, the direction loses the
    /// same offset, so origin plus direction is always the exact
    /// focus-plane point. With a zero aperture the ray leaves the exact
    /// origin in the exact image-plane direction.
    pub fn get_ray(&self, s: Fixed, t: Fixed) -> (r: Ray)
        requires
            self.wf(),
            0 <= s.val() <= 65536,
            0 <= t.val() <= 65536,
        ensures
            bounded3(v3(r.origin), 0x8000000),
            bounded3(v3(r.direction), 0x2000000),
            vadd3(v3(r.origin), v3(r.direction)) == vadd3(
                v3(self.origin),
                self.ray_dir_s(s.val(), t.val()),
            ),
            exists|px: int, py: int|
                iabs(px) <= 65536 && iabs(py) <= 65536 && len_sq_s((px, py, 0)) < 65536 && v3(
                    r.origin,
                ) == vadd3(v3(self.origin), #[trigger] self.lens_offset_s(px, py)) && v3(
                    r.direction,
                ) == vsub3(self.ray_dir_s(s.val(), t.val()), self.lens_offset_s(px, py)),
            self.lens_radius.val() == 0 ==> v3(r.origin) == v3(self.origin) && v3(r.direction)
                == self.ray_dir_s(s.val(), t.val()),
    {
        let disk = Vec3::random_in_unit_disk();
        proof {
            lemma_fmul_bound(v3(disk).0, self.lens_radius.val(), 65536, 16384);
            lemma_fmul_bound(v3(disk).1, self.lens_radius.val(), 65536, 16384);
            lemma_fmul_bound(v3(disk).2, self.lens_radius.val(), 65536, 16384);
            if self.lens_radius.val() == 0 {
                lemma_fmul_zero(v3(disk).0);
                lemma_fmul_zero(v3(disk).1);
                lemma_fmul_zero(v3(disk).2);
            }
        }
        let rd = disk.scale(self.lens_radius);
        proof {
            lemma_fmul_bound(v3(self.u).0, rd.x.val(), 0x20000, 16384);
            lemma_fmul_bound(v3(self.u).1, rd.x.val(), 0x20000, 16384);
            lemma_fmul_bound(v3(self.u).2, rd.x.val(), 0x20000, 16384);
            lemma_fmul_bound(v3(self.v).0, rd.y.val(), 0x80000, 16384);
            lemma_fmul_bound(v3(self.v).1, rd.y.val(), 0x80000, 16384);
            lemma_fmul_bound(v3(self.v).2, rd.y.val(), 0x80000, 16384);
            if self.lens_radius.val() == 0 {
                lemma_fmul_zero(v3(self.u).0);
                lemma_fmul_zero(v3(self.u).1);
                lemma_fmul_zero(v3(self.u).2);
                lemma_fmul_zero(v3(self.v).0);
                lemma_fmul_zero(v3(self.v).1);
                lemma_fmul_zero(v3(self.v).2);
            }
        }
        let offset = self.u.scale(rd.x).add(self.v.scale(rd.y));
        let ray_origin = self.origin.add(offset);
        proof {
            lemma_fmul_bound(v3(self.horizontal).0, s.val(), 0x500000, 65536);
            lemma_fmul_bound(v3(self.horizontal).1, s.val(), 0x500000, 65536);
            lemma_fmul_bound(v3(self.horizontal).2, s.val(), 0x500000, 65536);
            lemma_fmul_bound(v3(self.vertical).0, t.val(), 0xA00000, 65536);
            lemma_fmul_bound(v3(self.vertical).1, t.val(), 0xA00000, 65536);
            lemma_fmul_bound(v3(self.vertical).2, t.val(), 0xA00000, 65536);
        }
        let direction = self.lower_left_corner.add(self.horizontal.scale(s)).add(
            self.vertical.scale(t),
        ).sub(self.origin).sub(offset);
        proof {
            let px = v3(disk).0;
            let py = v3(disk).1;
            assert(v3(disk) == (px, py, 0int));
            assert(v3(offset) == self.lens_offset_s(px, py));
            assert(v3(direction) == vsub3(
                self.ray_dir_s(s.val(), t.val()),
                self.lens_offset_s(px, py),
            ));
        }
        Ray::new(ray_origin, direction)
    }
}

} // verus!
