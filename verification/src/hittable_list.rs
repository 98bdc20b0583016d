use vstd::prelude::*;

use crate::fixed::{lemma_fmul_bound, lemma_fmul_sign, Fixed};
use crate::hittable::HitRecord;
use crate::materials::{Dielectric, Lambertian, Material, Metal};
use crate::ray::{ray_wf, trange_wf, Ray};
use crate::sphere::Sphere;
use crate::utils;
use crate::vec3::{len_s, len_sq_s, v3, vsub3, wide_dot, Vec3};

verus! {

/// An ordered collection of spheres forming the scene; a ray is tested
/// against every member and the closest acceptable hit wins.
pub struct HittableList {
    pub objects: Vec<Sphere>,
}

/// The hit that remains after testing the members from `i` on, starting
/// from the best candidate `cur` found so far at distance `cur_max`: each
/// accepted hit narrows the upper bound of the parameter interval, which
/// keeps exactly the closest one.
pub open spec fn list_hit_from(
    objs: Seq<Sphere>,
    i: int,
    ro: (int, int, int),
    rd: (int, int, int),
    t_min: int,
    cur_max: int,
    cur: Option<(int, int)>,
) -> Option<(int, int)>
    decreases objs.len() - i,
{
    if i < 0 || i >= objs.len() {
        cur
    } else {
        match objs[i].hit_t_s(ro, rd, t_min, cur_max) {
            Some(t) => list_hit_from(objs, i + 1, ro, rd, t_min, t, Some((i, t))),
            None => list_hit_from(objs, i + 1, ro, rd, t_min, cur_max, cur),
        }
    }
}

/// The member index and parameter of the closest hit in `(t_min, t_max)`,
/// if any member is struck.
pub open spec fn list_hit_s(
    objs: Seq<Sphere>,
    ro: (int, int, int),
    rd: (int, int, int),
    t_min: int,
    t_max: int,
) -> Option<(int, int)> {
    list_hit_from(objs, 0, ro, rd, t_min, t_max, None)
}

impl HittableList {
    /// Every member is a sphere the intersection arithmetic accepts.
    pub open spec fn wf(self) -> bool {
        forall|i: int| 0 <= i < self.objects@.len() ==> (#[trigger] self.objects@[i]).wf()
    }

    pub fn new() -> (r: HittableList)
        ensures
            r.objects@.len() == 0,
            r.wf(),
    {
        HittableList { objects: Vec::new() }
    }

    pub fn add(&mut self, object: Sphere)
        requires
            object.wf(),
        ensures
            final(self).objects@ == old(self).objects@.push(object),
            old(self).wf() ==> final(self).wf(),
    {
        self.objects.push(object);
    }

    /// Whether the ray strikes any member inside `(t_min, t_max)`. On a hit
    /// the record describes the member closest along the ray, and no member
    /// is struck strictly nearer; on a miss no member is struck inside the
    /// interval at all.
    pub fn hit(&self, r: &Ray, t_min: Fixed, t_max: Fixed, rec: &mut HitRecord) -> (b: bool)
        requires
            ray_wf(*r),
            self.wf(),
            trange_wf(t_min.val(), t_max.val()),
        ensures
            b == (list_hit_s(
                self.objects@,
                v3(r.origin),
                v3(r.direction),
                t_min.val(),
                t_max.val(),
            ) is Some),
            list_hit_s(
                self.objects@,
                v3(r.origin),
                v3(r.direction),
                t_min.val(),
                t_max.val(),
            ) matches Some(jt) ==> 0 <= jt.0 < self.objects@.len()
                && self.objects@[jt.0].hit_record_ok(*r, jt.1, *final(rec)) && t_min.val() < jt.1
                < t_max.val(),
            b ==> forall|k: int|
                0 <= k < self.objects@.len() ==> (#[trigger] self.objects@[k].hit_t_s(
                    v3(r.origin),
                    v3(r.direction),
                    t_min.val(),
                    final(rec).t.val(),
                )) is None,
            !b ==> *final(rec) == *old(rec) && (forall|k: int|
                0 <= k < self.objects@.len() ==> (#[trigger] self.objects@[k].hit_t_s(
                    v3(r.origin),
                    v3(r.direction),
                    t_min.val(),
                    t_max.val(),
                )) is None),
    {
        let ghost ro = v3(r.origin);
        let ghost rd = v3(r.direction);
        let mut hit_anything = false;
        let mut closest_so_far = t_max;
        let ghost mut cur: Option<(int, int)> = None;
        let mut idx: usize = 0;
        while idx < self.objects.len()
            invariant
                ray_wf(*r),
                self.wf(),
                trange_wf(t_min.val(), t_max.val()),
                trange_wf(t_min.val(), closest_so_far.val()),
                idx <= self.objects@.len(),
                ro == v3(r.origin) && rd == v3(r.direction),
                list_hit_from(
                    self.objects@,
                    idx as int,
                    ro,
                    rd,
                    t_min.val(),
                    closest_so_far.val(),
                    cur,
                ) == list_hit_s(self.objects@, ro, rd, t_min.val(), t_max.val()),
                hit_anything == (cur is Some),
                cur matches Some(jt) ==> 0 <= jt.0 < idx
                    && self.objects@[jt.0].hit_record_ok(*r, jt.1, *rec) && jt.1
                    == closest_so_far.val() && t_min.val() < jt.1 < t_max.val(),
                cur is None ==> *rec == *old(rec) && closest_so_far == t_max,
            decreases self.objects@.len() - idx,
        {
            let sphere = self.objects[idx];
            if sphere.hit(r, t_min, closest_so_far, rec) {
                hit_anything = true;
                closest_so_far = rec.t;
                proof {
                    cur = Some((idx as int, rec.t.val()));
                }
            }
            idx = idx + 1;
        }
        proof {
            lemma_scene_hit_closest(self.objects@, ro, rd, t_min.val(), t_max.val());
        }
        hit_anything
    }
}

impl crate::hittable::Hittable for HittableList {
    open spec fn shape_wf(&self) -> bool {
        self.wf()
    }

    fn hit(&self, r: &Ray, t_min: Fixed, t_max: Fixed, rec: &mut HitRecord) -> (b: bool)
        ensures
            b == (list_hit_s(
                self.objects@,
                v3(r.origin),
                v3(r.direction),
                t_min.val(),
                t_max.val(),
            ) is Some),
            list_hit_s(
                self.objects@,
                v3(r.origin),
                v3(r.direction),
                t_min.val(),
                t_max.val(),
            ) matches Some(jt) ==> 0 <= jt.0 < self.objects@.len()
                && self.objects@[jt.0].hit_record_ok(*r, jt.1, *final(rec)) && t_min.val() < jt.1
                < t_max.val(),
            !b ==> *final(rec) == *old(rec),
    {
        HittableList::hit(self, r, t_min, t_max, rec)
    }
}

/// The member scan keeps exactly the closest hit. Starting from a best
/// candidate whose parameter equals the current interval end, the scan's
/// result parameter never grows, and no member from `i` on is struck
/// strictly inside the interval that ends at the result.
pub proof fn lemma_list_hit_from_minimal(
    objs: Seq<Sphere>,
    i: int,
    ro: (int, int, int),
    rd: (int, int, int),
    t_min: int,
    cm: int,
    cur: Option<(int, int)>,
)
    requires
        0 <= i,
        len_sq_s(rd) >= 1,
        cur matches Some(jt) ==> jt.1 == cm,
    ensures
        cur is Some ==> list_hit_from(objs, i, ro, rd, t_min, cm, cur) is Some,
        list_hit_from(objs, i, ro, rd, t_min, cm, cur) matches Some(jt2) ==> jt2.1 <= cm && (
        forall|k: int|
            i <= k < objs.len() ==> (#[trigger] objs[k].hit_t_s(ro, rd, t_min, jt2.1)) is None),
        list_hit_from(objs, i, ro, rd, t_min, cm, cur) is None ==> (forall|k: int|
            i <= k < objs.len() ==> (#[trigger] objs[k].hit_t_s(ro, rd, t_min, cm)) is None),
    decreases objs.len() - i,
{
    if 0 <= i < objs.len() {
        let res = list_hit_from(objs, i, ro, rd, t_min, cm, cur);
        if objs[i].hit_t_s(ro, rd, t_min, cm) is Some {
            let t = objs[i].hit_t_s(ro, rd, t_min, cm).unwrap();
            assert(res == list_hit_from(objs, i + 1, ro, rd, t_min, t, Some((i, t))));
            assert(t_min < t < cm);
            lemma_list_hit_from_minimal(objs, i + 1, ro, rd, t_min, t, Some((i, t)));
            assert(res is Some);
            let jt2 = res.unwrap();
            assert(jt2.1 <= t);
            objs[i].lemma_hit_interval(ro, rd, t_min, cm, jt2.1);
            assert forall|k: int| i <= k < objs.len() implies (#[trigger] objs[k].hit_t_s(
                ro,
                rd,
                t_min,
                jt2.1,
            )) is None by {
                if k == i {
                    assert(objs[i].hit_t_s(ro, rd, t_min, jt2.1) is None);
                } else {
                    assert(objs[k].hit_t_s(ro, rd, t_min, jt2.1) is None);
                }
            }
        } else {
            assert(res == list_hit_from(objs, i + 1, ro, rd, t_min, cm, cur));
            lemma_list_hit_from_minimal(objs, i + 1, ro, rd, t_min, cm, cur);
            if res is Some {
                let jt2 = res.unwrap();
                assert(jt2.1 <= cm);
                objs[i].lemma_hit_interval(ro, rd, t_min, cm, jt2.1);
                assert forall|k: int| i <= k < objs.len() implies (#[trigger] objs[k].hit_t_s(
                    ro,
                    rd,
                    t_min,
                    jt2.1,
                )) is None by {
                    if k == i {
                        assert(objs[i].hit_t_s(ro, rd, t_min, jt2.1) is None);
                    } else {
                        assert(objs[k].hit_t_s(ro, rd, t_min, jt2.1) is None);
                    }
                }
            } else {
                assert forall|k: int| i <= k < objs.len() implies (#[trigger] objs[k].hit_t_s(
                    ro,
                    rd,
                    t_min,
                    cm,
                )) is None by {
                    if k == i {
                        assert(objs[i].hit_t_s(ro, rd, t_min, cm) is None);
                    } else {
                        assert(objs[k].hit_t_s(ro, rd, t_min, cm) is None);
                    }
                }
            }
        }
    }
}

/// The scene returns the closest hit: where the member scan finds a hit,
/// no member is struck strictly nearer along the ray, and where it finds
/// none, no member is struck inside the interval at all.
pub proof fn lemma_scene_hit_closest(
    objs: Seq<Sphere>,
    ro: (int, int, int),
    rd: (int, int, int),
    t_min: int,
    t_max: int,
)
    requires
        wide_dot(rd, rd) >= 65536,
    ensures
        list_hit_s(objs, ro, rd, t_min, t_max) matches Some(jt) ==> jt.1 <= t_max && (forall|
            k: int,
        |
            0 <= k < objs.len() ==> (#[trigger] objs[k].hit_t_s(ro, rd, t_min, jt.1)) is None),
        list_hit_s(objs, ro, rd, t_min, t_max) is None ==> (forall|k: int|
            0 <= k < objs.len() ==> (#[trigger] objs[k].hit_t_s(ro, rd, t_min, t_max)) is None),
{
    crate::vec3::lemma_wide_dot_self(rd);
    assert(len_sq_s(rd) >= 1) by (nonlinear_arith)
        requires
            len_sq_s(rd) == crate::fixed::tdiv(wide_dot(rd, rd), 65536),
            wide_dot(rd, rd) >= 65536;
    lemma_list_hit_from_minimal(objs, 0, ro, rd, t_min, t_max, None::<(int, int)>);
}

/// The large matte sphere standing in for the ground.
pub open spec fn ground_sphere_s() -> Sphere {
    Sphere {
        center: (Vec3 {
            x: Fixed { raw: 0 },
            y: Fixed { raw: -65536000i64 },
            z: Fixed { raw: 0 },
        }),
        radius: (Fixed { raw: 65536000 }),
        material: Some(
            Material::Lambertian(
                Lambertian {
                    albedo: (Vec3 {
                        x: Fixed { raw: 32768 },
                        y: Fixed { raw: 32768 },
                        z: Fixed { raw: 32768 },
                    }),
                },
            ),
        ),
    }
}

/// The large glass sphere at the middle of the scene.
pub open spec fn big_glass_sphere_s() -> Sphere {
    Sphere {
        center: (Vec3 { x: Fixed { raw: 0 }, y: Fixed { raw: 65536 }, z: Fixed { raw: 0 } }),
        radius: (Fixed { raw: 65536 }),
        material: Some(Material::Dielectric(Dielectric { ref_idx: (Fixed { raw: 98304 }) })),
    }
}

/// The large matte sphere on the left.
pub open spec fn big_matte_sphere_s() -> Sphere {
    Sphere {
        center: (Vec3 { x: Fixed { raw: -262144i64 }, y: Fixed { raw: 65536 }, z: Fixed { raw: 0 } }),
        radius: (Fixed { raw: 65536 }),
        material: Some(
            Material::Lambertian(
                Lambertian {
                    albedo: (Vec3 {
                        x: Fixed { raw: 26214 },
                        y: Fixed { raw: 13107 },
                        z: Fixed { raw: 6553 },
                    }),
                },
            ),
        ),
    }
}

/// The large polished metal sphere on the right.
pub open spec fn big_metal_sphere_s() -> Sphere {
    Sphere {
        center: (Vec3 { x: Fixed { raw: 262144 }, y: Fixed { raw: 65536 }, z: Fixed { raw: 0 } }),
        radius: (Fixed { raw: 65536 }),
        material: Some(
            Material::Metal(
                Metal {
                    albedo: (Vec3 {
                        x: Fixed { raw: 45875 },
                        y: Fixed { raw: 39321 },
                        z: Fixed { raw: 32768 },
                    }),
                    fuzz: (Fixed { raw: 0 }),
                },
            ),
        ),
    }
}

/// A material a grid sphere can draw: a diffuse one with a product-of-draws
/// albedo, a metal one with albedo in [0.5, 1) and fuzz in [0, 0.5), or the
/// common glass.
pub open spec fn grid_material_s(m: Material) -> bool {
    match m {
        Material::Lambertian(l) => {
            &&& 0 <= v3(l.albedo).0 < 65536
            &&& 0 <= v3(l.albedo).1 < 65536
            &&& 0 <= v3(l.albedo).2 < 65536
        },
        Material::Metal(mm) => {
            &&& 32768 <= v3(mm.albedo).0 < 65536
            &&& 32768 <= v3(mm.albedo).1 < 65536
            &&& 32768 <= v3(mm.albedo).2 < 65536
            &&& 0 <= mm.fuzz.val() < 32768
        },
        Material::Dielectric(d) => d.ref_idx.val() == 98304,
    }
}

/// A small sphere of the random grid: radius 0.2, center at height 0.2 on a
/// grid cell of [-11, 11) x [-11, 11) jittered by up to 0.9 within the
/// cell, clear of the metal sphere's spot by more than 0.9, carrying one of
/// the drawn materials.
pub open spec fn grid_sphere_ok(s: Sphere) -> bool {
    &&& s.radius.val() == 13107
    &&& s.center.y.val() == 13107
    &&& 0 <= s.center.x.val() + 720896 < 1441792
    &&& (s.center.x.val() + 720896) % 65536 < 58982
    &&& 0 <= s.center.z.val() + 720896 < 1441792
    &&& (s.center.z.val() + 720896) % 65536 < 58982
    &&& len_s(vsub3(v3(s.center), (262144int, 13107int, 0int))) > 58982
    &&& (s.material matches Some(m) && grid_material_s(m))
}

/// Builds the canonical scene: a ground sphere, a grid of small spheres
/// with randomly drawn positions and materials, and three large spheres of
/// glass, matte and metal. Every member is well-formed and carries a
/// material; the ground sphere comes first, the three large ones last, and
/// everything between them is a grid sphere.
pub fn random_scene() -> (world: HittableList)
    ensures
        world.wf(),
        4 <= world.objects@.len() <= 488,
        world.objects@[0] == ground_sphere_s(),
        world.objects@[world.objects@.len() - 3] == big_glass_sphere_s(),
        world.objects@[world.objects@.len() - 2] == big_matte_sphere_s(),
        world.objects@[world.objects@.len() - 1] == big_metal_sphere_s(),
        forall|i: int|
            0 <= i < world.objects@.len() ==> (#[trigger] world.objects@[i]).material is Some,
        forall|i: int|
            1 <= i < world.objects@.len() - 3 ==> grid_sphere_ok(#[trigger] world.objects@[i]),
{
    let mut world = HittableList::new();
    let ground_albedo = Vec3::new(
        Fixed { raw: 32768 },
        Fixed { raw: 32768 },
        Fixed { raw: 32768 },
    );
    world.add(
        Sphere::new(
            Vec3::new(Fixed { raw: 0 }, Fixed { raw: -65536000 }, Fixed { raw: 0 }),
            Fixed { raw: 65536000 },
            Some(Material::Lambertian(Lambertian { albedo: ground_albedo })),
        ),
    );
    let mut a: i32 = -11;
    while a < 11
        invariant
            -11 <= a <= 11,
            world.wf(),
            1 <= world.objects@.len() <= 1 + (a as int + 11) * 22,
            world.objects@[0] == ground_sphere_s(),
            forall|i: int|
                0 <= i < world.objects@.len() ==> (#[trigger] world.objects@[i]).material
                    is Some,
            forall|i: int|
                1 <= i < world.objects@.len() ==> grid_sphere_ok(#[trigger] world.objects@[i]),
        decreases 11 - a,
    {
        let mut b: i32 = -11;
        while b < 11
            invariant
                -11 <= a < 11,
                -11 <= b <= 11,
                world.wf(),
                1 <= world.objects@.len() <= 1 + (a as int + 11) * 22 + (b as int + 11),
                world.objects@[0] == ground_sphere_s(),
                forall|i: int|
                    0 <= i < world.objects@.len() ==> (#[trigger] world.objects@[i]).material
                        is Some,
                forall|i: int|
                    1 <= i < world.objects@.len() ==> grid_sphere_ok(
                        #[trigger] world.objects@[i],
                    ),
            decreases 11 - b,
        {
            let choose_mat = utils::random();
            let rx = utils::random();
            let rz = utils::random();
            proof {
                lemma_fmul_bound(58982, rx.val(), 58982, 65535);
                lemma_fmul_bound(58982, rz.val(), 58982, 65535);
                lemma_fmul_sign(58982, rx.val());
                lemma_fmul_sign(58982, rz.val());
            }
            let jitter_x = Fixed { raw: 58982 }.mul(rx);
            let jitter_z = Fixed { raw: 58982 }.mul(rz);
            let center = Vec3::new(
                Fixed::from_int(a).add(jitter_x),
                Fixed { raw: 13107 },
                Fixed::from_int(b).add(jitter_z),
            );
            let clearing = Vec3::new(Fixed { raw: 262144 }, Fixed { raw: 13107 }, Fixed { raw: 0 });
            if center.sub(clearing).length().raw > 58982 {
                let sphere_material: Material = if choose_mat.raw < 52428 {
                    let base = Vec3::random();
                    let tint = Vec3::random();
                    proof {
                        lemma_fmul_bound(v3(base).0, v3(tint).0, 65535, 65535);
                        lemma_fmul_bound(v3(base).1, v3(tint).1, 65535, 65535);
                        lemma_fmul_bound(v3(base).2, v3(tint).2, 65535, 65535);
                        lemma_fmul_sign(v3(base).0, v3(tint).0);
                        lemma_fmul_sign(v3(base).1, v3(tint).1);
                        lemma_fmul_sign(v3(base).2, v3(tint).2);
                    }
                    let albedo = base.mul(tint);
                    Material::Lambertian(Lambertian { albedo })
                } else if choose_mat.raw < 62259 {
                    let albedo = Vec3::random_range(Fixed { raw: 32768 }, Fixed { raw: 65536 });
                    let fuzz = utils::random_range(Fixed { raw: 0 }, Fixed { raw: 32768 });
                    Material::Metal(Metal { albedo, fuzz })
                } else {
                    Material::Dielectric(Dielectric { ref_idx: Fixed { raw: 98304 } })
                };
                let small = Sphere::new(center, Fixed { raw: 13107 }, Some(sphere_material));
                proof {
                    vstd::arithmetic::div_mod::lemma_mod_multiples_vanish(
                        a as int + 11,
                        jitter_x.val(),
                        65536,
                    );
                    vstd::arithmetic::div_mod::lemma_mod_multiples_vanish(
                        b as int + 11,
                        jitter_z.val(),
                        65536,
                    );
                    vstd::arithmetic::div_mod::lemma_small_mod(
                        jitter_x.val() as nat,
                        65536nat,
                    );
                    vstd::arithmetic::div_mod::lemma_small_mod(
                        jitter_z.val() as nat,
                        65536nat,
                    );
                    assert(small.center.x.val() + 720896 == 65536 * (a as int + 11)
                        + jitter_x.val());
                    assert(small.center.z.val() + 720896 == 65536 * (b as int + 11)
                        + jitter_z.val());
                    assert(grid_sphere_ok(small));
                }
                world.add(small);
                proof {
                    assert forall|i: int|
                        1 <= i < world.objects@.len() implies grid_sphere_ok(
                        #[trigger] world.objects@[i],
                    ) by {}
                }
            }
            b = b + 1;
        }
        a = a + 1;
    }
    world.add(
        Sphere::new(
            Vec3::new(Fixed { raw: 0 }, Fixed { raw: 65536 }, Fixed { raw: 0 }),
            Fixed { raw: 65536 },
            Some(Material::Dielectric(Dielectric { ref_idx: Fixed { raw: 98304 } })),
        ),
    );
    world.add(
        Sphere::new(
            Vec3::new(Fixed { raw: -262144 }, Fixed { raw: 65536 }, Fixed { raw: 0 }),
            Fixed { raw: 65536 },
            Some(
                Material::Lambertian(
                    Lambertian {
                        albedo: Vec3::new(
                            Fixed { raw: 26214 },
                            Fixed { raw: 13107 },
                            Fixed { raw: 6553 },
                        ),
                    },
                ),
            ),
        ),
    );
    world.add(
        Sphere::new(
            Vec3::new(Fixed { raw: 262144 }, Fixed { raw: 65536 }, Fixed { raw: 0 }),
            Fixed { raw: 65536 },
            Some(
                Material::Metal(
                    Metal {
                        albedo: Vec3::new(
                            Fixed { raw: 45875 },
                            Fixed { raw: 39321 },
                            Fixed { raw: 32768 },
                        ),
                        fuzz: Fixed { raw: 0 },
                    },
                ),
            ),
        ),
    );
    proof {
        assert forall|i: int|
            0 <= i < world.objects@.len() implies (#[trigger] world.objects@[i]).material
            is Some by {}
        assert forall|i: int|
            1 <= i < world.objects@.len() - 3 implies grid_sphere_ok(
            #[trigger] world.objects@[i],
        ) by {}
    }
    world
}

} // verus!
