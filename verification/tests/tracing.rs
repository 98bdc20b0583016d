use raytracer::camera::Camera;
use raytracer::fixed::Fixed;
use raytracer::hittable::{HitRecord, Hittable};
use raytracer::hittable_list::{random_scene, HittableList};
use raytracer::materials::{Dielectric, Lambertian, Material, Metal};
use raytracer::ray::Ray;
use raytracer::render::{pixel_channels, ray_color};
use raytracer::sphere::Sphere;
use raytracer::vec3::Vec3;

fn v(x: i32, y: i32, z: i32) -> Vec3 {
    Vec3::new(Fixed::from_int(x), Fixed::from_int(y), Fixed::from_int(z))
}

fn vr(x: i64, y: i64, z: i64) -> Vec3 {
    Vec3::new(Fixed { raw: x }, Fixed { raw: y }, Fixed { raw: z })
}

fn gray() -> Material {
    Material::Lambertian(Lambertian { albedo: vr(32768, 32768, 32768) })
}

/// The two-sphere scene of the end-to-end scenario: a small sphere of
/// radius 0.5 at (0,0,-1) over a ground sphere of radius 100 at
/// (0,-100.5,-1).
fn two_sphere_scene() -> HittableList {
    let mut world = HittableList::new();
    world.add(Sphere::new(vr(0, 0, -65536), Fixed { raw: 32768 }, Some(gray())));
    world.add(Sphere::new(
        vr(0, -6586368, -65536),
        Fixed { raw: 6553600 },
        Some(gray()),
    ));
    world
}

/// The straight-down-the-z-axis camera of the end-to-end scenario.
fn straight_camera() -> Camera {
    Camera::new(
        v(0, 0, 0),
        v(0, 0, -1),
        v(0, 1, 0),
        Fixed { raw: 65536 },
        Fixed { raw: 116508 },
        Fixed { raw: 0 },
        Fixed { raw: 65536 },
    )
}

#[test]
fn test_sphere_hit_center_ray() {
    // The analytic hit parameter matches the quadratic-formula root
    // exactly: a=1, half_b=-1, c=0.75, disc=0.25, t=(1-0.5)/1=0.5.
    let sphere = Sphere::new(vr(0, 0, -65536), Fixed { raw: 32768 }, Some(gray()));
    let ray = Ray::new(v(0, 0, 0), v(0, 0, -1));
    let mut rec = HitRecord::new();
    let hit = sphere.hit(&ray, Fixed { raw: 66 }, Fixed { raw: 0x1000000000 }, &mut rec);
    assert!(hit);
    assert_eq!(rec.t, Fixed { raw: 32768 });
    assert_eq!(rec.p, vr(0, 0, -32768));
    assert_eq!(rec.normal, vr(0, 0, 65536));
    assert!(rec.front_face);
    // The front-face convention: the stored normal points against the ray.
    assert!(ray.direction.dot(&rec.normal).raw < 0);
}

#[test]
fn test_sphere_hit_quadratic_roots() {
    // The same parameters, recomputed through the public scalar
    // operations: t == (-half_b - sqrt(half_b^2 - a*c)) / a.
    let ray = Ray::new(v(0, 0, 0), v(0, 0, -1));
    let center = vr(0, 0, -65536);
    let radius = Fixed { raw: 32768 };
    let oc = ray.origin.sub(center);
    let a = ray.direction.length_squared();
    let half_b = oc.dot(&ray.direction);
    let c = oc.length_squared().sub(radius.mul(radius));
    let disc = half_b.mul(half_b).sub(a.mul(c));
    assert!(disc.raw > 0);
    let t = half_b.neg().sub(disc.sqrt()).div(a);
    assert_eq!(t, Fixed { raw: 32768 });
}

#[test]
fn test_sphere_miss_and_range() {
    let sphere = Sphere::new(vr(0, 0, -65536), Fixed { raw: 32768 }, Some(gray()));
    // A ray pointing away misses.
    let ray = Ray::new(v(0, 0, 0), v(0, 1, 0));
    let mut rec = HitRecord::new();
    assert!(!sphere.hit(&ray, Fixed { raw: 66 }, Fixed { raw: 0x1000000000 }, &mut rec));
    // A hit outside (t_min, t_max) is rejected and the record untouched.
    let ray = Ray::new(v(0, 0, 0), v(0, 0, -1));
    let before = rec.t;
    assert!(!sphere.hit(&ray, Fixed { raw: 66 }, Fixed { raw: 16384 }, &mut rec));
    assert_eq!(rec.t, before);
}

#[test]
fn test_hollow_sphere_negative_radius() {
    // A negative radius flips the outward normal, so the same ray strikes
    // an inner surface: not a front face, and the stored normal still
    // points against the ray.
    let sphere = Sphere::new(vr(0, 0, -65536), Fixed { raw: -32768 }, Some(gray()));
    let ray = Ray::new(v(0, 0, 0), v(0, 0, -1));
    let mut rec = HitRecord::new();
    assert!(sphere.hit(&ray, Fixed { raw: 66 }, Fixed { raw: 0x1000000000 }, &mut rec));
    assert_eq!(rec.t, Fixed { raw: 32768 });
    assert!(!rec.front_face);
    assert_eq!(rec.normal, vr(0, 0, 65536));
}

#[test]
fn test_scene_keeps_closest_hit() {
    let mut world = HittableList::new();
    world.add(Sphere::new(vr(0, 0, -131072), Fixed { raw: 32768 }, Some(gray())));
    let near_metal = Material::Metal(Metal { albedo: vr(65536, 65536, 65536), fuzz: Fixed { raw: 0 } });
    world.add(Sphere::new(vr(0, 0, -65536), Fixed { raw: 16384 }, Some(near_metal)));
    let ray = Ray::new(v(0, 0, 0), v(0, 0, -1));
    let mut rec = HitRecord::new();
    assert!(world.hit(&ray, Fixed { raw: 66 }, Fixed { raw: 0x1000000000 }, &mut rec));
    // The nearer sphere (t = 0.75) wins over the farther one (t = 1.5).
    assert_eq!(rec.t, Fixed { raw: 49152 });
    assert!(matches!(rec.material, Some(Material::Metal(_))));
}

#[test]
fn test_hittable_trait_dispatch() {
    // The same intersection is reachable through the polymorphic
    // capability, for a single sphere and for a whole scene.
    let sphere = Sphere::new(vr(0, 0, -65536), Fixed { raw: 32768 }, Some(gray()));
    let ray = Ray::new(v(0, 0, 0), v(0, 0, -1));
    let mut rec = HitRecord::new();
    assert!(<Sphere as Hittable>::hit(
        &sphere,
        &ray,
        Fixed { raw: 66 },
        Fixed { raw: 0x1000000000 },
        &mut rec,
    ));
    assert_eq!(rec.t, Fixed { raw: 32768 });
    let world = two_sphere_scene();
    let mut rec2 = HitRecord::new();
    assert!(<HittableList as Hittable>::hit(
        &world,
        &ray,
        Fixed { raw: 66 },
        Fixed { raw: 0x1000000000 },
        &mut rec2,
    ));
    assert_eq!(rec2.t, rec.t);
}

#[test]
fn test_metal_mirror_reflection() {
    // Zero fuzz: the scattered direction is the exact geometric reflection
    // of the unit incoming direction about the normal.
    let metal = Metal { albedo: vr(45875, 39321, 32768), fuzz: Fixed { raw: 0 } };
    let mut rec = HitRecord::new();
    rec.p = vr(0, 0, -32768);
    rec.normal = vr(0, 0, 65536);
    rec.front_face = true;
    let r_in = Ray::new(v(0, 0, 0), v(0, 0, -1));
    let mut attenuation = Vec3::zero();
    let mut scattered = Ray::new(Vec3::zero(), Vec3::zero());
    let scattered_ok = metal.scatter(&r_in, &rec, &mut attenuation, &mut scattered);
    assert!(scattered_ok);
    assert_eq!(attenuation, vr(45875, 39321, 32768));
    assert_eq!(scattered.origin, rec.p);
    assert_eq!(scattered.direction, vr(0, 0, 65536));
}

#[test]
fn test_metal_absorbs_grazing_reflection() {
    // A fuzz-free reflection parallel to the surface does not count as a
    // scatter.
    let metal = Metal { albedo: vr(65536, 65536, 65536), fuzz: Fixed { raw: 0 } };
    let mut rec = HitRecord::new();
    rec.p = vr(0, 0, 0);
    rec.normal = vr(0, 0, 65536);
    rec.front_face = true;
    let r_in = Ray::new(v(0, 0, 1), v(0, 1, 0));
    let mut attenuation = Vec3::zero();
    let mut scattered = Ray::new(Vec3::zero(), Vec3::zero());
    assert!(!metal.scatter(&r_in, &rec, &mut attenuation, &mut scattered));
}

#[test]
fn test_lambertian_always_scatters() {
    let matte = Lambertian { albedo: vr(26214, 13107, 6553) };
    let mut rec = HitRecord::new();
    rec.p = vr(0, 0, -32768);
    rec.normal = vr(0, 0, 65536);
    rec.front_face = true;
    let r_in = Ray::new(v(0, 0, 0), v(0, 0, -1));
    let mut attenuation = Vec3::zero();
    let mut scattered = Ray::new(Vec3::zero(), Vec3::zero());
    assert!(matte.scatter(&r_in, &rec, &mut attenuation, &mut scattered));
    assert_eq!(attenuation, vr(26214, 13107, 6553));
    assert_eq!(scattered.origin, rec.p);
    // The direction is the normal plus a vector of roughly unit length.
    let drawn = scattered.direction.sub(rec.normal);
    assert!(65529 <= drawn.length_squared().raw && drawn.length_squared().raw <= 65550);
}

#[test]
fn test_metal_fuzzed_reflection_stays_near_mirror() {
    // With fuzz 0.5 the scattered direction is the exact reflection plus a
    // half-scaled point of the unit sphere, so it stays within about one
    // half of the mirror direction.
    let metal = Metal { albedo: vr(65536, 65536, 65536), fuzz: Fixed { raw: 32768 } };
    let mut rec = HitRecord::new();
    rec.p = vr(0, 0, -32768);
    rec.normal = vr(0, 0, 65536);
    rec.front_face = true;
    let r_in = Ray::new(v(0, 0, 0), v(0, 0, -1));
    let mirror = vr(0, 0, 65536);
    for _ in 0..16 {
        let mut attenuation = Vec3::zero();
        let mut scattered = Ray::new(Vec3::zero(), Vec3::zero());
        metal.scatter(&r_in, &rec, &mut attenuation, &mut scattered);
        let wobble = scattered.direction.sub(mirror);
        assert!(wobble.length().raw <= 32800);
    }
}

#[test]
fn test_dielectric_normal_incidence_refracts_collinearly() {
    // Matching refractive indices at normal incidence: the Schlick
    // reflectance is zero, so the dielectric always refracts, and the
    // refracted ray is collinear with the incoming one.
    let glass = Dielectric { ref_idx: Fixed { raw: 65536 } };
    let mut rec = HitRecord::new();
    rec.p = vr(0, 0, -32768);
    rec.normal = vr(0, 0, 65536);
    rec.front_face = true;
    let r_in = Ray::new(v(0, 0, 0), v(0, 0, -1));
    let mut attenuation = Vec3::zero();
    let mut scattered = Ray::new(Vec3::zero(), Vec3::zero());
    assert!(glass.scatter(&r_in, &rec, &mut attenuation, &mut scattered));
    assert_eq!(attenuation, vr(65536, 65536, 65536));
    assert_eq!(scattered.direction, vr(0, 0, -65536));
}

#[test]
fn test_dielectric_total_internal_reflection() {
    // Inside glass at 45 degrees the critical angle is exceeded, so the
    // ray must reflect: the scattered direction is the exact reflection of
    // the unit incoming direction.
    let glass = Dielectric { ref_idx: Fixed { raw: 98304 } };
    let mut rec = HitRecord::new();
    rec.p = vr(0, 0, 0);
    rec.normal = vr(0, 65536, 0);
    rec.front_face = false;
    let r_in = Ray::new(v(0, 1, 0), v(1, -1, 0));
    let mut attenuation = Vec3::zero();
    let mut scattered = Ray::new(Vec3::zero(), Vec3::zero());
    assert!(glass.scatter(&r_in, &rec, &mut attenuation, &mut scattered));
    assert_eq!(scattered.direction, vr(46341, 46341, 0));
}

#[test]
fn test_ray_color_depth_zero_black() {
    // The bounce limit returns exactly black, whatever the scene or ray.
    let world = two_sphere_scene();
    let ray = Ray::new(v(0, 3, 7), v(0, 0, -1));
    assert_eq!(ray_color(&ray, &world, 0), v(0, 0, 0));
    let empty = HittableList::new();
    let ray = Ray::new(v(0, 0, 0), v(0, 1, 0));
    assert_eq!(ray_color(&ray, &empty, 0), v(0, 0, 0));
}

#[test]
fn test_ray_color_sky_gradient_ends() {
    let empty = HittableList::new();
    // Straight up: pure sky-blue.
    let up = Ray::new(v(0, 0, 0), v(0, 1, 0));
    assert_eq!(ray_color(&up, &empty, 8), vr(32768, 45875, 65536));
    // Straight down: pure white.
    let down = Ray::new(v(0, 0, 0), v(0, -1, 0));
    assert_eq!(ray_color(&down, &empty, 8), vr(65536, 65536, 65536));
}

#[test]
fn test_scenario_center_and_corner_pixels() {
    // The end-to-end scenario: at the image center the foreground sphere's
    // material decides the color (with one bounce the matte sphere absorbs
    // into black), while the corners show the exact sky gradient.
    let world = two_sphere_scene();
    let cam = straight_camera();
    let half = Fixed { raw: 32768 };

    let center = cam.get_ray(half, half);
    assert_eq!(center.origin, v(0, 0, 0));
    assert_eq!(center.direction, vr(0, 0, -65536));
    let center_color = ray_color(&center, &world, 1);
    assert_eq!(center_color, v(0, 0, 0));
    // The sky would have been non-black for the same ray over an empty
    // scene: the sphere's material dominates the pixel.
    let empty = HittableList::new();
    assert_eq!(ray_color(&center, &empty, 1), vr(49152, 55705, 65536));

    let top_left = cam.get_ray(Fixed { raw: 0 }, Fixed { raw: 65536 });
    assert_eq!(top_left.direction, vr(-116508, 65536, -65536));
    assert_eq!(ray_color(&top_left, &world, 8), vr(41940, 51378, 65536));

    let top_right = cam.get_ray(Fixed { raw: 65536 }, Fixed { raw: 65536 });
    assert_eq!(top_right.direction, vr(116508, 65536, -65536));
    assert_eq!(ray_color(&top_right, &world, 8), vr(41940, 51378, 65536));
}

#[test]
fn test_pixel_channels_quantization() {
    // One sample: a full channel clamps below 0.999 and quantizes to 255;
    // a quarter gamma-corrects to one half, then 128; zero stays 0.
    let pixel = vr(65536, 16384, 0);
    assert_eq!(pixel_channels(&pixel, 1), (255, 128, 0));
    // Four samples of a half-intensity channel average back to one half.
    let accumulated = vr(131072, 0, 65536 * 4);
    assert_eq!(pixel_channels(&accumulated, 4), (181, 0, 255));
}

#[test]
fn test_random_scene_layout() {
    let world = random_scene();
    let n = world.objects.len();
    assert!(n >= 4);
    // The ground sphere comes first.
    assert_eq!(world.objects[0].center, vr(0, -65536000, 0));
    assert_eq!(world.objects[0].radius, Fixed { raw: 65536000 });
    assert!(matches!(world.objects[0].material, Some(Material::Lambertian(_))));
    // The three large spheres come last: glass, matte, metal.
    assert!(matches!(world.objects[n - 3].material, Some(Material::Dielectric(_))));
    assert!(matches!(world.objects[n - 2].material, Some(Material::Lambertian(_))));
    match world.objects[n - 1].material {
        Some(Material::Metal(m)) => {
            assert_eq!(m.fuzz, Fixed { raw: 0 });
        },
        _ => panic!("the last sphere is polished metal"),
    }
    assert!(n <= 488);
    // Every small sphere sits on its jittered grid cell with radius 0.2,
    // a material of one of the three drawn kinds, and a clear spot around
    // the metal sphere.
    for i in 1..n - 3 {
        let s = &world.objects[i];
        assert_eq!(s.radius, Fixed { raw: 13107 });
        assert_eq!(s.center.y, Fixed { raw: 13107 });
        assert!(-720896 <= s.center.x.raw && s.center.x.raw < 720896);
        assert!((s.center.x.raw + 720896) % 65536 < 58982);
        match s.material {
            Some(Material::Lambertian(l)) => {
                assert!(0 <= l.albedo.x.raw && l.albedo.x.raw < 65536);
            },
            Some(Material::Metal(m)) => {
                assert!(32768 <= m.albedo.x.raw && m.albedo.x.raw < 65536);
                assert!(0 <= m.fuzz.raw && m.fuzz.raw < 32768);
            },
            Some(Material::Dielectric(d)) => {
                assert_eq!(d.ref_idx, Fixed { raw: 98304 });
            },
            None => panic!("every member carries a material"),
        }
    }
}

#[test]
fn test_camera_lens_jitter_keeps_focus_point() {
    // With a positive aperture the origin jitters, but origin plus
    // direction is always the same exact focus-plane point.
    let cam = Camera::new(
        v(13, 2, 3),
        v(0, 0, 0),
        v(0, 1, 0),
        Fixed { raw: 11556 },
        Fixed { raw: 116508 },
        Fixed { raw: 6553 },
        Fixed { raw: 655360 },
    );
    let s = Fixed { raw: 20000 };
    let t = Fixed { raw: 40000 };
    let first = cam.get_ray(s, t);
    let focus = first.origin.add(first.direction);
    for _ in 0..8 {
        let r = cam.get_ray(s, t);
        assert_eq!(r.origin.add(r.direction), focus);
    }
}

#[test]
fn test_camera_lens_jitter_stays_bounded() {
    let cam = Camera::new(
        v(13, 2, 3),
        v(0, 0, 0),
        v(0, 1, 0),
        Fixed { raw: 11556 },
        Fixed { raw: 116508 },
        Fixed { raw: 6553 },
        Fixed { raw: 655360 },
    );
    for _ in 0..16 {
        let r = cam.get_ray(Fixed { raw: 20000 }, Fixed { raw: 40000 });
        assert!(r.origin.x.raw.abs() <= 0x8000000);
        assert!(r.direction.x.raw.abs() <= 0x2000000);
        assert!(r.direction.z.raw.abs() <= 0x2000000);
    }
}
