//! Tests of intersection, materials, the camera, the integrator, and the
//! textual image output.

use hkdray::camera::Camera;
use hkdray::fixed::Real;
use hkdray::hit::{hit_sphere, HitRecord, Hittable, HittableList, Sphere};
use hkdray::integrator::ray_color;
use hkdray::material::{Dielectric, Lambertian, Material, MaterialKind, Metal};
use hkdray::ppm::{render, write_color};
use hkdray::ray::Ray;
use hkdray::rng::{random_double, random_in_hemisphere, random_unit_vector, rng_from_seed};
use hkdray::vec3::{Color, Point3, Vec3};

fn w3(x: i64, y: i64, z: i64) -> Vec3 {
    Vec3::new(Real::from_int(x), Real::from_int(y), Real::from_int(z))
}

fn r3(x: i64, y: i64, z: i64) -> Vec3 {
    Vec3::new(Real::from_raw(x), Real::from_raw(y), Real::from_raw(z))
}

fn gray() -> MaterialKind {
    MaterialKind::Lambertian(Lambertian::new(r3(500_000, 500_000, 500_000)))
}

#[test]
fn test_vector_laws_on_samples() {
    // Addition commutes and swapping a subtraction negates it, exactly.
    let a = r3(1_234_567, -7_000_001, 42);
    let b = r3(-999_999, 123, 8_000_000);
    assert_eq!(a.add(&b), b.add(&a));
    assert_eq!(a.sub(&b), b.sub(&a).neg());
    // The dot of a vector with itself is its squared length.
    assert_eq!(a.dot(&a), a.length_squared());
    // Attenuating a color with channels in [0, 1] keeps it in [0, 1].
    let att = r3(800_000, 1_000_000, 0);
    let c = r3(500_000, 999_999, 1_000_000);
    let prod = att.mul(&c);
    for ch in [prod.x, prod.y, prod.z] {
        assert!(0 <= ch.raw() && ch.raw() <= 1_000_000);
    }
}

#[test]
fn test_cross_right_handed() {
    let x = w3(1, 0, 0);
    let y = w3(0, 1, 0);
    assert_eq!(x.cross(&y), w3(0, 0, 1));
    assert_eq!(y.cross(&x), w3(0, 0, -1));
}

#[test]
fn test_unit_vector_exact() {
    // A 3-4-5 triple normalizes exactly on the fixed-point grid.
    let v = w3(0, 3, 4);
    let u = v.unit_vector();
    assert_eq!(u, r3(0, 600_000, 800_000));
    assert_eq!(u.length(), Real::one());
}

#[test]
fn test_near_zero() {
    assert!(w3(0, 0, 0).is_near_zero());
    assert!(!r3(0, 0, 1).is_near_zero());
    assert!(!w3(1, 0, 0).is_near_zero());
}

#[test]
fn test_sphere_direct_hit_distance() {
    // From the origin straight at a sphere 2 units away with radius 1:
    // the hit parameter is the distance to the surface.
    let ray = Ray::new(w3(0, 0, 0), w3(0, 0, -1));
    let sphere = Sphere::new(w3(0, 0, -2), Real::from_int(1), gray());
    let rec = sphere.hit(&ray, Real::from_raw(1_000), Real::from_int(1_000_000)).unwrap();
    assert_eq!(rec.t, Real::from_int(1));
    assert!(rec.front_face);
    // The surface normal at the near pole faces the camera.
    assert_eq!(rec.normal, w3(0, 0, 1));
    assert_eq!(rec.p, w3(0, 0, -1));
}

#[test]
fn test_sphere_miss() {
    // Perpendicular offset 3 exceeds radius 1: no intersection.
    let ray = Ray::new(w3(0, 0, 0), w3(0, 0, -1));
    let sphere = Sphere::new(w3(3, 0, -2), Real::from_int(1), gray());
    assert!(sphere.hit(&ray, Real::from_raw(1_000), Real::from_int(1_000_000)).is_none());
}

#[test]
fn test_sphere_hit_from_inside() {
    // A ray starting at the center reports the far root ahead of it, not
    // the negative near root, and the normal is flipped inward.
    let ray = Ray::new(w3(0, 0, 0), w3(0, 0, -1));
    let sphere = Sphere::new(w3(0, 0, 0), Real::from_int(1), gray());
    let rec = sphere.hit(&ray, Real::from_raw(1_000), Real::from_int(1_000_000)).unwrap();
    assert_eq!(rec.t, Real::from_int(1));
    assert!(!rec.front_face);
    assert_eq!(rec.normal, w3(0, 0, 1));
}

#[test]
fn test_normal_opposes_ray() {
    // Whatever face is hit, direction . normal <= 0.
    let t_min = Real::from_raw(1_000);
    let t_max = Real::from_int(1_000_000);
    let sphere = Sphere::new(w3(0, 0, -2), Real::from_int(1), gray());
    let rays = [
        Ray::new(w3(0, 0, 0), w3(0, 0, -1)),
        Ray::new(w3(0, 0, -2), w3(0, 0, -1)),
        Ray::new(r3(200_000, -300_000, 0), r3(-100_000, 150_000, -1_000_000)),
    ];
    for ray in rays.iter() {
        if let Some(rec) = sphere.hit(ray, t_min, t_max) {
            assert!(ray.direction().dot(&rec.normal).raw() <= 0);
        }
    }
}

#[test]
fn test_hit_sphere_near_root() {
    let ray = Ray::new(w3(0, 0, 0), w3(0, 0, -1));
    let t = hit_sphere(&w3(0, 0, -2), Real::from_int(1), &ray).unwrap();
    assert_eq!(t, Real::from_int(1));
    assert!(hit_sphere(&w3(3, 0, -2), Real::from_int(1), &ray).is_none());
}

#[test]
fn test_list_reports_nearest() {
    let t_min = Real::from_raw(1_000);
    let t_max = Real::from_int(1_000_000);
    let ray = Ray::new(w3(0, 0, 0), w3(0, 0, -1));
    let near = Sphere::new(w3(0, 0, -2), Real::from_raw(500_000), gray());
    let far = Sphere::new(w3(0, 0, -5), Real::from_raw(500_000), gray());

    let mut world = HittableList::new();
    world.add(near);
    world.add(far);
    let rec = world.hit(&ray, t_min, t_max).unwrap();
    assert_eq!(rec.t, Real::from_raw(1_500_000));

    // Insertion order does not change which intersection is reported.
    let mut reversed = HittableList::new();
    reversed.add(far);
    reversed.add(near);
    let rec2 = reversed.hit(&ray, t_min, t_max).unwrap();
    assert_eq!(rec2.t, Real::from_raw(1_500_000));

    reversed.clear();
    assert!(reversed.hit(&ray, t_min, t_max).is_none());
}

#[test]
fn test_lambertian_scatter() {
    let mut rng = rng_from_seed(7);
    let albedo = r3(700_000, 300_000, 300_000);
    let mat = Lambertian::new(albedo);
    let ray = Ray::new(w3(0, 0, 0), w3(0, 0, -1));
    let rec = HitRecord::new(
        Real::from_int(1),
        w3(0, 0, -1),
        &ray,
        w3(0, 0, 1),
        MaterialKind::Lambertian(mat),
    );
    for _ in 0..50 {
        let res = mat.scatter(&ray, &rec, &mut rng);
        assert!(res.did_scatter);
        assert_eq!(res.attenuation, albedo);
        assert_eq!(res.scattered.origin(), rec.p);
    }
}

#[test]
fn test_metal_mirror_law() {
    // With zero fuzz the scattered direction is exactly d - 2 (d . n) n.
    let mut rng = rng_from_seed(11);
    let albedo = r3(800_000, 800_000, 800_000);
    let mat = Metal::new(albedo, Real::zero());
    let ray = Ray::new(w3(0, 1, 0), w3(0, -1, 0));
    let rec = HitRecord::new(
        Real::from_int(1),
        w3(0, 0, 0),
        &ray,
        w3(0, 1, 0),
        MaterialKind::Metal(mat),
    );
    let res = mat.scatter(&ray, &rec, &mut rng);
    assert!(res.did_scatter);
    assert_eq!(res.attenuation, albedo);
    assert_eq!(res.scattered.direction(), w3(0, 1, 0));
}

#[test]
fn test_metal_grazing_absorbed() {
    // A grazing mirror reflection does not leave the surface: absorbed.
    let mut rng = rng_from_seed(13);
    let mat = Metal::new(r3(800_000, 800_000, 800_000), Real::zero());
    let ray = Ray::new(w3(-1, 0, 0), w3(1, 0, 0));
    let rec = HitRecord::new(
        Real::from_int(1),
        w3(0, 0, 0),
        &ray,
        w3(0, 1, 0),
        MaterialKind::Metal(mat),
    );
    let res = mat.scatter(&ray, &rec, &mut rng);
    assert!(!res.did_scatter);
}

#[test]
fn test_metal_fuzz_clamped() {
    let m = Metal::new(r3(1, 1, 1), Real::from_int(5));
    assert_eq!(m.fuzz, Real::one());
    let m2 = Metal::new(r3(1, 1, 1), Real::from_raw(300_000));
    assert_eq!(m2.fuzz, Real::from_raw(300_000));
    // A negative fuzz is clamped up to zero.
    let m3 = Metal::new(r3(1, 1, 1), Real::from_int(-2));
    assert_eq!(m3.fuzz, Real::zero());
}

#[test]
fn test_dielectric_mostly_refracts() {
    // Near-normal incidence with an index close to one refracts nearly
    // always; count over many trials.
    let mut rng = rng_from_seed(17);
    let mat = Dielectric::new(Real::from_raw(1_100_000));
    let ray = Ray::new(w3(0, 0, 0), w3(0, 0, -1));
    let rec = HitRecord::new(
        Real::from_int(1),
        w3(0, 0, -1),
        &ray,
        w3(0, 0, 1),
        MaterialKind::Dielectric(mat),
    );
    let mut refracted: u32 = 0;
    for _ in 0..1000 {
        let res = mat.scatter(&ray, &rec, &mut rng);
        assert!(res.did_scatter);
        assert_eq!(res.attenuation, w3(1, 1, 1));
        if res.scattered.direction().z.raw() < 0 {
            refracted += 1;
        }
    }
    assert!(refracted >= 900, "refracted only {} of 1000", refracted);
}

#[test]
fn test_dielectric_total_internal_reflection() {
    // Inside the denser medium at a steep angle, Snell's law has no
    // solution and the ray must reflect: (0.8, -0.6, 0) off the inner
    // face y = 0 comes back as (0.8, 0.6, 0).
    let mut rng = rng_from_seed(19);
    let mat = Dielectric::new(Real::from_raw(1_500_000));
    let ray = Ray::new(w3(0, 1, 0), r3(800_000, -600_000, 0));
    let rec = HitRecord::new(
        Real::from_int(1),
        w3(0, 0, 0),
        &ray,
        w3(0, -1, 0),
        MaterialKind::Dielectric(mat),
    );
    assert!(!rec.front_face);
    let res = mat.scatter(&ray, &rec, &mut rng);
    assert!(res.did_scatter);
    assert_eq!(res.scattered.direction(), r3(800_000, 600_000, 0));
}

#[test]
fn test_schlick_at_normal_incidence() {
    // At cos = 1 the angular term vanishes and only r0 remains:
    // ((1 - 1.5) / (1 + 1.5))^2 = 0.04.
    let mat = Dielectric::new(Real::from_raw(1_500_000));
    let r = mat.reflectance(Real::one(), Real::from_raw(1_500_000));
    assert_eq!(r, Real::from_raw(40_000));
}

#[test]
fn test_camera_geometry() {
    // Aspect 1, viewport height 2, focal length 1: the lower-left corner
    // is (-1, -1, -1) and the center ray looks straight down -z.
    let camera = Camera::new(Real::from_int(1), Real::from_int(2), Real::from_int(1));
    let corner = camera.get_ray(Real::zero(), Real::zero());
    assert_eq!(corner.origin(), w3(0, 0, 0));
    assert_eq!(corner.direction(), w3(-1, -1, -1));
    let center = camera.get_ray(Real::from_raw(500_000), Real::from_raw(500_000));
    assert_eq!(center.direction(), w3(0, 0, -1));
}

#[test]
fn test_ray_color_depth_zero_black() {
    let mut rng = rng_from_seed(23);
    let mut world = HittableList::new();
    world.add(Sphere::new(w3(0, 0, -1), Real::from_raw(500_000), gray()));
    let ray = Ray::new(w3(0, 0, 0), w3(0, 0, -1));
    let c = ray_color(&ray, &world, 0, &mut rng);
    assert_eq!(c, w3(0, 0, 0));
}

#[test]
fn test_ray_color_background_gradient() {
    let mut rng = rng_from_seed(29);
    let world = HittableList::new();
    // Straight up: the gradient parameter is one, giving pure sky blue.
    let up = Ray::new(w3(0, 0, 0), w3(0, 1, 0));
    let c = ray_color(&up, &world, 5, &mut rng);
    assert_eq!(c, r3(500_000, 700_000, 1_000_000));
    // Straight down: the parameter is zero, giving pure white.
    let down = Ray::new(w3(0, 0, 0), w3(0, -1, 0));
    let c2 = ray_color(&down, &world, 5, &mut rng);
    assert_eq!(c2, w3(1, 1, 1));
    // Slanted: every channel between the sky value and white.
    let slant = Ray::new(w3(0, 0, 0), w3(1, 1, -1));
    let c3 = ray_color(&slant, &world, 5, &mut rng);
    assert!(500_000 <= c3.x.raw() && c3.x.raw() <= 1_000_000);
    assert!(700_000 <= c3.y.raw() && c3.y.raw() <= 1_000_000);
    assert_eq!(c3.z.raw(), 1_000_000);
}

#[test]
fn test_end_to_end_single_sphere() {
    // One sphere of radius 0.5 at (0, 0, -1), camera at the origin looking
    // down -z: the center pixel hits (non-background), the corners see the
    // background gradient.
    let mut rng = rng_from_seed(31);
    let mut world = HittableList::new();
    world.add(Sphere::new(w3(0, 0, -1), Real::from_raw(500_000), gray()));
    let camera = Camera::new(Real::from_int(1), Real::from_int(2), Real::from_int(1));
    let empty = HittableList::new();

    let half = Real::from_raw(500_000);
    let center_ray = camera.get_ray(half, half);
    let center = ray_color(&center_ray, &world, 1, &mut rng);
    let center_background = ray_color(&center_ray, &empty, 1, &mut rng);
    assert_ne!(center, center_background);
    // With a single unit of depth the bounce is already exhausted, so a
    // hit pixel is black.
    assert_eq!(center, w3(0, 0, 0));

    let corners = [
        (Real::zero(), Real::zero()),
        (Real::one(), Real::zero()),
        (Real::zero(), Real::one()),
        (Real::one(), Real::one()),
    ];
    for (u, v) in corners.iter() {
        let ray = camera.get_ray(*u, *v);
        let c = ray_color(&ray, &world, 1, &mut rng);
        let background = ray_color(&ray, &empty, 1, &mut rng);
        assert_eq!(c, background);
    }
}

#[test]
fn test_write_color_gamma_and_clamp() {
    // 0.25 averages to itself, gamma-corrects to 0.5, and scales to 128;
    // 1.0 clamps to 0.999 and scales to 255; a negative channel floors at 0.
    let c = Color::new(Real::from_raw(250_000), Real::from_int(-1), Real::one());
    let line = write_color(&c, 1);
    assert_eq!(line, "128 0 255\n");
}

#[test]
fn test_write_color_averages_samples() {
    // Four samples summing to 1.0 average to 0.25 per sample.
    let c = Color::new(Real::one(), Real::zero(), Real::zero());
    let line = write_color(&c, 4);
    assert_eq!(line, "128 0 0\n");
}

#[test]
fn test_render_two_by_two_format() {
    let mut rng = rng_from_seed(37);
    let mut world = HittableList::new();
    world.add(Sphere::new(w3(0, 0, -1), Real::from_raw(500_000), gray()));
    let camera = Camera::new(Real::from_int(1), Real::from_int(2), Real::from_int(1));
    let out = render(&world, &camera, 2, 2, 1, 2, &mut rng);

    let lines: Vec<&str> = out.split('\n').collect();
    // Three header lines, four pixel lines, and the empty tail after the
    // final line break.
    assert_eq!(lines.len(), 8);
    assert_eq!(lines[0], "P3");
    assert_eq!(lines[1], "2 2");
    assert_eq!(lines[2], "255");
    assert_eq!(lines[7], "");
    for row in lines[3..7].iter() {
        let fields: Vec<&str> = row.split(' ').collect();
        assert_eq!(fields.len(), 3);
        for f in fields.iter() {
            let v: i64 = f.parse().unwrap();
            assert!(0 <= v && v <= 255);
        }
    }
}

#[test]
fn test_random_double_range() {
    // Draws stay strictly inside [min, max) and vary; a source that
    // returned its bound unchanged would fail both.
    let mut rng = rng_from_seed(41);
    let min = Real::zero();
    let max = Real::one();
    let mut seen_distinct = false;
    let mut last: Option<Real> = None;
    for _ in 0..100 {
        let r = random_double(min, max, &mut rng);
        assert!(min.raw() <= r.raw());
        assert!(r.raw() < max.raw());
        if let Some(prev) = last {
            if prev != r {
                seen_distinct = true;
            }
        }
        last = Some(r);
    }
    assert!(seen_distinct);
}

#[test]
fn test_random_unit_vector_length() {
    // The contract bounds the squared length within 2e-5 of one.
    let mut rng = rng_from_seed(43);
    for _ in 0..200 {
        let u = random_unit_vector(&mut rng);
        let len2 = u.length_squared().raw();
        assert!(999_991 <= len2 && len2 <= 1_000_020, "len2 = {}", len2);
        let len = u.length().raw();
        assert!(999_995 <= len && len <= 1_000_010, "len = {}", len);
    }
}

#[test]
fn test_random_in_hemisphere() {
    let mut rng = rng_from_seed(47);
    let normal = w3(0, 1, 0);
    for _ in 0..50 {
        let v = random_in_hemisphere(&normal, &mut rng);
        assert!(v.dot(&normal).raw() >= 0);
        assert!(v.length_squared().raw() < 1_000_000);
    }
}

#[test]
fn test_unit_vector_tolerance() {
    // (1,1,1) does not normalize exactly, but the squared length of the
    // unit vector stays within ten raw units (1e-5) of one.
    let v = w3(1, 1, 1);
    let u = v.unit_vector();
    let len2 = u.length_squared().raw();
    assert!((len2 - 1_000_000).abs() <= 10, "len2 = {}", len2);
    assert_eq!(len2, 999_999);
}

#[test]
fn test_ray_affine_in_whole_steps() {
    // Stepping a whole-number parameter is one step plus a scaled
    // direction, exactly.
    let r = hkdray::ray::Ray::new(w3(5, -2, 0), w3(3, 7, -4));
    let lhs = r.at(Real::from_int(3));
    let rhs = r.at(Real::from_int(1)).add(&r.direction().scale(Real::from_int(2)));
    assert_eq!(lhs, rhs);
}
