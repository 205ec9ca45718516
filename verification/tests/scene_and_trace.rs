use rand::SeedableRng;
use raytracer::fixed::FP_ONE;
use raytracer::hit::{HitData, HittableList};
use raytracer::material::lambertian_scatter_direction;
use raytracer::sphere::{random_in_hemisphere, random_vec_in_unit_sphere};
use raytracer::vector3::DotProduct;
use raytracer::material::{Lambertian, Material, Metal};
use raytracer::ray::Ray;
use raytracer::sphere::Sphere;
use raytracer::vector3::Vector3f;

fn gray() -> Material {
    Material::Lambertian(Lambertian::new(Vector3f::new(32768, 32768, 32768)))
}

fn rng() -> rand::rngs::StdRng {
    rand::rngs::StdRng::seed_from_u64(41253)
}

#[test]
fn closest_of_two_overlapping_spheres_wins() {
    // Two overlapping spheres along the ray: the nearer surface, at
    // parameter 1.0, wins over the farther one at 1.5 in either insertion
    // order.
    let near = Sphere::new(Vector3f::new(0, 0, -2 * FP_ONE), FP_ONE, gray()).unwrap();
    let far = Sphere::new(Vector3f::new(0, 0, -(5 * FP_ONE) / 2), FP_ONE, gray()).unwrap();
    let ray = Ray::new(Vector3f::zero(), Vector3f::new(0, 0, -FP_ONE));

    let mut forward = HittableList::new();
    forward.add(near);
    forward.add(far);
    let hit = forward.hit(&ray, 7, 1 << 36).unwrap();
    assert_eq!(hit.t, FP_ONE);

    let mut backward = HittableList::new();
    backward.add(far);
    backward.add(near);
    let hit2 = backward.hit(&ray, 7, 1 << 36).unwrap();
    assert_eq!(hit2.t, FP_ONE);
}

#[test]
fn empty_scene_reports_no_hit() {
    let scene = HittableList::new();
    let ray = Ray::new(Vector3f::zero(), Vector3f::new(0, 0, -FP_ONE));
    assert!(scene.hit(&ray, 7, 1 << 36).is_none());
}

#[test]
fn cleared_scene_reports_no_hit() {
    let mut scene = HittableList::new();
    scene.add(Sphere::new(Vector3f::new(0, 0, -2 * FP_ONE), FP_ONE, gray()).unwrap());
    scene.clear_all();
    let ray = Ray::new(Vector3f::zero(), Vector3f::new(0, 0, -FP_ONE));
    assert!(scene.hit(&ray, 7, 1 << 36).is_none());
}

#[test]
fn exhausted_bounce_budget_returns_black() {
    // Even with a sphere dead ahead, a zero budget resolves to black.
    let mut scene = HittableList::new();
    scene.add(Sphere::new(Vector3f::new(0, 0, -2 * FP_ONE), FP_ONE, gray()).unwrap());
    let ray = Ray::new(Vector3f::zero(), Vector3f::new(0, 0, -FP_ONE));
    let c = ray.find_color_from_ray_in_world(&scene, 0, &mut rng());
    assert_eq!((c.x, c.y, c.z), (0, 0, 0));
}

#[test]
fn empty_scene_returns_sky_gradient() {
    // A horizontal ray has unit height zero, so the blend factor is one
    // half: white and sky blue averaged, rounded down per channel. The
    // result is never black.
    let scene = HittableList::new();
    let ray = Ray::new(Vector3f::zero(), Vector3f::new(0, 0, -FP_ONE));
    let c = ray.find_color_from_ray_in_world(&scene, 16, &mut rng());
    assert_eq!((c.x, c.y, c.z), (49152, 55705, FP_ONE));
}

#[test]
fn empty_scene_sky_depends_on_direction() {
    // Straight up: full sky blue. Straight down: white.
    let scene = HittableList::new();
    let up = Ray::new(Vector3f::zero(), Vector3f::new(0, FP_ONE, 0));
    let cu = up.find_color_from_ray_in_world(&scene, 16, &mut rng());
    assert_eq!((cu.x, cu.y, cu.z), (32768, 45875, FP_ONE));
    let down = Ray::new(Vector3f::zero(), Vector3f::new(0, -FP_ONE, 0));
    let cd = down.find_color_from_ray_in_world(&scene, 16, &mut rng());
    assert_eq!((cd.x, cd.y, cd.z), (FP_ONE, FP_ONE, FP_ONE));
}

#[test]
fn black_albedo_absorbs_everything() {
    // The attenuation law: a hit on a black surface yields black whatever
    // the scattered ray went on to gather.
    let black = Material::Lambertian(Lambertian::new(Vector3f::zero()));
    let mut scene = HittableList::new();
    scene.add(Sphere::new(Vector3f::new(0, 0, -2 * FP_ONE), FP_ONE, black).unwrap());
    let ray = Ray::new(Vector3f::zero(), Vector3f::new(0, 0, -FP_ONE));
    let mut r = rng();
    for _ in 0..16 {
        let c = ray.find_color_from_ray_in_world(&scene, 8, &mut r);
        assert_eq!((c.x, c.y, c.z), (0, 0, 0));
    }
}

#[test]
fn trace_stays_in_unit_interval() {
    let mut scene = HittableList::new();
    scene.add(Sphere::new(Vector3f::new(0, 0, -2 * FP_ONE), FP_ONE, gray()).unwrap());
    scene.add(
        Sphere::new(
            Vector3f::new(0, -6586368, -FP_ONE),
            100 * FP_ONE,
            Material::Metal(Metal::new(Vector3f::new(52428, 52428, 52428), 16384)),
        )
        .unwrap(),
    );
    let ray = Ray::new(Vector3f::zero(), Vector3f::new(13107, -6553, -FP_ONE));
    let mut r = rng();
    for _ in 0..32 {
        let c = ray.find_color_from_ray_in_world(&scene, 16, &mut r);
        assert!(0 <= c.x && c.x <= FP_ONE);
        assert!(0 <= c.y && c.y <= FP_ONE);
        assert!(0 <= c.z && c.z <= FP_ONE);
    }
}

#[test]
fn perfect_mirror_scatter_reflects_exactly() {
    let mirror = Material::Metal(Metal::new_perfect(Vector3f::new(FP_ONE, FP_ONE, FP_ONE)));
    let ray = Ray::new(Vector3f::zero(), Vector3f::new(0, 0, -FP_ONE));
    let hit = HitData::new(
        FP_ONE,
        Vector3f::new(0, 0, -FP_ONE),
        &Vector3f::new(0, 0, -FP_ONE),
        &Vector3f::new(0, 0, FP_ONE),
        mirror,
    );
    let (attenuation, scattered) = mirror.scatter(&ray, &hit, &mut rng());
    assert_eq!((attenuation.x, attenuation.y, attenuation.z), (FP_ONE, FP_ONE, FP_ONE));
    let d = *scattered.direction();
    assert_eq!((d.x, d.y, d.z), (0, 0, FP_ONE));
    let o = *scattered.origin();
    assert_eq!((o.x, o.y, o.z), (0, 0, -FP_ONE));
}

#[test]
fn lambertian_scatter_direction_falls_back_on_cancellation() {
    let normal = Vector3f::new(0, 0, FP_ONE);
    let cancelling = Vector3f::new(0, 0, -FP_ONE);
    let d = lambertian_scatter_direction(&normal, &cancelling);
    assert_eq!((d.x, d.y, d.z), (0, 0, FP_ONE));
    let sample = Vector3f::new(100, -200, 300);
    let d2 = lambertian_scatter_direction(&normal, &sample);
    assert_eq!((d2.x, d2.y, d2.z), (100, -200, FP_ONE + 300));
}

#[test]
fn unit_sphere_samples_stay_inside() {
    let mut r = rng();
    for _ in 0..200 {
        let v = random_vec_in_unit_sphere(&mut r);
        assert!(v.dot(&v) <= FP_ONE * FP_ONE);
    }
    let normal = Vector3f::new(0, 0, FP_ONE);
    for _ in 0..200 {
        let h = random_in_hemisphere(&mut r, &normal);
        assert!(h.dot(&normal) >= 0);
    }
}

#[test]
fn random_vectors_respect_their_ranges() {
    let mut r = rng();
    for _ in 0..50 {
        let v = Vector3f::random(&mut r);
        assert!(0 <= v.x && v.x < FP_ONE);
        assert!(0 <= v.y && v.y < FP_ONE);
        assert!(0 <= v.z && v.z < FP_ONE);
        // The upper end of the range is excluded, and an empty span pins
        // every component.
        let w = Vector3f::random_range(&mut r, -FP_ONE, FP_ONE);
        assert!(-FP_ONE <= w.x && w.x < FP_ONE);
        assert!(-FP_ONE <= w.y && w.y < FP_ONE);
        assert!(-FP_ONE <= w.z && w.z < FP_ONE);
        let p = Vector3f::random_range(&mut r, 42, 42);
        assert_eq!((p.x, p.y, p.z), (42, 42, 42));
    }
}

#[test]
fn metal_perturbation_stays_below_roughness() {
    // A fully rough metal perturbs each reflected component by strictly
    // less than the roughness.
    let rough = Material::Metal(Metal::new(Vector3f::new(FP_ONE, FP_ONE, FP_ONE), FP_ONE));
    let ray = Ray::new(Vector3f::zero(), Vector3f::new(0, 0, -FP_ONE));
    let hit = HitData::new(
        FP_ONE,
        Vector3f::new(0, 0, -FP_ONE),
        &Vector3f::new(0, 0, -FP_ONE),
        &Vector3f::new(0, 0, FP_ONE),
        rough,
    );
    let mut r = rng();
    for _ in 0..50 {
        let (_, scattered) = rough.scatter(&ray, &hit, &mut r);
        let d = *scattered.direction();
        // The exact reflection is (0, 0, FP_ONE).
        assert!(0 <= d.x && d.x < FP_ONE);
        assert!(0 <= d.y && d.y < FP_ONE);
        assert!(FP_ONE <= d.z && d.z < 2 * FP_ONE);
    }
}
