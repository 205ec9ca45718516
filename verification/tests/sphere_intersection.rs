use raytracer::fixed::FP_ONE;
use raytracer::material::{Lambertian, Material};
use raytracer::ray::Ray;
use raytracer::sphere::Sphere;
use raytracer::vector3::Vector3f;

fn gray() -> Material {
    Material::Lambertian(Lambertian::new(Vector3f::new(32768, 32768, 32768)))
}

fn unit_sphere_two_units_ahead() -> Sphere {
    Sphere::new(Vector3f::new(0, 0, -2 * FP_ONE), FP_ONE, gray()).unwrap()
}

#[test]
fn constructor_rejects_nonpositive_radius() {
    assert!(Sphere::new(Vector3f::zero(), 0, gray()).is_none());
    assert!(Sphere::new(Vector3f::zero(), -FP_ONE, gray()).is_none());
    assert!(Sphere::new(Vector3f::zero(), 1, gray()).is_some());
}

#[test]
fn constructor_rejects_malformed_material() {
    let bad = Material::Lambertian(Lambertian::new(Vector3f::new(-1, 0, 0)));
    assert!(Sphere::new(Vector3f::zero(), FP_ONE, bad).is_none());
}

#[test]
fn ray_at_center_hits_smaller_root() {
    // Aimed straight at the center from two units away: the nearer
    // surface is one radius short of the center, at parameter 1.0.
    let sphere = unit_sphere_two_units_ahead();
    let ray = Ray::new(Vector3f::zero(), Vector3f::new(0, 0, -FP_ONE));
    let hit = sphere.hit(&ray, 7, 1 << 36).unwrap();
    assert_eq!(hit.t, FP_ONE);
    assert_eq!((hit.at.x, hit.at.y, hit.at.z), (0, 0, -FP_ONE));
    assert_eq!((hit.normal.x, hit.normal.y, hit.normal.z), (0, 0, FP_ONE));
    assert!(hit.hit_front_face);
}

#[test]
fn offset_ray_misses_entirely() {
    // Perpendicular offset of two units against a radius of one.
    let sphere = unit_sphere_two_units_ahead();
    let ray = Ray::new(Vector3f::new(0, 2 * FP_ONE, 0), Vector3f::new(0, 0, -FP_ONE));
    assert!(sphere.hit(&ray, 7, 1 << 36).is_none());
}

#[test]
fn tangent_ray_yields_single_grazing_hit() {
    // Perpendicular offset exactly one radius: the discriminant vanishes
    // and both roots coincide at parameter 2.0, grazing the top.
    let sphere = unit_sphere_two_units_ahead();
    let ray = Ray::new(Vector3f::new(0, FP_ONE, 0), Vector3f::new(0, 0, -FP_ONE));
    let hit = sphere.hit(&ray, 7, 1 << 36).unwrap();
    assert_eq!(hit.t, 2 * FP_ONE);
    assert_eq!((hit.at.x, hit.at.y, hit.at.z), (0, FP_ONE, -2 * FP_ONE));
    // The grazing direction is perpendicular to the outward normal, which
    // counts as a back face, so the stored normal points inward.
    assert!(!hit.hit_front_face);
    assert_eq!((hit.normal.x, hit.normal.y, hit.normal.z), (0, -FP_ONE, 0));
}

#[test]
fn window_excludes_near_hit() {
    // With the window starting past the near surface, the far surface at
    // parameter 3.0 is reported instead.
    let sphere = unit_sphere_two_units_ahead();
    let ray = Ray::new(Vector3f::zero(), Vector3f::new(0, 0, -FP_ONE));
    let hit = sphere.hit(&ray, 2 * FP_ONE, 1 << 36).unwrap();
    assert_eq!(hit.t, 3 * FP_ONE);
    assert!(!hit.hit_front_face);
}

#[test]
fn ray_from_inside_hits_back_face() {
    let sphere = unit_sphere_two_units_ahead();
    let ray = Ray::new(Vector3f::new(0, 0, -2 * FP_ONE), Vector3f::new(0, 0, -FP_ONE));
    let hit = sphere.hit(&ray, 7, 1 << 36).unwrap();
    assert_eq!(hit.t, FP_ONE);
    assert!(!hit.hit_front_face);
    assert_eq!((hit.normal.x, hit.normal.y, hit.normal.z), (0, 0, FP_ONE));
}

#[test]
fn window_is_open_at_both_ends() {
    // The nearer root of the center ray lies at exactly 1.0. A window
    // whose lower end equals it excludes it, so the farther root at 3.0
    // is reported; a window whose upper end equals it reports nothing.
    let sphere = unit_sphere_two_units_ahead();
    let ray = Ray::new(Vector3f::zero(), Vector3f::new(0, 0, -FP_ONE));
    let past_near = sphere.hit(&ray, FP_ONE, 1 << 36).unwrap();
    assert_eq!(past_near.t, 3 * FP_ONE);
    assert!(sphere.hit(&ray, 7, FP_ONE).is_none());
    assert!(sphere.hit(&ray, 7, 3 * FP_ONE).is_some());
    assert!(sphere.hit(&ray, FP_ONE, 3 * FP_ONE).is_none());
}
