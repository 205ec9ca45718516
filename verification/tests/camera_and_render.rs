use rand::SeedableRng;
use raytracer::camera::Camera;
use raytracer::fixed::FP_ONE;
use raytracer::hit::HittableList;
use raytracer::material::{Lambertian, Material};
use raytracer::render::{render_image, render_row, write_row};
use raytracer::sphere::Sphere;
use raytracer::vector3::Vector3f;

fn gray() -> Material {
    Material::Lambertian(Lambertian::new(Vector3f::new(32768, 32768, 32768)))
}

fn standard_camera() -> Camera {
    // Viewport 3.0 by 2.0, focal length 1.0, eye at the origin.
    Camera::new(3 * FP_ONE, 2 * FP_ONE, FP_ONE, Vector3f::zero())
}

#[test]
fn center_ray_points_down_the_axis() {
    // The image-center ray of the standard camera runs straight along -z.
    let camera = standard_camera();
    let ray = camera.get_ray(32768, 32768);
    let o = *ray.origin();
    let d = *ray.direction();
    assert_eq!((o.x, o.y, o.z), (0, 0, 0));
    assert_eq!((d.x, d.y, d.z), (0, 0, -FP_ONE));
}

#[test]
fn corner_rays_span_the_viewport() {
    let camera = standard_camera();
    let bl = *camera.get_ray(0, 0).direction();
    assert_eq!((bl.x, bl.y, bl.z), (-98304, -FP_ONE, -FP_ONE));
    let tr = *camera.get_ray(FP_ONE, FP_ONE).direction();
    assert_eq!((tr.x, tr.y, tr.z), (98304, FP_ONE, -FP_ONE));
}

#[test]
fn center_ray_hits_single_sphere_scene() {
    // End to end: one sphere two units ahead, radius one; the ray through
    // the image center reports the hit at parameter 1.0 with the normal
    // pointing back along +z.
    let camera = standard_camera();
    let mut scene = HittableList::new();
    scene.add(Sphere::new(Vector3f::new(0, 0, -2 * FP_ONE), FP_ONE, gray()).unwrap());
    let ray = camera.get_ray(32768, 32768);
    let hit = scene.hit(&ray, 7, 1 << 36).unwrap();
    assert_eq!(hit.t, FP_ONE);
    assert_eq!((hit.normal.x, hit.normal.y, hit.normal.z), (0, 0, FP_ONE));
    assert!(hit.hit_front_face);
}

#[test]
fn row_has_one_pixel_per_column() {
    let camera = standard_camera();
    let mut scene = HittableList::new();
    scene.add(Sphere::new(Vector3f::new(0, 0, -2 * FP_ONE), FP_ONE, gray()).unwrap());
    let mut rng = rand::rngs::StdRng::seed_from_u64(1);
    let row = render_row(&camera, &scene, 3, 8, 6, 2, 4, &mut rng);
    assert_eq!(row.len(), 8);
    let mut buf: Vec<u8> = Vec::new();
    write_row(&row, &mut buf);
    // Eight entries, each three space-separated channels and a newline.
    assert_eq!(buf.iter().filter(|&&b| b == 10).count(), 8);
    assert_eq!(buf.iter().filter(|&&b| b == 32).count(), 16);
}

#[test]
fn image_starts_with_header() {
    let camera = standard_camera();
    let scene = HittableList::new();
    let mut rng = rand::rngs::StdRng::seed_from_u64(1);
    let buf = render_image(&camera, &scene, 8, 6, 1, 4, &mut rng);
    assert!(buf.starts_with(b"P3\n8 6\n255\n"));
    // One line per pixel after the three header lines.
    assert_eq!(buf.iter().filter(|&&b| b == 10).count(), 3 + 8 * 6);
}

#[test]
fn same_seed_renders_identical_images() {
    // Rendering the same scene and configuration twice from the same seed
    // is byte-identical.
    let camera = standard_camera();
    let mut scene = HittableList::new();
    scene.add(Sphere::new(Vector3f::new(0, 0, -2 * FP_ONE), FP_ONE, gray()).unwrap());
    scene.add(Sphere::new(Vector3f::new(0, -6586368, -FP_ONE), 100 * FP_ONE, gray()).unwrap());

    let mut rng_a = rand::rngs::StdRng::seed_from_u64(41253);
    let image_a = render_image(&camera, &scene, 8, 6, 2, 8, &mut rng_a);
    let mut rng_b = rand::rngs::StdRng::seed_from_u64(41253);
    let image_b = render_image(&camera, &scene, 8, 6, 2, 8, &mut rng_b);
    assert_eq!(image_a, image_b);
}

#[test]
fn different_seeds_consume_the_random_source() {
    // The sampler really draws from the generator: two seeds disagree
    // somewhere in a diffuse render.
    let camera = standard_camera();
    let mut scene = HittableList::new();
    scene.add(Sphere::new(Vector3f::new(0, 0, -2 * FP_ONE), FP_ONE, gray()).unwrap());
    let mut rng_a = rand::rngs::StdRng::seed_from_u64(1);
    let image_a = render_image(&camera, &scene, 8, 6, 4, 8, &mut rng_a);
    let mut rng_b = rand::rngs::StdRng::seed_from_u64(2);
    let image_b = render_image(&camera, &scene, 8, 6, 4, 8, &mut rng_b);
    assert_ne!(image_a, image_b);
}
