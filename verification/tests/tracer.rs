//! End-to-end and unit tests for the fixed-point ray tracer.
//!
//! Scalars are fixed-point: the real value times 65536 (`SCALE`).

use raytrace::camera::Camera;
use raytrace::fixed::{div_trunc, fmul, sqrt_fx, EPS, SCALE};
use raytrace::objects::{BuildError, Intersectable, Object, Plane, Ray, Sphere};
use raytrace::vec3::Vec3;

fn unit_sphere_at(z: i128, color: (i128, i128, i128), reflectivity: i128) -> Sphere {
    Sphere::new(Vec3::new(0, 0, z), SCALE, color, reflectivity).unwrap()
}

fn straight_ray() -> Ray {
    // From the origin, straight down the negative z axis.
    Ray { origin: Vec3::new(0, 0, 0), direction: Vec3::new(0, 0, -SCALE) }
}

fn camera_at_origin(width: usize, height: usize) -> Camera {
    Camera::new(
        Vec3::new(0, 0, 0),
        Vec3::new(0, 0, -SCALE),
        Vec3::new(0, SCALE, 0),
        SCALE,
        height,
        width,
        SCALE,
    )
    .unwrap()
}

#[test]
fn div_trunc_truncates_toward_zero() {
    assert_eq!(div_trunc(7, 2), 3);
    assert_eq!(div_trunc(-7, 2), -3);
    assert_eq!(div_trunc(7, -2), -3);
    assert_eq!(div_trunc(-7, -2), 3);
}

#[test]
fn fixed_multiplication_is_exact_on_whole_units() {
    assert_eq!(fmul(3 * SCALE, 4 * SCALE), 12 * SCALE);
    assert_eq!(fmul(-3 * SCALE, 4 * SCALE), -12 * SCALE);
    assert_eq!(fmul(SCALE / 2, SCALE / 2), SCALE / 4);
}

#[test]
fn square_root_of_four_is_two() {
    assert_eq!(sqrt_fx(4 * SCALE), 2 * SCALE);
    assert_eq!(sqrt_fx(0), 0);
    assert_eq!(sqrt_fx(SCALE), SCALE);
}

#[test]
fn normalize_produces_unit_axis_vectors() {
    let v = Vec3::new(0, 0, -5 * SCALE);
    let n = v.normalize();
    assert_eq!((n.x, n.y, n.z), (0, 0, -SCALE));
    let w = Vec3::new(3 * SCALE, 0, 0).normalize();
    assert_eq!((w.x, w.y, w.z), (SCALE, 0, 0));
}

#[test]
fn cross_product_of_axes() {
    let x = Vec3::new(SCALE, 0, 0);
    let y = Vec3::new(0, SCALE, 0);
    let z = x.cross(&y);
    assert_eq!((z.x, z.y, z.z), (0, 0, SCALE));
}

#[test]
fn sphere_intersection_round_trip() {
    // A ray aimed straight at a unit sphere five units away must hit
    // the near surface point exactly, with a unit normal pointing back.
    let s = unit_sphere_at(-5 * SCALE, (200 * SCALE, 200 * SCALE, 200 * SCALE), 0);
    let hit = s.intersect(&straight_ray()).unwrap();
    assert_eq!(hit.distance, 4 * SCALE);
    assert_eq!((hit.point.x, hit.point.y, hit.point.z), (0, 0, -4 * SCALE));
    assert_eq!((hit.normal.x, hit.normal.y, hit.normal.z), (0, 0, SCALE));
}

#[test]
fn sphere_behind_ray_is_missed() {
    let s = unit_sphere_at(5 * SCALE, (200 * SCALE, 200 * SCALE, 200 * SCALE), 0);
    let r = straight_ray();
    assert!(s.intersect(&r).is_none());
}

#[test]
fn plane_intersection_exact() {
    let ground = Plane::new(
        Vec3::new(0, -SCALE, 0),
        Vec3::new(0, SCALE, 0),
        (0, 0, 255 * SCALE),
        0,
    )
    .unwrap();
    let down = Ray { origin: Vec3::new(0, 0, 0), direction: Vec3::new(0, -SCALE, 0) };
    let hit = ground.intersect(&down).unwrap();
    assert_eq!(hit.distance, SCALE);
    assert_eq!((hit.point.x, hit.point.y, hit.point.z), (0, -SCALE, 0));
    // A ray parallel to the plane misses it.
    let level = Ray { origin: Vec3::new(0, 0, 0), direction: Vec3::new(SCALE, 0, 0) };
    assert!(ground.intersect(&level).is_none());
}

#[test]
fn missing_everything_traces_black() {
    let cam = camera_at_origin(2, 2);
    let scene = vec![Object::Sphere(unit_sphere_at(
        -5 * SCALE,
        (200 * SCALE, 200 * SCALE, 200 * SCALE),
        0,
    ))];
    let up = Ray { origin: Vec3::new(0, 0, 0), direction: Vec3::new(0, SCALE, 0) };
    for depth in 1..5u32 {
        assert_eq!(cam.trace_ray(&up, &scene, depth), (0, 0, 0));
    }
}

#[test]
fn depth_zero_is_black() {
    let cam = camera_at_origin(2, 2);
    let scene = vec![Object::Sphere(unit_sphere_at(
        -5 * SCALE,
        (200 * SCALE, 200 * SCALE, 200 * SCALE),
        0,
    ))];
    assert_eq!(cam.trace_ray(&straight_ray(), &scene, 0), (0, 0, 0));
}

#[test]
fn lit_sphere_is_non_black_and_depth_independent() {
    // Non-reflective surface: one depth suffices and more changes nothing.
    let cam = camera_at_origin(3, 3);
    let scene = vec![Object::Sphere(unit_sphere_at(
        -5 * SCALE,
        (200 * SCALE, 200 * SCALE, 200 * SCALE),
        0,
    ))];
    let r = straight_ray();
    let c1 = cam.trace_ray(&r, &scene, 1);
    assert_ne!(c1, (0, 0, 0));
    assert!(c1.0 > 0);
    // The fixed light has no green component at all.
    assert_eq!(c1.1, 0);
    for depth in 2..6u32 {
        assert_eq!(cam.trace_ray(&r, &scene, depth), c1);
    }
}

#[test]
fn full_mirror_returns_the_reflected_color() {
    // A fully reflective sphere contributes no local color: the ray
    // bounces straight back, hits nothing, and the pixel is black even
    // though the surface itself is brightly lit.
    let cam = camera_at_origin(3, 3);
    let mirror = vec![Object::Sphere(unit_sphere_at(
        -5 * SCALE,
        (200 * SCALE, 200 * SCALE, 200 * SCALE),
        SCALE,
    ))];
    assert_eq!(cam.trace_ray(&straight_ray(), &mirror, 3), (0, 0, 0));
    // The same sphere without reflectivity is visibly lit.
    let diffuse = vec![Object::Sphere(unit_sphere_at(
        -5 * SCALE,
        (200 * SCALE, 200 * SCALE, 200 * SCALE),
        0,
    ))];
    assert_ne!(cam.trace_ray(&straight_ray(), &diffuse, 3), (0, 0, 0));
}

#[test]
fn occluder_between_point_and_light_gives_black() {
    // The hit point is (0, 0, -4); the light sits at (-5, 5, 5).  A
    // sphere centered on the midpoint of that segment blocks it, so
    // the diffuse term drops to exactly zero.
    let cam = camera_at_origin(3, 3);
    let target = unit_sphere_at(-5 * SCALE, (200 * SCALE, 200 * SCALE, 200 * SCALE), 0);
    let blocker = Sphere::new(
        Vec3::new(-5 * SCALE / 2, 5 * SCALE / 2, SCALE / 2),
        SCALE,
        (255 * SCALE, 255 * SCALE, 0),
        0,
    )
    .unwrap();
    let scene = vec![Object::Sphere(target), Object::Sphere(blocker)];
    assert_eq!(cam.trace_ray(&straight_ray(), &scene, 3), (0, 0, 0));
}

#[test]
fn closest_intersection_prefers_nearer_and_first() {
    let cam = camera_at_origin(2, 2);
    let near = unit_sphere_at(-3 * SCALE, (10 * SCALE, 10 * SCALE, 10 * SCALE), 0);
    let far = unit_sphere_at(-8 * SCALE, (20 * SCALE, 20 * SCALE, 20 * SCALE), 0);
    let scene = vec![Object::Sphere(far), Object::Sphere(near)];
    let (idx, hit) = cam.closest_intersection(&straight_ray(), &scene).unwrap();
    assert_eq!(idx, 1);
    assert_eq!(hit.distance, 2 * SCALE);
    // An exact tie keeps the earlier object.
    let twin = vec![
        Object::Sphere(unit_sphere_at(-5 * SCALE, (1, 2, 3), 0)),
        Object::Sphere(unit_sphere_at(-5 * SCALE, (4, 5, 6), 0)),
    ];
    let (tidx, _) = cam.closest_intersection(&straight_ray(), &twin).unwrap();
    assert_eq!(tidx, 0);
}

#[test]
fn generate_rays_counts_and_corner_signs() {
    let cam = camera_at_origin(4, 3);
    let rays = cam.generate_rays();
    assert_eq!(rays.len(), 12);
    // With the camera looking down -z, right is +x and up is +y, so
    // the screen offsets show up directly in the direction signs.
    let first = &rays[0];
    let last = &rays[11];
    assert!(first.direction.x < 0 && first.direction.y > 0);
    assert!(last.direction.x > 0 && last.direction.y < 0);
    for r in &rays {
        assert_eq!((r.origin.x, r.origin.y, r.origin.z), (0, 0, 0));
        assert!(r.direction.z < 0);
    }
}

#[test]
fn two_by_two_corner_rays_all_miss_the_small_sphere() {
    // Camera at (0, 0, 5) looking toward -z with a 90-degree field of
    // view: all four corner rays of a 2x2 raster pass wide of a unit
    // sphere ten units ahead, so the whole image is black.
    let cam = Camera::new(
        Vec3::new(0, 0, 5 * SCALE),
        Vec3::new(0, 0, -SCALE),
        Vec3::new(0, SCALE, 0),
        SCALE,
        2,
        2,
        SCALE,
    )
    .unwrap();
    let scene = vec![Object::Sphere(unit_sphere_at(
        -5 * SCALE,
        (200 * SCALE, 200 * SCALE, 200 * SCALE),
        0,
    ))];
    let pixels = cam.new_render(&scene);
    assert_eq!(pixels.len(), 4);
    for p in &pixels {
        assert_eq!(*p, (0, 0, 0));
    }
    // A finer raster aimed the same way does show the sphere near the
    // image center.
    let fine = Camera::new(
        Vec3::new(0, 0, 5 * SCALE),
        Vec3::new(0, 0, -SCALE),
        Vec3::new(0, SCALE, 0),
        SCALE,
        9,
        9,
        SCALE,
    )
    .unwrap();
    let fine_pixels = fine.new_render(&scene);
    assert_eq!(fine_pixels.len(), 81);
    let center = fine_pixels[4 * 9 + 4];
    assert_ne!(center, (0, 0, 0));
}

#[test]
fn shadow_bias_does_not_shadow_a_lone_sphere() {
    // A single lit sphere must not occlude itself through the bias.
    let cam = camera_at_origin(3, 3);
    let scene = vec![Object::Sphere(unit_sphere_at(
        -5 * SCALE,
        (200 * SCALE, 200 * SCALE, 200 * SCALE),
        0,
    ))];
    let c = cam.trace_ray(&straight_ray(), &scene, 1);
    assert_ne!(c, (0, 0, 0));
    // The bias stays well under the sphere's own scale.
    assert!(EPS < SCALE / 100);
}

#[test]
fn sphere_construction_rejects_bad_radii() {
    let c = (200 * SCALE, 200 * SCALE, 200 * SCALE);
    assert_eq!(
        Sphere::new(Vec3::new(0, 0, 0), 0, c, 0).unwrap_err(),
        BuildError::InvalidRadius
    );
    assert_eq!(
        Sphere::new(Vec3::new(0, 0, 0), -SCALE, c, 0).unwrap_err(),
        BuildError::InvalidRadius
    );
    assert_eq!(
        Sphere::new(Vec3::new(0, 0, 0), SCALE, c, 2 * SCALE).unwrap_err(),
        BuildError::OutOfRange
    );
    assert!(Sphere::new(Vec3::new(0, 0, 0), SCALE, c, SCALE / 2).is_ok());
}

#[test]
fn plane_construction_rejects_degenerate_normals() {
    let c = (0, 0, 255 * SCALE);
    assert_eq!(
        Plane::new(Vec3::new(0, 0, 0), Vec3::new(0, 0, 0), c, 0).unwrap_err(),
        BuildError::InvalidNormal
    );
    assert_eq!(
        Plane::new(Vec3::new(0, 0, 0), Vec3::new(0, SCALE, 0), c, -1).unwrap_err(),
        BuildError::OutOfRange
    );
    let p = Plane::new(Vec3::new(0, 0, 0), Vec3::new(0, 7 * SCALE, 0), c, 0).unwrap();
    // The stored normal comes out normalized.
    assert_eq!((p.normal.x, p.normal.y, p.normal.z), (0, SCALE, 0));
}

#[test]
fn camera_construction_rejects_bad_configurations() {
    let o = Vec3::new(0, 0, 0);
    let la = Vec3::new(0, 0, -SCALE);
    let up = Vec3::new(0, SCALE, 0);
    assert_eq!(
        Camera::new(o, la, la, SCALE, 2, 2, SCALE).unwrap_err(),
        BuildError::DegenerateBasis
    );
    assert_eq!(
        Camera::new(o, o, up, SCALE, 2, 2, SCALE).unwrap_err(),
        BuildError::DegenerateBasis
    );
    assert_eq!(
        Camera::new(o, la, up, 0, 2, 2, SCALE).unwrap_err(),
        BuildError::OutOfRange
    );
    assert_eq!(
        Camera::new(o, la, up, SCALE, 0, 2, SCALE).unwrap_err(),
        BuildError::OutOfRange
    );
    let cam = Camera::new(o, la, up, SCALE, 2, 2, SCALE).unwrap();
    assert_eq!((cam.forward.x, cam.forward.y, cam.forward.z), (0, 0, -SCALE));
    assert_eq!((cam.right.x, cam.right.y, cam.right.z), (SCALE, 0, 0));
    assert_eq!((cam.up.x, cam.up.y, cam.up.z), (0, SCALE, 0));
}

#[test]
fn reflect_bounces_off_a_flat_normal() {
    let cam = camera_at_origin(2, 2);
    // Incident straight down onto an upward normal reflects straight up.
    let r = cam.reflect(&Vec3::new(0, -SCALE, 0), &Vec3::new(0, SCALE, 0));
    assert_eq!((r.x, r.y, r.z), (0, SCALE, 0));
    // A grazing incident along +x is unchanged.
    let g = cam.reflect(&Vec3::new(SCALE, 0, 0), &Vec3::new(0, SCALE, 0));
    assert_eq!((g.x, g.y, g.z), (SCALE, 0, 0));
}

#[test]
fn render_of_scene_with_ground_plane_runs() {
    let cam = Camera::new(
        Vec3::new(0, 0, 5 * SCALE),
        Vec3::new(0, 0, -SCALE),
        Vec3::new(0, SCALE, 0),
        SCALE,
        6,
        8,
        SCALE,
    )
    .unwrap();
    let scene = vec![
        Object::Sphere(unit_sphere_at(-5 * SCALE, (200 * SCALE, 200 * SCALE, 200 * SCALE), SCALE)),
        Object::Sphere(
            Sphere::new(
                Vec3::new(-2 * SCALE, -SCALE / 2, SCALE),
                SCALE / 2,
                (255 * SCALE, 255 * SCALE, 0),
                0,
            )
            .unwrap(),
        ),
        Object::Plane(
            Plane::new(Vec3::new(0, -SCALE, 0), Vec3::new(0, SCALE, 0), (0, 0, 255 * SCALE), 0)
                .unwrap(),
        ),
    ];
    let pixels = cam.new_render(&scene);
    assert_eq!(pixels.len(), 48);
    // The lower half of the raster sees the blue ground plane.
    assert!(pixels.iter().any(|p| *p != (0, 0, 0)));
}
