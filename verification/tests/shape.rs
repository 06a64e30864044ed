use raytracer::scalar::Scalar;
use raytracer::shape::{is_front_face, nearest_root, Quadric, ShapeDef, ShapeHit, UnitSphere};

type V = [f32; 3];

#[derive(Clone, Copy, Debug)]
struct Ray {
    origin: V,
    direction: V,
}

fn scalar(value: f32) -> Scalar {
    Scalar::from_bits(value.to_bits()).expect("not a NaN")
}

fn number(scalar: Scalar) -> f32 {
    f32::from_bits(scalar.to_bits())
}

fn root(first: f32, second: f32, near: f32, far: f32) -> Option<f32> {
    nearest_root(scalar(first), scalar(second), scalar(near), scalar(far)).map(number)
}

fn dot(a: V, b: V) -> f32 {
    a[0] * b[0] + a[1] * b[1] + a[2] * b[2]
}

/// Where `ray` meets the sphere around `center`. The sphere is the unit
/// sphere seen from a frame in which it has the given center and radius.
fn sphere_hit(center: V, radius: f32, ray: &Ray, near: f32, far: f32) -> Option<ShapeHit<V, V>> {
    let local = |ray: &Ray| {
        let origin = [
            (ray.origin[0] - center[0]) / radius,
            (ray.origin[1] - center[1]) / radius,
            (ray.origin[2] - center[2]) / radius,
        ];
        let direction = [ray.direction[0] / radius, ray.direction[1] / radius, ray.direction[2] / radius];
        (origin, direction)
    };
    let quadric = Quadric {
        discriminant: |ray: &Ray| {
            let (o, d) = local(ray);
            let half_b = dot(o, d);
            scalar(half_b * half_b - dot(d, d) * (dot(o, o) - 1.0))
        },
        roots: |ray: &Ray, discriminant: Scalar| {
            let (o, d) = local(ray);
            let root = number(discriminant).sqrt();
            (scalar((-dot(o, d) - root) / dot(d, d)), scalar((-dot(o, d) + root) / dot(d, d)))
        },
        surface: |ray: &Ray, t: Scalar| {
            let t = number(t);
            let point =
                [ray.origin[0] + t * ray.direction[0], ray.origin[1] + t * ray.direction[1], ray.origin[2] + t * ray.direction[2]];
            let outward =
                [(point[0] - center[0]) / radius, (point[1] - center[1]) / radius, (point[2] - center[2]) / radius];
            let front = is_front_face(scalar(dot(outward, ray.direction)));
            let normal = if front { outward } else { [-outward[0], -outward[1], -outward[2]] };
            (point, normal, front)
        },
    };
    ShapeDef::from(UnitSphere).hit(ray, scalar(near), scalar(far), &quadric)
}

fn along_z(from: V) -> Ray {
    Ray { origin: from, direction: [0.0, 0.0, 1.0] }
}

#[test]
fn a_unit_sphere_is_a_shape() {
    let shape: ShapeDef = UnitSphere.into();
    assert_eq!(shape, ShapeDef::UnitSphere(UnitSphere));
    assert_eq!(ShapeDef::from(UnitSphere), ShapeDef::UnitSphere(UnitSphere));
}

#[test]
fn a_unit_sphere_fills_its_box() {
    for aabb in [UnitSphere.aabb(), ShapeDef::from(UnitSphere).aabb()] {
        for (low, high) in [aabb.x(), aabb.y(), aabb.z()] {
            assert_eq!(number(low), -1.0);
            assert_eq!(number(high), 1.0);
        }
    }
}

#[test]
fn the_smaller_root_in_range_is_the_hit() {
    assert_eq!(root(1.0, 3.0, 0.001, 100.0), Some(1.0));
    assert_eq!(root(3.0, 1.0, 0.001, 100.0), Some(1.0));
    assert_eq!(root(2.5, 2.5, 0.001, 100.0), Some(2.5));
}

#[test]
fn a_root_out_of_range_gives_way_to_the_other() {
    assert_eq!(root(-1.0, 3.0, 0.001, 100.0), Some(3.0));
    assert_eq!(root(3.0, -1.0, 0.001, 100.0), Some(3.0));
    assert_eq!(root(0.0005, 3.0, 0.001, 100.0), Some(3.0));
    assert_eq!(root(1.0, 300.0, 0.001, 100.0), Some(1.0));
    assert_eq!(root(300.0, 1.0, 0.001, 100.0), Some(1.0));
}

#[test]
fn no_root_in_range_is_a_miss() {
    assert_eq!(root(-3.0, -1.0, 0.001, 100.0), None);
    assert_eq!(root(200.0, 300.0, 0.001, 100.0), None);
    assert_eq!(root(-1.0, 300.0, 0.001, 100.0), None);
    assert_eq!(root(0.0, 0.0, 0.0, 100.0), None);
}

#[test]
fn the_ends_of_the_range_are_no_hits() {
    assert_eq!(root(0.001, 100.0, 0.001, 100.0), None);
    assert_eq!(root(0.001, 5.0, 0.001, 100.0), Some(5.0));
    assert_eq!(root(5.0, 100.0, 0.001, 100.0), Some(5.0));
    assert_eq!(root(5.0, f32::INFINITY, 0.001, f32::INFINITY), Some(5.0));
    assert_eq!(root(f32::INFINITY, f32::INFINITY, 0.001, f32::INFINITY), None);
}

#[test]
fn of_two_equal_roots_the_first_is_taken() {
    let picked = nearest_root(scalar(-0.0), scalar(0.0), scalar(-1.0), scalar(1.0)).unwrap();
    assert_eq!(picked.to_bits(), (-0.0f32).to_bits());
    let picked = nearest_root(scalar(0.0), scalar(-0.0), scalar(-1.0), scalar(1.0)).unwrap();
    assert_eq!(picked.to_bits(), 0.0f32.to_bits());
}

#[test]
fn a_negative_discriminant_is_a_miss_without_roots() {
    for discriminant in [-0.5f32, -1.0e-40, f32::NEG_INFINITY] {
        let quadric = Quadric {
            discriminant: |_ray: &()| scalar(discriminant),
            roots: |_ray: &(), _discriminant: Scalar| -> (Scalar, Scalar) { panic!("no roots to compute") },
            surface: |_ray: &(), _t: Scalar| -> ((), (), bool) { panic!("no surface to compute") },
        };
        assert!(UnitSphere.hit(&(), scalar(0.001), scalar(100.0), &quadric).is_none());
    }
}

#[test]
fn a_discriminant_of_zero_has_roots() {
    for discriminant in [0.0f32, -0.0, 4.0] {
        let quadric = Quadric {
            discriminant: |_ray: &u8| scalar(discriminant),
            roots: |_ray: &u8, given: Scalar| {
                assert_eq!(given.to_bits(), discriminant.to_bits());
                (scalar(2.0), scalar(2.0))
            },
            surface: |ray: &u8, t: Scalar| (*ray, number(t), true),
        };
        let hit = UnitSphere.hit(&7u8, scalar(0.001), scalar(100.0), &quadric).unwrap();
        assert_eq!(number(hit.t), 2.0);
        assert_eq!(hit.point, 7);
        assert_eq!(hit.normal, 2.0);
        assert!(hit.is_front_face);
    }
}

#[test]
fn roots_out_of_range_leave_no_surface_to_compute() {
    let quadric = Quadric {
        discriminant: |_ray: &()| scalar(4.0),
        roots: |_ray: &(), _discriminant: Scalar| (scalar(-2.0), scalar(-1.0)),
        surface: |_ray: &(), _t: Scalar| -> ((), (), bool) { panic!("no surface to compute") },
    };
    assert!(UnitSphere.hit(&(), scalar(0.001), scalar(100.0), &quadric).is_none());
}

#[test]
fn the_hit_holds_the_surface_at_the_nearest_root() {
    let quadric = Quadric {
        discriminant: |_ray: &()| scalar(1.0),
        roots: |_ray: &(), _discriminant: Scalar| (scalar(5.0), scalar(3.0)),
        surface: |_ray: &(), t: Scalar| (number(t) * 10.0, number(t) * 100.0, false),
    };
    let hit = UnitSphere.hit(&(), scalar(0.001), scalar(100.0), &quadric).unwrap();
    assert_eq!(number(hit.t), 3.0);
    assert_eq!(hit.point, 30.0);
    assert_eq!(hit.normal, 300.0);
    assert!(!hit.is_front_face);
}

#[test]
fn a_ray_at_a_sphere_hits_its_near_side() {
    for r in [0.5f32, 1.0, 2.0, 100.0] {
        let hit = sphere_hit([0.0, 0.0, 0.0], r, &along_z([0.0, 0.0, -2.0 * r]), 0.001, f32::INFINITY)
            .expect("the ray points at the sphere");
        let t = number(hit.t);
        assert!((t - r).abs() < 1e-4 * r.max(1.0), "t = {} for r = {}", t, r);
        assert!(hit.normal[0].abs() < 1e-4);
        assert!(hit.normal[1].abs() < 1e-4);
        assert!((hit.normal[2] + 1.0).abs() < 1e-4);
        assert!(hit.is_front_face);
        assert!((hit.point[2] + r).abs() < 1e-4 * r.max(1.0));
    }
}

#[test]
fn a_ray_beside_a_sphere_misses() {
    for r in [0.5f32, 1.0, 2.0] {
        let miss = sphere_hit([0.0, 0.0, 0.0], r, &along_z([1.5 * r, 0.0, -2.0 * r]), 0.001, f32::INFINITY);
        assert!(miss.is_none());
        let miss = sphere_hit([0.0, 0.0, 0.0], r, &along_z([0.0, -1.01 * r, -2.0 * r]), 0.001, f32::INFINITY);
        assert!(miss.is_none());
    }
}

#[test]
fn a_ray_away_from_a_sphere_misses() {
    let away = Ray { origin: [0.0, 0.0, -2.0], direction: [0.0, 0.0, -1.0] };
    assert!(sphere_hit([0.0, 0.0, 0.0], 1.0, &away, 0.001, f32::INFINITY).is_none());
}

#[test]
fn a_ray_from_inside_a_sphere_hits_its_back_face() {
    let hit = sphere_hit([0.0, 0.0, 0.0], 2.0, &along_z([0.0, 0.0, 0.0]), 0.001, f32::INFINITY).unwrap();
    assert!((number(hit.t) - 2.0).abs() < 1e-4);
    assert!(!hit.is_front_face);
    assert!((hit.normal[2] + 1.0).abs() < 1e-4);
}

#[test]
fn a_sphere_beyond_the_far_limit_is_missed() {
    let near_enough = sphere_hit([0.0, 0.0, 0.0], 1.0, &along_z([0.0, 0.0, -5.0]), 0.001, 4.5);
    assert_eq!(near_enough.map(|hit| number(hit.t)), Some(4.0));
    let too_far = sphere_hit([0.0, 0.0, 0.0], 1.0, &along_z([0.0, 0.0, -5.0]), 0.001, 3.5);
    assert!(too_far.is_none());
}

#[test]
fn a_ray_against_the_outward_normal_meets_the_front_face() {
    assert!(is_front_face(scalar(-1.0)));
    assert!(is_front_face(scalar(-1.0e-45)));
    assert!(is_front_face(scalar(f32::NEG_INFINITY)));
    assert!(!is_front_face(scalar(1.0)));
    assert!(!is_front_face(scalar(1.0e-45)));
    assert!(!is_front_face(scalar(0.0)));
    assert!(!is_front_face(scalar(-0.0)));
}
