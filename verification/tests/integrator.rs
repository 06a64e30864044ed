use raytracer::color::Color;
use raytracer::integrator::{ray_color, trace_ray, Optics, NEAR_BITS};
use raytracer::material::Scatter;
use raytracer::raytrace::{RayCastOptions, TraceOptions};
use raytracer::scalar::Scalar;
use raytracer::scene::{Scene, SceneBuilder};
use raytracer::shape::ShapeHit;

fn scalar(value: f32) -> Scalar {
    Scalar::from_bits(value.to_bits()).expect("not a NaN")
}

fn number(scalar: Scalar) -> f32 {
    f32::from_bits(scalar.to_bits())
}

fn rgb(color: &Color) -> (f32, f32, f32) {
    (number(color.r()), number(color.g()), number(color.b()))
}

fn gray(level: f32) -> Color {
    Color::from_rgb(scalar(level), scalar(level), scalar(level))
}

/// What a surface of the toy scene does to a ray.
#[derive(Clone, Copy, Debug, PartialEq)]
enum Surface {
    /// Scatters every ray, halving each channel.
    Half,
    /// Scatters every ray, keeping red only.
    Red,
    /// Absorbs every ray.
    Soot,
}

/// A toy scene on a line: shape `k` sits at position `k + 1`, and a ray is
/// the position that it starts from, looking up the line.
fn line_scene(surfaces: &[Surface]) -> Scene<f32, Surface, (), ()> {
    let mut builder = SceneBuilder::new();
    for (k, surface) in surfaces.iter().enumerate() {
        let shape = builder.add_shape((k + 1) as f32);
        let material = builder.add_material(*surface);
        builder.add_object(shape, material, (), |_shape: &f32, _place: &()| ());
    }
    builder.build()
}

fn intersect(shape: &f32, _place: &(), ray: &f32, _near: Scalar, _far: Scalar) -> Option<ShapeHit<f32, ()>> {
    Some(ShapeHit { point: *shape, normal: (), t: scalar(*shape - *ray), is_front_face: true })
}

fn scatter(material: &Surface, _ray: &f32, hit: &ShapeHit<f32, ()>) -> Option<Scatter<f32>> {
    match material {
        Surface::Half => Some(Scatter { attenuation: gray(0.5), ray: hit.point }),
        Surface::Red => Some(Scatter {
            attenuation: Color::from_rgb(scalar(1.0), scalar(0.0), scalar(0.0)),
            ray: hit.point,
        }),
        Surface::Soot => None,
    }
}

fn sky(_ray: &f32) -> Color {
    Color::from_rgb(scalar(0.5), scalar(0.75), scalar(1.0))
}

fn attenuate(attenuation: Color, light: Color) -> Color {
    Color::from_rgb(
        scalar(number(attenuation.r()) * number(light.r())),
        scalar(number(attenuation.g()) * number(light.g())),
        scalar(number(attenuation.b()) * number(light.b())),
    )
}

fn cast(surfaces: &[Surface], max_depth: usize, start: f32, depth: usize) -> (f32, f32, f32) {
    let scene = line_scene(surfaces);
    let optics = Optics { intersect, scatter, background: sky, attenuate };
    let options = RayCastOptions { sample_count: 1, max_depth };
    rgb(&ray_color(&options, &scene, &optics, &start, depth))
}

#[test]
fn the_near_limit_is_one_thousandth() {
    assert_eq!(NEAR_BITS, 0.001f32.to_bits());
}

#[test]
fn a_ray_past_the_depth_limit_is_black() {
    assert_eq!(cast(&[], 5, 0.0, 6), (0.0, 0.0, 0.0));
    assert_eq!(cast(&[Surface::Half], 5, 0.0, 6), (0.0, 0.0, 0.0));
    assert_eq!(cast(&[Surface::Half, Surface::Red], 0, 0.0, 1), (0.0, 0.0, 0.0));
    assert_eq!(cast(&[], 8, 0.0, usize::MAX), (0.0, 0.0, 0.0));
    assert_eq!(cast(&[], usize::MAX - 1, 0.0, usize::MAX), (0.0, 0.0, 0.0));
}

#[test]
fn a_ray_past_the_depth_limit_asks_nothing_of_the_scene() {
    let scene = line_scene(&[Surface::Half]);
    let optics = Optics {
        intersect: |_: &f32, _: &(), _: &f32, _: Scalar, _: Scalar| -> Option<ShapeHit<f32, ()>> {
            panic!("intersected")
        },
        scatter: |_: &Surface, _: &f32, _: &ShapeHit<f32, ()>| -> Option<Scatter<f32>> { panic!("scattered") },
        background: |_: &f32| -> Color { panic!("looked at the sky") },
        attenuate: |_: Color, _: Color| -> Color { panic!("attenuated") },
    };
    let options = RayCastOptions { sample_count: 1, max_depth: 3 };
    let color = ray_color(&options, &scene, &optics, &0.0f32, 4);
    assert_eq!(rgb(&color), (0.0, 0.0, 0.0));
}

#[test]
fn a_ray_that_hits_nothing_gathers_the_background() {
    assert_eq!(cast(&[], 5, 0.0, 0), (0.5, 0.75, 1.0));
    assert_eq!(cast(&[], 0, 0.0, 0), (0.5, 0.75, 1.0));
    assert_eq!(cast(&[Surface::Half, Surface::Half], 5, 2.0, 0), (0.5, 0.75, 1.0));
}

#[test]
fn an_absorbed_ray_gathers_black() {
    assert_eq!(cast(&[Surface::Soot], 5, 0.0, 0), (0.0, 0.0, 0.0));
    assert_eq!(cast(&[Surface::Half, Surface::Soot], 5, 0.0, 0), (0.0, 0.0, 0.0));
}

#[test]
fn each_bounce_scales_the_light_by_its_attenuation() {
    assert_eq!(cast(&[Surface::Half], 5, 0.0, 0), (0.25, 0.375, 0.5));
    assert_eq!(cast(&[Surface::Half, Surface::Half], 5, 0.0, 0), (0.125, 0.1875, 0.25));
    assert_eq!(cast(&[Surface::Half, Surface::Red], 5, 0.0, 0), (0.25, 0.0, 0.0));
    assert_eq!(cast(&[Surface::Red, Surface::Half, Surface::Half], 5, 0.0, 0), (0.125, 0.0, 0.0));
}

#[test]
fn the_nearest_surface_scatters_first() {
    assert_eq!(cast(&[Surface::Half, Surface::Soot], 5, 1.0, 0), (0.0, 0.0, 0.0));
    assert_eq!(cast(&[Surface::Soot, Surface::Half], 5, 1.0, 0), (0.25, 0.375, 0.5));
}

#[test]
fn a_path_cut_at_the_depth_limit_gathers_black() {
    let three = [Surface::Half, Surface::Half, Surface::Half];
    assert_eq!(cast(&three, 3, 0.0, 0), (0.0625, 0.09375, 0.125));
    assert_eq!(cast(&three, 2, 0.0, 0), (0.0, 0.0, 0.0));
    assert_eq!(cast(&three, 2, 0.0, 1), (0.0, 0.0, 0.0));
    assert_eq!(cast(&three, 2, 1.0, 1), (0.0, 0.0, 0.0));
    assert_eq!(cast(&three, 2, 1.0, 0), (0.125, 0.1875, 0.25));
    assert_eq!(cast(&[Surface::Half], 0, 0.0, 0), (0.0, 0.0, 0.0));
}

#[test]
fn a_surface_closer_than_the_near_limit_is_passed_over() {
    let scene = line_scene(&[Surface::Soot]);
    let optics = Optics { intersect, scatter, background: sky, attenuate };
    let options = RayCastOptions { sample_count: 1, max_depth: 5 };
    assert_eq!(rgb(&ray_color(&options, &scene, &optics, &0.9995f32, 0)), (0.5, 0.75, 1.0));
    assert_eq!(rgb(&ray_color(&options, &scene, &optics, &0.99f32, 0)), (0.0, 0.0, 0.0));
    assert_eq!(rgb(&ray_color(&options, &scene, &optics, &1.0f32, 0)), (0.5, 0.75, 1.0));
}

#[test]
fn no_bounce_brightens_the_light() {
    let peak = (0.5, 0.75, 1.0);
    for surfaces in [
        vec![],
        vec![Surface::Half],
        vec![Surface::Red, Surface::Half],
        vec![Surface::Half, Surface::Half, Surface::Red, Surface::Half],
        vec![Surface::Half, Surface::Soot],
    ] {
        for depth in 0..4 {
            let (r, g, b) = cast(&surfaces, 3, 0.0, depth);
            assert!(0.0 <= r && r <= peak.0);
            assert!(0.0 <= g && g <= peak.1);
            assert!(0.0 <= b && b <= peak.2);
        }
    }
}

#[test]
fn trace_ray_uses_the_depth_limit_of_the_render() {
    let scene = line_scene(&[Surface::Half, Surface::Half]);
    let optics = Optics { intersect, scatter, background: sky, attenuate };
    let deep = TraceOptions::new(4, 4, 1, 5, 2).unwrap();
    let shallow = TraceOptions::new(4, 4, 1, 1, 2).unwrap();
    assert_eq!(rgb(&trace_ray(&deep, &scene, &optics, &0.0f32, 0)), (0.125, 0.1875, 0.25));
    assert_eq!(rgb(&trace_ray(&shallow, &scene, &optics, &0.0f32, 0)), (0.0, 0.0, 0.0));
    assert_eq!(rgb(&trace_ray(&shallow, &scene, &optics, &0.0f32, 2)), (0.0, 0.0, 0.0));
    assert_eq!(rgb(&trace_ray(&shallow, &scene, &optics, &1.0f32, 1)), (0.0, 0.0, 0.0));
    assert_eq!(rgb(&trace_ray(&shallow, &scene, &optics, &1.0f32, 0)), (0.25, 0.375, 0.5));
}
