//! The integrator: what color a ray gathers in a scene.
//!
//! A ray is cast into the scene. Where it leaves the scene it gathers the
//! background. Where it hits an object, the object's material scatters it, and
//! the ray gathers what the scattered ray gathers one level deeper, scaled by
//! the attenuation of the scattering. A ray deeper than the depth limit
//! gathers nothing, which bounds the recursion.
//!
//! The decisions are made here. The arithmetic (intersecting a shape,
//! scattering at a surface, the background, scaling a color) is the caller's
//! and comes in as [`Optics`]. It may draw random numbers, so the contracts
//! say of a result that some outcome of those calls explains it.

use crate::color::Color;
use crate::material::Scatter;
use crate::raytrace::{RayCastOptions, TraceOptions};
use crate::scalar::{Scalar, INFINITY_BITS};
use crate::scene::{Hit, Scene, SceneView};
use crate::shape::ShapeHit;
use vstd::prelude::*;

verus! {

/// Pattern of 0.001, the smallest parameter at which a ray may hit. It keeps
/// a scattered ray from meeting the surface that it just left.
pub const NEAR_BITS: u32 = 0x3a83_126f;

/// The arithmetic of light transport, supplied by the caller.
pub struct Optics<I, C, G, A> {
    /// Intersects one shape, placed by its transform, with a ray between two
    /// parameters.
    pub intersect: I,
    /// Scatters a ray at a hit on a material, or absorbs it.
    pub scatter: C,
    /// The light that a ray gathers where it leaves the scene.
    pub background: G,
    /// Scales gathered light, channel by channel, by an attenuation.
    pub attenuate: A,
}

/// The parameter above which a ray of the integrator may hit: 0.001.
pub open spec fn near_limit() -> Scalar {
    Scalar::of_bits(NEAR_BITS)
}

/// The parameter below which a ray of the integrator may hit: infinity.
pub open spec fn far_limit() -> Scalar {
    Scalar::of_bits(INFINITY_BITS)
}

/// Whether the parts of `optics` accept whatever the integrator may hand
/// them.
pub open spec fn optics_ready<S, M, T, R, P, N, I, C, G, A>(optics: Optics<I, C, G, A>) -> bool where
    I: Fn(&S, &T, &R, Scalar, Scalar) -> Option<ShapeHit<P, N>>,
    C: Fn(&M, &R, &ShapeHit<P, N>) -> Option<Scatter<R>>,
    G: Fn(&R) -> Color,
    A: Fn(Color, Color) -> Color,
 {
    &&& forall|shape: S, transform: T, ray: R, near: Scalar, far: Scalar|
        call_requires(optics.intersect, (&shape, &transform, &ray, near, far))
    &&& forall|material: M, ray: R, hit: ShapeHit<P, N>| call_requires(optics.scatter, (&material, &ray, &hit))
    &&& forall|ray: R| call_requires(optics.background, (&ray,))
    &&& forall|attenuation: Color, light: Color| call_requires(optics.attenuate, (attenuation, light))
}

/// Whether one cast of `ray` into `scene` can go as told and end in `color`:
/// `hit` is the nearest hit of the ray; without a hit, `color` is the
/// background of the ray; with a hit, `scattered` is what the material of the
/// object that was hit makes of the ray; absorbed, the ray gathers black;
/// scattered, `color` is `light` scaled by the attenuation.
pub open spec fn cast_step<S, M, T, B, R, P, N, I, C, G, A>(
    scene: SceneView<S, M, T, B>,
    optics: Optics<I, C, G, A>,
    ray: R,
    hit: Option<Hit<P, N>>,
    scattered: Option<Scatter<R>>,
    light: Color,
    color: Color,
) -> bool where
    I: Fn(&S, &T, &R, Scalar, Scalar) -> Option<ShapeHit<P, N>>,
    C: Fn(&M, &R, &ShapeHit<P, N>) -> Option<Scatter<R>>,
    G: Fn(&R) -> Color,
    A: Fn(Color, Color) -> Color,
 {
    &&& scene.nearest_hit_of(ray, near_limit(), far_limit(), optics.intersect, hit)
    &&& match hit {
        None => call_ensures(optics.background, (&ray,), color),
        Some(hit) => {
            &&& call_ensures(optics.scatter, (&scene.material_of(hit.object), &ray, &hit.shape_hit), scattered)
            &&& match scattered {
                None => color.is_black(),
                Some(scatter) => call_ensures(optics.attenuate, (scatter.attenuation, light), color),
            }
        },
    }
}

/// Whether `color` is a color that `ray`, cast at depth `depth`, may gather.
///
/// Past `max_depth` that is black only. Otherwise some cast of the ray ends in
/// `color`, and where that cast scatters the ray, the light that it scales is
/// a color that the scattered ray may gather one level deeper.
pub open spec fn radiance<S, M, T, B, R, P, N, I, C, G, A>(
    max_depth: nat,
    scene: SceneView<S, M, T, B>,
    optics: Optics<I, C, G, A>,
    ray: R,
    depth: nat,
    color: Color,
) -> bool where
    I: Fn(&S, &T, &R, Scalar, Scalar) -> Option<ShapeHit<P, N>>,
    C: Fn(&M, &R, &ShapeHit<P, N>) -> Option<Scatter<R>>,
    G: Fn(&R) -> Color,
    A: Fn(Color, Color) -> Color,

    decreases max_depth + 1 - depth,
{
    if depth > max_depth {
        color.is_black()
    } else {
        exists|hit: Option<Hit<P, N>>, scattered: Option<Scatter<R>>, light: Color|
            {
                &&& #[trigger] cast_step(scene, optics, ray, hit, scattered, light, color)
                &&& hit is Some && scattered is Some ==> radiance(
                    max_depth,
                    scene,
                    optics,
                    scattered->0.ray,
                    depth + 1,
                    light,
                )
            }
    }
}

/// A ray deeper than the depth limit gathers black and nothing else,
/// whatever the scene and the optics are.
pub proof fn lemma_exhausted_is_black<S, M, T, B, R, P, N, I, C, G, A>(
    max_depth: nat,
    scene: SceneView<S, M, T, B>,
    optics: Optics<I, C, G, A>,
    ray: R,
    depth: nat,
    color: Color,
) where
    I: Fn(&S, &T, &R, Scalar, Scalar) -> Option<ShapeHit<P, N>>,
    C: Fn(&M, &R, &ShapeHit<P, N>) -> Option<Scatter<R>>,
    G: Fn(&R) -> Color,
    A: Fn(Color, Color) -> Color,

    requires
        depth > max_depth,
    ensures
        radiance(max_depth, scene, optics, ray, depth, color) <==> color.is_black(),
{
}

/// Bounces never add light. Where scaling by an attenuation raises no
/// channel, and no background is brighter than `peak`, no ray gathers a color
/// brighter than `peak`, at any depth.
pub proof fn lemma_radiance_within_peak<S, M, T, B, R, P, N, I, C, G, A>(
    max_depth: nat,
    scene: SceneView<S, M, T, B>,
    optics: Optics<I, C, G, A>,
    ray: R,
    depth: nat,
    color: Color,
    peak: Color,
) where
    I: Fn(&S, &T, &R, Scalar, Scalar) -> Option<ShapeHit<P, N>>,
    C: Fn(&M, &R, &ShapeHit<P, N>) -> Option<Scatter<R>>,
    G: Fn(&R) -> Color,
    A: Fn(Color, Color) -> Color,

    requires
        peak.in_range(),
        forall|seen: R, sky: Color| #[trigger]
            call_ensures(optics.background, (&seen,), sky) ==> sky.no_brighter_than(peak),
        forall|attenuation: Color, light: Color, scaled: Color| #[trigger]
            call_ensures(optics.attenuate, (attenuation, light), scaled) ==> scaled.no_brighter_than(light),
        radiance(max_depth, scene, optics, ray, depth, color),
    ensures
        color.no_brighter_than(peak),
    decreases max_depth + 1 - depth,
{
    if depth <= max_depth {
        let (hit, scattered, light) = choose|
            hit: Option<Hit<P, N>>,
            scattered: Option<Scatter<R>>,
            light: Color,
        |
            {
                &&& #[trigger] cast_step(scene, optics, ray, hit, scattered, light, color)
                &&& hit is Some && scattered is Some ==> radiance(
                    max_depth,
                    scene,
                    optics,
                    scattered->0.ray,
                    depth + 1,
                    light,
                )
            };
        if hit is Some && scattered is Some {
            lemma_radiance_within_peak(max_depth, scene, optics, scattered->0.ray, depth + 1, light, peak);
        }
    }
}

/// The color that `ray` gathers in `scene`, where `ray` is at depth
/// `ray_depth` of its path.
///
/// A ray deeper than `options.max_depth` gathers black, whatever the scene
/// holds.
pub fn ray_color<S, M, T, B, R, P, N, I, C, G, A>(
    options: &RayCastOptions,
    scene: &Scene<S, M, T, B>,
    optics: &Optics<I, C, G, A>,
    ray: &R,
    ray_depth: usize,
) -> (color: Color) where
    I: Fn(&S, &T, &R, Scalar, Scalar) -> Option<ShapeHit<P, N>>,
    C: Fn(&M, &R, &ShapeHit<P, N>) -> Option<Scatter<R>>,
    G: Fn(&R) -> Color,
    A: Fn(Color, Color) -> Color,

    requires
        scene@.wf(),
        optics_ready::<S, M, T, R, P, N, I, C, G, A>(*optics),
    ensures
        radiance(options.max_depth as nat, scene@, *optics, *ray, ray_depth as nat, color),
        ray_depth > options.max_depth ==> color.is_black(),
    decreases options.max_depth + 1 - ray_depth,
{
    if ray_depth > options.max_depth {
        return Color::black();
    }
    let near = Scalar::from_bits(NEAR_BITS).unwrap();
    let far = Scalar::infinity();
    let found = scene.nearest_hit(ray, near, far, &optics.intersect);
    match found {
        None => {
            let color = (optics.background)(ray);
            proof {
                assert(cast_step(scene@, *optics, *ray, found, None, color, color));
            }
            color
        },
        Some(hit) => {
            let material = scene.get_material(hit.object);
            let scattered = (optics.scatter)(material, ray, &hit.shape_hit);
            match scattered {
                None => {
                    let color = Color::black();
                    proof {
                        assert(cast_step(scene@, *optics, *ray, found, scattered, color, color));
                    }
                    color
                },
                Some(scatter) => {
                    let light = if ray_depth == options.max_depth {
                        Color::black()
                    } else {
                        ray_color(options, scene, optics, &scatter.ray, ray_depth + 1)
                    };
                    let color = (optics.attenuate)(scatter.attenuation, light);
                    proof {
                        assert(radiance(
                            options.max_depth as nat,
                            scene@,
                            *optics,
                            scatter.ray,
                            ray_depth as nat + 1,
                            light,
                        ));
                        assert(cast_step(scene@, *optics, *ray, found, scattered, light, color));
                    }
                    color
                },
            }
        },
    }
}

/// The color that `ray` gathers in `scene`, with the depth limit of a render's
/// settings. It is [`ray_color`] under that limit.
pub fn trace_ray<S, M, T, B, R, P, N, I, C, G, A>(
    trace_options: &TraceOptions,
    scene: &Scene<S, M, T, B>,
    optics: &Optics<I, C, G, A>,
    ray: &R,
    ray_depth: usize,
) -> (color: Color) where
    I: Fn(&S, &T, &R, Scalar, Scalar) -> Option<ShapeHit<P, N>>,
    C: Fn(&M, &R, &ShapeHit<P, N>) -> Option<Scatter<R>>,
    G: Fn(&R) -> Color,
    A: Fn(Color, Color) -> Color,

    requires
        scene@.wf(),
        optics_ready::<S, M, T, R, P, N, I, C, G, A>(*optics),
    ensures
        radiance(trace_options.max_depth() as nat, scene@, *optics, *ray, ray_depth as nat, color),
        ray_depth > trace_options.max_depth() ==> color.is_black(),
{
    let options = RayCastOptions {
        sample_count: trace_options.sample_count(),
        max_depth: trace_options.max_depth(),
    };
    ray_color(&options, scene, optics, ray, ray_depth)
}

} // verus!
