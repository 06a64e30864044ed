//! What a surface does to light.
//!
//! A material turns an incoming ray and a hit into a scattered ray and an
//! attenuation, or absorbs the ray. Three materials are known: a diffuse one,
//! a metal and a dielectric. Which attenuation a material applies, and which
//! way a dielectric sends a ray, is decided here. The direction of the
//! scattered ray is the caller's arithmetic.

use crate::color::{clamped, full_channel, Color};
use crate::scalar::{lemma_one_value, Scalar};
use crate::shape::ShapeHit;
use vstd::arithmetic::power2::lemma_pow2_pos;
use vstd::prelude::*;

verus! {

/// The outcome of a scattering event: the ray that leaves the surface, and
/// the factor by which each channel of the light that the ray gathers is
/// scaled on its way back.
#[derive(Debug, Clone, Copy)]
pub struct Scatter<R> {
    pub attenuation: Color,
    pub ray: R,
}

/// A diffuse surface of a given color.
#[derive(Debug, Clone, Copy)]
pub struct Lambertian {
    pub albedo: Color,
}

impl Lambertian {
    /// A diffuse surface that reflects `albedo`.
    pub fn new(albedo: Color) -> (material: Lambertian)
        ensures
            material.albedo == albedo,
    {
        Lambertian { albedo }
    }
}

/// A metal of a given color. Its fuzz, between 0 and 1, blurs the mirror
/// image: 0 is a perfect mirror.
#[derive(Debug, Clone, Copy)]
pub struct Metal {
    albedo: Color,
    fuzz: Scalar,
}

impl Metal {
    #[verifier::type_invariant]
    spec fn fuzz_in_range(self) -> bool {
        0 <= self.fuzz@ <= full_channel()
    }

    pub closed spec fn spec_albedo(&self) -> Color {
        self.albedo
    }

    pub closed spec fn spec_fuzz(&self) -> Scalar {
        self.fuzz
    }

    /// A metal that reflects `albedo`, with `fuzz` moved into the range from
    /// 0 to 1.
    pub fn new(albedo: Color, fuzz: Scalar) -> (material: Metal)
        ensures
            material.albedo() == albedo,
            material.fuzz() == clamped(fuzz),
    {
        proof {
            lemma_one_value();
            lemma_pow2_pos(149);
        }
        Metal { albedo, fuzz: fuzz.clamp(Scalar::zero(), Scalar::one()) }
    }

    /// The color that the metal reflects.
    #[verifier::when_used_as_spec(spec_albedo)]
    pub fn albedo(&self) -> (albedo: Color)
        ensures
            albedo == self.albedo(),
    {
        self.albedo
    }

    /// How much the mirror image is blurred, between 0 and 1.
    #[verifier::when_used_as_spec(spec_fuzz)]
    pub fn fuzz(&self) -> (fuzz: Scalar)
        ensures
            fuzz == self.fuzz(),
            0 <= fuzz@ <= full_channel(),
    {
        proof {
            use_type_invariant(self);
        }
        self.fuzz
    }
}

/// A clear material such as glass, given by its index of refraction.
#[derive(Debug, Clone, Copy)]
pub struct Dielectric {
    refraction_index: Scalar,
}

impl Dielectric {
    pub closed spec fn spec_refraction_index(&self) -> Scalar {
        self.refraction_index
    }

    /// A dielectric with the given index of refraction.
    pub fn new(refraction_index: Scalar) -> (material: Dielectric)
        ensures
            material.refraction_index() == refraction_index,
    {
        Dielectric { refraction_index }
    }

    /// The index of refraction.
    #[verifier::when_used_as_spec(spec_refraction_index)]
    pub fn refraction_index(&self) -> (index: Scalar)
        ensures
            index == self.refraction_index(),
    {
        self.refraction_index
    }

    /// Whether a ray is reflected rather than refracted.
    ///
    /// `bent_sine` is the sine of the angle of incidence times the ratio of
    /// the refractive indices: above 1 no refracted ray exists. Otherwise the
    /// ray is reflected with the probability `reflectance`, which is decided
    /// by `sample`, a number drawn uniformly from 0 up to but not including 1.
    pub fn reflects(bent_sine: Scalar, reflectance: Scalar, sample: Scalar) -> (reflected: bool)
        ensures
            reflected <==> bent_sine@ > full_channel() || reflectance@ > sample@,
    {
        proof {
            lemma_one_value();
        }
        Scalar::one().lt(bent_sine) || sample.lt(reflectance)
    }
}

/// The ratio of refractive indices by which a ray is bent at a dielectric of
/// index `index`, where `inverse` is 1 over the index: the inverse where the
/// ray enters the material through a front face, the index itself where it
/// leaves through a back face.
pub fn refraction_ratio(index: Scalar, inverse: Scalar, is_front_face: bool) -> (ratio: Scalar)
    ensures
        ratio == if is_front_face {
            inverse
        } else {
            index
        },
{
    if is_front_face {
        inverse
    } else {
        index
    }
}

/// The materials that a scene can hold.
#[derive(Debug, Clone, Copy)]
pub enum MaterialDef {
    Lambertian(Lambertian),
    Metal(Metal),
    Dielectric(Dielectric),
}

impl From<Lambertian> for MaterialDef {
    fn from(value: Lambertian) -> (material: MaterialDef) {
        MaterialDef::Lambertian(value)
    }
}

impl vstd::std_specs::convert::FromSpecImpl<Lambertian> for MaterialDef {
    open spec fn obeys_from_spec() -> bool {
        true
    }

    open spec fn from_spec(value: Lambertian) -> MaterialDef {
        MaterialDef::Lambertian(value)
    }
}

impl From<Metal> for MaterialDef {
    fn from(value: Metal) -> (material: MaterialDef) {
        MaterialDef::Metal(value)
    }
}

impl vstd::std_specs::convert::FromSpecImpl<Metal> for MaterialDef {
    open spec fn obeys_from_spec() -> bool {
        true
    }

    open spec fn from_spec(value: Metal) -> MaterialDef {
        MaterialDef::Metal(value)
    }
}

impl From<Dielectric> for MaterialDef {
    fn from(value: Dielectric) -> (material: MaterialDef) {
        MaterialDef::Dielectric(value)
    }
}

impl vstd::std_specs::convert::FromSpecImpl<Dielectric> for MaterialDef {
    open spec fn obeys_from_spec() -> bool {
        true
    }

    open spec fn from_spec(value: Dielectric) -> MaterialDef {
        MaterialDef::Dielectric(value)
    }
}

impl MaterialDef {
    /// The attenuation that the material applies: its albedo for a diffuse
    /// surface and for a metal, white for a dielectric, which absorbs
    /// nothing.
    pub open spec fn spec_attenuation(&self) -> Color {
        match self {
            MaterialDef::Lambertian(inner) => inner.albedo,
            MaterialDef::Metal(inner) => inner.albedo(),
            MaterialDef::Dielectric(_) => Color::white(),
        }
    }

    /// The attenuation that the material applies.
    #[verifier::when_used_as_spec(spec_attenuation)]
    pub fn attenuation(&self) -> (attenuation: Color)
        ensures
            attenuation == self.attenuation(),
            attenuation.in_range(),
    {
        let attenuation = match self {
            MaterialDef::Lambertian(inner) => inner.albedo,
            MaterialDef::Metal(inner) => inner.albedo(),
            MaterialDef::Dielectric(_) => Color::white(),
        };
        proof {
            use_type_invariant(&attenuation);
        }
        attenuation
    }

    /// Scatters `ray_in` at `hit`.
    ///
    /// All three materials scatter every ray. The attenuation is the
    /// material's own; the scattered ray is what `deflect` makes of the
    /// material, the incoming ray and the hit.
    pub fn scatter<R, P, N, D: Fn(&MaterialDef, &R, &ShapeHit<P, N>) -> R>(
        &self,
        ray_in: &R,
        hit: &ShapeHit<P, N>,
        deflect: &D,
    ) -> (scattered: Option<Scatter<R>>)
        requires
            call_requires(*deflect, (self, ray_in, hit)),
        ensures
            scattered matches Some(scatter) && scatter.attenuation == self.attenuation() && call_ensures(
                *deflect,
                (self, ray_in, hit),
                scatter.ray,
            ),
            scattered matches Some(scatter) && scatter.attenuation.in_range(),
    {
        let ray = deflect(self, ray_in, hit);
        Some(Scatter { attenuation: self.attenuation(), ray })
    }
}

} // verus!
