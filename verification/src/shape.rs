//! Shapes and what a ray finds on them.
//!
//! A shape lives in a frame of its own; the scene places it with a transform.
//! Intersecting a ray with a closed surface such as a sphere means solving a
//! quadratic in the ray's parameter. Solving is arithmetic and left to the
//! caller; which root counts as the hit is decided here.

use crate::aabb::AxisAlignedBoundingBox;
use crate::scalar::{lemma_key_orders_values, Scalar, ONE_BITS};
use vstd::prelude::*;

verus! {

/// Where a ray met a surface.
///
/// `point` and `normal` are the caller's geometry; the normal points against
/// the incoming ray. `t` is the parameter of the point along the ray, and
/// `is_front_face` tells whether the ray came from outside the shape.
#[derive(Debug, Clone, Copy)]
pub struct ShapeHit<P, N> {
    pub point: P,
    pub normal: N,
    pub t: Scalar,
    pub is_front_face: bool,
}

/// The sphere of radius 1 around the origin of its own frame.
#[derive(Debug, Clone, Copy, PartialEq, Eq, Structural)]
pub struct UnitSphere;

/// The shapes that a scene can hold.
#[derive(Debug, Clone, Copy, PartialEq, Eq, Structural)]
pub enum ShapeDef {
    UnitSphere(UnitSphere),
}

impl From<UnitSphere> for ShapeDef {
    fn from(value: UnitSphere) -> (shape: ShapeDef) {
        ShapeDef::UnitSphere(value)
    }
}

impl vstd::std_specs::convert::FromSpecImpl<UnitSphere> for ShapeDef {
    open spec fn obeys_from_spec() -> bool {
        true
    }

    open spec fn from_spec(value: UnitSphere) -> ShapeDef {
        ShapeDef::UnitSphere(value)
    }
}

/// Pattern of -1.0.
pub const MINUS_ONE_BITS: u32 = 0xbf80_0000;

/// The arithmetic of intersecting a ray with a surface given by a quadratic,
/// supplied by the caller.
pub struct Quadric<D, Q, S> {
    /// The discriminant of the quadratic that the ray makes with the surface.
    pub discriminant: D,
    /// Both roots of that quadratic, given a discriminant that is not
    /// negative.
    pub roots: Q,
    /// The point of the ray at a parameter, the normal of the surface there
    /// turned against the ray, and whether the ray came from outside.
    pub surface: S,
}

/// Whether `hit` is what intersecting `ray` with a surface owes, for some
/// outcome of the arithmetic in `quadric`.
///
/// With a negative discriminant the ray misses. Otherwise it hits at the
/// nearest root in range, if there is one, and the hit holds the surface at
/// that parameter.
pub open spec fn quadric_hit<R, P, N, D, Q, S>(
    quadric: Quadric<D, Q, S>,
    ray: R,
    near: Scalar,
    far: Scalar,
    hit: Option<ShapeHit<P, N>>,
) -> bool where D: Fn(&R) -> Scalar, Q: Fn(&R, Scalar) -> (Scalar, Scalar), S: Fn(&R, Scalar) -> (P, N, bool) {
    exists|discriminant: Scalar, first: Scalar, second: Scalar|
        {
            &&& #[trigger] solved(quadric, ray, discriminant, first, second)
            &&& match hit {
                None => discriminant@ < 0 || nearest_root_of(first, second, near, far) is None,
                Some(hit) => {
                    &&& discriminant@ >= 0
                    &&& nearest_root_of(first, second, near, far) == Some(hit.t)
                    &&& call_ensures(quadric.surface, (&ray, hit.t), (hit.point, hit.normal, hit.is_front_face))
                },
            }
        }
}

/// Whether `discriminant` is a discriminant that `quadric` may give for
/// `ray`, and, where it is not negative, `first` and `second` are roots that
/// `quadric` may give for it.
pub open spec fn solved<R, D, Q, S>(
    quadric: Quadric<D, Q, S>,
    ray: R,
    discriminant: Scalar,
    first: Scalar,
    second: Scalar,
) -> bool where D: Fn(&R) -> Scalar, Q: Fn(&R, Scalar) -> (Scalar, Scalar) {
    &&& call_ensures(quadric.discriminant, (&ray,), discriminant)
    &&& discriminant@ >= 0 ==> call_ensures(quadric.roots, (&ray, discriminant), (first, second))
}

/// Whether the parts of `quadric` accept whatever a shape may hand them.
pub open spec fn quadric_ready<R, P, N, D, Q, S>(quadric: Quadric<D, Q, S>) -> bool where
    D: Fn(&R) -> Scalar,
    Q: Fn(&R, Scalar) -> (Scalar, Scalar),
    S: Fn(&R, Scalar) -> (P, N, bool),
 {
    &&& forall|ray: R| call_requires(quadric.discriminant, (&ray,))
    &&& forall|ray: R, discriminant: Scalar| call_requires(quadric.roots, (&ray, discriminant))
    &&& forall|ray: R, t: Scalar| call_requires(quadric.surface, (&ray, t))
}

impl UnitSphere {
    /// The box from -1 to 1 along every axis, which the sphere touches from
    /// inside.
    pub fn aabb(&self) -> (aabb: AxisAlignedBoundingBox)
        ensures
            aabb.x() == (Scalar::of_bits(MINUS_ONE_BITS), Scalar::of_bits(ONE_BITS)),
            aabb.y() == (Scalar::of_bits(MINUS_ONE_BITS), Scalar::of_bits(ONE_BITS)),
            aabb.z() == (Scalar::of_bits(MINUS_ONE_BITS), Scalar::of_bits(ONE_BITS)),
    {
        let low = Scalar::from_bits(MINUS_ONE_BITS).unwrap();
        let high = Scalar::one();
        proof {
            lemma_key_orders_values(MINUS_ONE_BITS, ONE_BITS);
        }
        AxisAlignedBoundingBox::new(low..high, low..high, low..high)
    }

    /// Where `ray` hits the sphere at a parameter strictly between `near` and
    /// `far`, or `None` where it does not. The quadratic of the ray and the
    /// sphere is solved by `quadric`.
    pub fn hit<R, P, N, D, Q, S>(
        &self,
        ray: &R,
        near: Scalar,
        far: Scalar,
        quadric: &Quadric<D, Q, S>,
    ) -> (hit: Option<ShapeHit<P, N>>) where
        D: Fn(&R) -> Scalar,
        Q: Fn(&R, Scalar) -> (Scalar, Scalar),
        S: Fn(&R, Scalar) -> (P, N, bool),

        requires
            quadric_ready::<R, P, N, D, Q, S>(*quadric),
        ensures
            quadric_hit(*quadric, *ray, near, far, hit),
            hit matches Some(found) ==> in_range(found.t, near, far),
    {
        let discriminant = (quadric.discriminant)(ray);
        if discriminant.lt(Scalar::zero()) {
            proof {
                assert(solved(*quadric, *ray, discriminant, discriminant, discriminant));
            }
            return None;
        }
        let (first, second) = (quadric.roots)(ray, discriminant);
        proof {
            assert(solved(*quadric, *ray, discriminant, first, second));
        }
        match nearest_root(first, second, near, far) {
            None => None,
            Some(t) => {
                let (point, normal, is_front_face) = (quadric.surface)(ray, t);
                Some(ShapeHit { point, normal, t, is_front_face })
            },
        }
    }
}

impl ShapeDef {
    /// The bounding box of the shape in its own frame.
    pub fn aabb(&self) -> (aabb: AxisAlignedBoundingBox)
        ensures
            aabb.x() == (Scalar::of_bits(MINUS_ONE_BITS), Scalar::of_bits(ONE_BITS)),
            aabb.y() == (Scalar::of_bits(MINUS_ONE_BITS), Scalar::of_bits(ONE_BITS)),
            aabb.z() == (Scalar::of_bits(MINUS_ONE_BITS), Scalar::of_bits(ONE_BITS)),
    {
        match self {
            ShapeDef::UnitSphere(sphere) => sphere.aabb(),
        }
    }

    /// Where `ray` hits the shape at a parameter strictly between `near` and
    /// `far`, or `None` where it does not.
    pub fn hit<R, P, N, D, Q, S>(
        &self,
        ray: &R,
        near: Scalar,
        far: Scalar,
        quadric: &Quadric<D, Q, S>,
    ) -> (hit: Option<ShapeHit<P, N>>) where
        D: Fn(&R) -> Scalar,
        Q: Fn(&R, Scalar) -> (Scalar, Scalar),
        S: Fn(&R, Scalar) -> (P, N, bool),

        requires
            quadric_ready::<R, P, N, D, Q, S>(*quadric),
        ensures
            quadric_hit(*quadric, *ray, near, far, hit),
            hit matches Some(found) ==> in_range(found.t, near, far),
    {
        match self {
            ShapeDef::UnitSphere(sphere) => sphere.hit(ray, near, far, quadric),
        }
    }
}

/// Whether a ray meets a surface from outside, given the dot product of the
/// outward normal at the hit with the direction of the ray: the ray comes
/// from outside where it runs against the outward normal. Otherwise it
/// leaves the shape from inside, and the normal of the hit is the outward
/// normal turned round, so that it points against the ray either way.
pub fn is_front_face(outward_dot_direction: Scalar) -> (front: bool)
    ensures
        front <==> outward_dot_direction@ < 0,
{
    outward_dot_direction.lt(Scalar::zero())
}

/// Whether parameter `t` lies strictly between `near` and `far`.
pub open spec fn in_range(t: Scalar, near: Scalar, far: Scalar) -> bool {
    near@ < t@ < far@
}

/// The root at which a ray hits, given both roots of its quadratic: the
/// smaller of those that lie strictly between `near` and `far`. A root out of
/// range is passed over even where the other one is in range, and the other
/// one is taken. Of two roots in range that denote the same number, the first
/// is taken.
pub open spec fn nearest_root_of(first: Scalar, second: Scalar, near: Scalar, far: Scalar) -> Option<
    Scalar,
> {
    if in_range(first, near, far) && in_range(second, near, far) {
        if second@ < first@ {
            Some(second)
        } else {
            Some(first)
        }
    } else if in_range(first, near, far) {
        Some(first)
    } else if in_range(second, near, far) {
        Some(second)
    } else {
        None
    }
}

/// What `nearest_root_of` picks is a root in range that no root in range
/// undercuts, and it picks one wherever a root is in range.
pub proof fn lemma_nearest_root_is_least(first: Scalar, second: Scalar, near: Scalar, far: Scalar)
    ensures
        nearest_root_of(first, second, near, far) is None <==> !in_range(first, near, far) && !in_range(
            second,
            near,
            far,
        ),
        nearest_root_of(first, second, near, far) matches Some(t) ==> {
            &&& t == first || t == second
            &&& in_range(t, near, far)
            &&& in_range(first, near, far) ==> t@ <= first@
            &&& in_range(second, near, far) ==> t@ <= second@
        },
{
}

/// The root at which a ray hits, given both roots of its quadratic, or `None`
/// where neither lies strictly between `near` and `far`.
pub fn nearest_root(first: Scalar, second: Scalar, near: Scalar, far: Scalar) -> (root: Option<Scalar>)
    ensures
        root == nearest_root_of(first, second, near, far),
{
    let first_counts = near.lt(first) && first.lt(far);
    let second_counts = near.lt(second) && second.lt(far);
    if first_counts && second_counts {
        if second.lt(first) {
            Some(second)
        } else {
            Some(first)
        }
    } else if first_counts {
        Some(first)
    } else if second_counts {
        Some(second)
    } else {
        None
    }
}

} // verus!
