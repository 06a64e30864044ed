//! Axis-aligned bounding boxes.
//!
//! A box is a range along each of the three axes, each with a positive
//! extent. Placing a box in the world means placing its eight corners and
//! enclosing them again; where a corner lands is the caller's arithmetic.

use crate::scalar::Scalar;
use std::ops::Range;
use vstd::prelude::*;

verus! {

/// A point by its three coordinates.
pub type Corner = (Scalar, Scalar, Scalar);

/// Whether `low` is one of `values` and none of them is less.
pub open spec fn is_least(values: Seq<Scalar>, low: Scalar) -> bool {
    &&& exists|k: int| 0 <= k < values.len() && #[trigger] values[k] == low
    &&& forall|k: int| 0 <= k < values.len() ==> low@ <= (#[trigger] values[k])@
}

/// Whether `high` is one of `values` and none of them is greater.
pub open spec fn is_greatest(values: Seq<Scalar>, high: Scalar) -> bool {
    &&& exists|k: int| 0 <= k < values.len() && #[trigger] values[k] == high
    &&& forall|k: int| 0 <= k < values.len() ==> (#[trigger] values[k])@ <= high@
}

/// Whether all of `values` denote the same number.
pub open spec fn is_flat(values: Seq<Scalar>) -> bool {
    forall|i: int, j: int|
        0 <= i < values.len() && 0 <= j < values.len() ==> (#[trigger] values[i])@ == (#[trigger] values[j])@
}

/// Whether `points` leave a box no extent: there are none, or along some
/// axis their coordinates all denote the same number.
pub open spec fn without_extent(points: Seq<Corner>) -> bool {
    ||| points.len() == 0
    ||| is_flat(along(points, 0))
    ||| is_flat(along(points, 1))
    ||| is_flat(along(points, 2))
}

/// The coordinates of `points` along one axis: 0 for x, 1 for y, else z.
pub open spec fn along(points: Seq<Corner>, axis: int) -> Seq<Scalar> {
    Seq::new(
        points.len(),
        |k: int|
            if axis == 0 {
                points[k].0
            } else if axis == 1 {
                points[k].1
            } else {
                points[k].2
            },
    )
}

/// A box with its faces parallel to the coordinate planes. Along every axis
/// its lower bound lies strictly below its upper bound.
#[derive(Debug, Clone, Copy)]
pub struct AxisAlignedBoundingBox {
    x: (Scalar, Scalar),
    y: (Scalar, Scalar),
    z: (Scalar, Scalar),
}

impl AxisAlignedBoundingBox {
    #[verifier::type_invariant]
    spec fn has_extent(self) -> bool {
        &&& self.x.0@ < self.x.1@
        &&& self.y.0@ < self.y.1@
        &&& self.z.0@ < self.z.1@
    }

    pub closed spec fn spec_x(&self) -> (Scalar, Scalar) {
        self.x
    }

    pub closed spec fn spec_y(&self) -> (Scalar, Scalar) {
        self.y
    }

    pub closed spec fn spec_z(&self) -> (Scalar, Scalar) {
        self.z
    }

    /// Corner `k` of the box, for `k` from 0 to 7: the four corners of the
    /// lower z face, then those of the upper; within a face x changes
    /// slower than y.
    pub open spec fn corner(&self, k: int) -> Corner {
        (
            if (k / 2) % 2 == 0 {
                self.x().0
            } else {
                self.x().1
            },
            if k % 2 == 0 {
                self.y().0
            } else {
                self.y().1
            },
            if k / 4 == 0 {
                self.z().0
            } else {
                self.z().1
            },
        )
    }

    /// Whether the box encloses `points` tightly: along each axis it reaches
    /// from the least to the greatest coordinate among them.
    pub open spec fn encloses(&self, points: Seq<Corner>) -> bool {
        &&& is_least(along(points, 0), self.x().0)
        &&& is_greatest(along(points, 0), self.x().1)
        &&& is_least(along(points, 1), self.y().0)
        &&& is_greatest(along(points, 1), self.y().1)
        &&& is_least(along(points, 2), self.z().0)
        &&& is_greatest(along(points, 2), self.z().1)
    }

    /// The box that spans the three ranges. Each range has to have a start
    /// strictly below its end.
    pub fn new(x_range: Range<Scalar>, y_range: Range<Scalar>, z_range: Range<Scalar>) -> (aabb:
        AxisAlignedBoundingBox)
        requires
            x_range.start@ < x_range.end@,
            y_range.start@ < y_range.end@,
            z_range.start@ < z_range.end@,
        ensures
            aabb.x() == (x_range.start, x_range.end),
            aabb.y() == (y_range.start, y_range.end),
            aabb.z() == (z_range.start, z_range.end),
    {
        AxisAlignedBoundingBox {
            x: (x_range.start, x_range.end),
            y: (y_range.start, y_range.end),
            z: (z_range.start, z_range.end),
        }
    }

    /// Lower and upper bound along the x axis, the lower strictly below the
    /// upper.
    #[verifier::when_used_as_spec(spec_x)]
    pub fn x(&self) -> (bounds: (Scalar, Scalar))
        ensures
            bounds == self.x(),
            bounds.0@ < bounds.1@,
    {
        proof {
            use_type_invariant(self);
        }
        self.x
    }

    /// Lower and upper bound along the y axis, the lower strictly below the
    /// upper.
    #[verifier::when_used_as_spec(spec_y)]
    pub fn y(&self) -> (bounds: (Scalar, Scalar))
        ensures
            bounds == self.y(),
            bounds.0@ < bounds.1@,
    {
        proof {
            use_type_invariant(self);
        }
        self.y
    }

    /// Lower and upper bound along the z axis, the lower strictly below the
    /// upper.
    #[verifier::when_used_as_spec(spec_z)]
    pub fn z(&self) -> (bounds: (Scalar, Scalar))
        ensures
            bounds == self.z(),
            bounds.0@ < bounds.1@,
    {
        proof {
            use_type_invariant(self);
        }
        self.z
    }

    /// The eight corners of the box, in the order of [`Self::corner`].
    pub fn corners(&self) -> (corners: Vec<Corner>)
        ensures
            corners.len() == 8,
            forall|k: int| 0 <= k < 8 ==> #[trigger] corners[k] == self.corner(k),
    {
        let mut corners: Vec<Corner> = Vec::new();
        corners.push((self.x.0, self.y.0, self.z.0));
        corners.push((self.x.0, self.y.1, self.z.0));
        corners.push((self.x.1, self.y.0, self.z.0));
        corners.push((self.x.1, self.y.1, self.z.0));
        corners.push((self.x.0, self.y.0, self.z.1));
        corners.push((self.x.0, self.y.1, self.z.1));
        corners.push((self.x.1, self.y.0, self.z.1));
        corners.push((self.x.1, self.y.1, self.z.1));
        corners
    }

    /// The box that tightly encloses `points`, or `None` where the points are
    /// none at all or leave the box without extent along some axis.
    pub fn enclosing(points: &Vec<Corner>) -> (aabb: Option<AxisAlignedBoundingBox>)
        ensures
            aabb is None <==> without_extent(points@),
            aabb matches Some(found) ==> found.encloses(points@),
    {
        if points.len() == 0 {
            return None;
        }
        let first = points[0];
        let mut x = (first.0, first.0);
        let mut y = (first.1, first.1);
        let mut z = (first.2, first.2);
        let mut k: usize = 1;
        assert(along(points@, 0).take(1)[0] == first.0);
        assert(along(points@, 1).take(1)[0] == first.1);
        assert(along(points@, 2).take(1)[0] == first.2);
        while k < points.len()
            invariant
                1 <= k <= points.len(),
                is_least(along(points@, 0).take(k as int), x.0),
                is_greatest(along(points@, 0).take(k as int), x.1),
                is_least(along(points@, 1).take(k as int), y.0),
                is_greatest(along(points@, 1).take(k as int), y.1),
                is_least(along(points@, 2).take(k as int), z.0),
                is_greatest(along(points@, 2).take(k as int), z.1),
            decreases points.len() - k,
        {
            let p = points[k];
            proof {
                lemma_extend_least(along(points@, 0), k as int, x.0);
                lemma_extend_greatest(along(points@, 0), k as int, x.1);
                lemma_extend_least(along(points@, 1), k as int, y.0);
                lemma_extend_greatest(along(points@, 1), k as int, y.1);
                lemma_extend_least(along(points@, 2), k as int, z.0);
                lemma_extend_greatest(along(points@, 2), k as int, z.1);
            }
            x = (x.0.min(p.0), x.1.max(p.0));
            y = (y.0.min(p.1), y.1.max(p.1));
            z = (z.0.min(p.2), z.1.max(p.2));
            k += 1;
        }
        proof {
            assert(along(points@, 0).take(k as int) == along(points@, 0));
            assert(along(points@, 1).take(k as int) == along(points@, 1));
            assert(along(points@, 2).take(k as int) == along(points@, 2));
        }
        proof {
            lemma_flat(along(points@, 0), x.0, x.1);
            lemma_flat(along(points@, 1), y.0, y.1);
            lemma_flat(along(points@, 2), z.0, z.1);
        }
        if !x.0.lt(x.1) || !y.0.lt(y.1) || !z.0.lt(z.1) {
            None
        } else {
            Some(AxisAlignedBoundingBox { x, y, z })
        }
    }

    /// The box placed in the world: the tight enclosure of where `place`
    /// puts each of the eight corners, or `None` where that leaves the box
    /// without extent along some axis.
    pub fn apply_transform<F: Fn(Scalar, Scalar, Scalar) -> Corner>(&self, place: &F) -> (aabb: Option<
        AxisAlignedBoundingBox,
    >)
        requires
            forall|x: Scalar, y: Scalar, z: Scalar| call_requires(*place, (x, y, z)),
        ensures
            exists|placed: Seq<Corner>| #[trigger]
                self.placed_by(*place, placed) && {
                    &&& aabb is None <==> without_extent(placed)
                    &&& aabb matches Some(found) ==> found.encloses(placed)
                },
    {
        let corners = self.corners();
        let mut placed: Vec<Corner> = Vec::new();
        let mut k: usize = 0;
        while k < 8
            invariant
                k <= 8,
                corners.len() == 8,
                placed.len() == k,
                forall|x: Scalar, y: Scalar, z: Scalar| call_requires(*place, (x, y, z)),
                forall|at: int| 0 <= at < 8 ==> #[trigger] corners[at] == self.corner(at),
                forall|at: int|
                    0 <= at < k ==> call_ensures(
                        *place,
                        (self.corner(at).0, self.corner(at).1, self.corner(at).2),
                        #[trigger] placed[at],
                    ),
            decreases 8 - k,
        {
            let corner = corners[k];
            let image = place(corner.0, corner.1, corner.2);
            placed.push(image);
            k += 1;
        }
        let aabb = AxisAlignedBoundingBox::enclosing(&placed);
        proof {
            assert(self.placed_by(*place, placed@));
        }
        aabb
    }

    /// Whether `placed` holds, corner by corner, a point that `place` may
    /// return for the corner.
    pub open spec fn placed_by<F: Fn(Scalar, Scalar, Scalar) -> Corner>(
        &self,
        place: F,
        placed: Seq<Corner>,
    ) -> bool {
        &&& placed.len() == 8
        &&& forall|k: int|
            0 <= k < 8 ==> call_ensures(
                place,
                (self.corner(k).0, self.corner(k).1, self.corner(k).2),
                #[trigger] placed[k],
            )
    }
}

/// The least of the first `k` values, compared with the next, gives the least
/// of the first `k + 1`.
proof fn lemma_extend_least(values: Seq<Scalar>, k: int, low: Scalar)
    requires
        0 < k < values.len(),
        is_least(values.take(k), low),
    ensures
        is_least(
            values.take(k + 1),
            if values[k]@ < low@ {
                values[k]
            } else {
                low
            },
        ),
{
    let next = if values[k]@ < low@ {
        values[k]
    } else {
        low
    };
    let at = choose|at: int| 0 <= at < values.take(k).len() && #[trigger] values.take(k)[at] == low;
    assert(values.take(k + 1)[at] == low);
    assert(values.take(k + 1)[k] == values[k]);
    assert forall|j: int| 0 <= j < values.take(k + 1).len() implies next@ <= (#[trigger] values.take(
        k + 1,
    )[j])@ by {
        if j < k {
            assert(values.take(k)[j] == values.take(k + 1)[j]);
        }
    }
}

/// The greatest of the first `k` values, compared with the next, gives the
/// greatest of the first `k + 1`.
proof fn lemma_extend_greatest(values: Seq<Scalar>, k: int, high: Scalar)
    requires
        0 < k < values.len(),
        is_greatest(values.take(k), high),
    ensures
        is_greatest(
            values.take(k + 1),
            if high@ < values[k]@ {
                values[k]
            } else {
                high
            },
        ),
{
    let next = if high@ < values[k]@ {
        values[k]
    } else {
        high
    };
    let at = choose|at: int| 0 <= at < values.take(k).len() && #[trigger] values.take(k)[at] == high;
    assert(values.take(k + 1)[at] == high);
    assert(values.take(k + 1)[k] == values[k]);
    assert forall|j: int| 0 <= j < values.take(k + 1).len() implies (#[trigger] values.take(k + 1)[j])@
        <= next@ by {
        if j < k {
            assert(values.take(k)[j] == values.take(k + 1)[j]);
        }
    }
}

/// Values all denote the same number exactly where their least is not below
/// their greatest.
proof fn lemma_flat(values: Seq<Scalar>, low: Scalar, high: Scalar)
    requires
        is_least(values, low),
        is_greatest(values, high),
    ensures
        is_flat(values) <==> !(low@ < high@),
{
    let at_high = choose|at: int| 0 <= at < values.len() && #[trigger] values[at] == high;
    let at_low = choose|at: int| 0 <= at < values.len() && #[trigger] values[at] == low;
    assert(low@ <= values[at_high]@);
    if is_flat(values) {
        assert(values[at_low]@ == values[at_high]@);
    }
}

} // verus!
