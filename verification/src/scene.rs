//! The scene: one arena of shapes, materials, transforms and bounding boxes,
//! and the objects that bind them by handle.
//!
//! The four tables only grow, so a handle stays valid once it was given out.
//! An object names its shape and material by the handles the caller passes in,
//! and gets a transform and a bounding box of its own. The tables are generic
//! in what they hold: the arena keeps the books, the geometry belongs to the
//! caller.

use crate::scalar::Scalar;
use crate::shape::ShapeHit;
use vstd::prelude::*;

verus! {

/// What a ray found in the scene: the object, and where it was met.
#[derive(Debug, Clone, Copy)]
pub struct Hit<P, N> {
    pub object: ObjectId,
    pub shape_hit: ShapeHit<P, N>,
}

/// Whether `candidate` is a hit whose parameter lies strictly between `near`
/// and `far`.
pub open spec fn hit_in_range<P, N>(candidate: Option<ShapeHit<P, N>>, near: Scalar, far: Scalar) -> bool {
    candidate matches Some(hit) && near@ < hit.t@ < far@
}

/// Whether no candidate is a hit in range.
pub open spec fn no_hit_in_range<P, N>(
    candidates: Seq<Option<ShapeHit<P, N>>>,
    near: Scalar,
    far: Scalar,
) -> bool {
    forall|j: int| 0 <= j < candidates.len() ==> !hit_in_range(#[trigger] candidates[j], near, far)
}

/// Whether candidate `i` is the nearest hit in range: no other candidate in
/// range has a smaller parameter, and none before it has the same.
pub open spec fn nearest_in_range<P, N>(
    candidates: Seq<Option<ShapeHit<P, N>>>,
    near: Scalar,
    far: Scalar,
    i: int,
) -> bool {
    &&& 0 <= i < candidates.len()
    &&& hit_in_range(candidates[i], near, far)
    &&& forall|j: int|
        0 <= j < candidates.len() && hit_in_range(#[trigger] candidates[j], near, far) ==> {
            ||| candidates[i]->0.t@ < candidates[j]->0.t@
            ||| (candidates[i]->0.t@ == candidates[j]->0.t@ && i <= j)
        }
}

/// Whether `result` is what the nearest-hit query owes, given what
/// intersecting each object gave: nothing where no candidate is a hit in
/// range, else the nearest of them with the object it belongs to.
pub open spec fn nearest_of<P, N>(
    candidates: Seq<Option<ShapeHit<P, N>>>,
    near: Scalar,
    far: Scalar,
    result: Option<Hit<P, N>>,
) -> bool {
    match result {
        None => no_hit_in_range(candidates, near, far),
        Some(hit) => {
            &&& nearest_in_range(candidates, near, far, hit.object.index() as int)
            &&& candidates[hit.object.index() as int] == Some(hit.shape_hit)
        },
    }
}

/// Handle of a shape in the scene's shape table.
#[derive(Debug, Clone, Copy, PartialEq, Eq, Structural)]
pub struct ShapeId(usize);

/// Handle of a material in the scene's material table.
#[derive(Debug, Clone, Copy, PartialEq, Eq, Structural)]
pub struct MaterialId(usize);

/// Handle of a transform in the scene's transform table.
#[derive(Debug, Clone, Copy, PartialEq, Eq, Structural)]
pub struct TransformId(usize);

/// Handle of an object in the scene's object list.
#[derive(Debug, Clone, Copy, PartialEq, Eq, Structural)]
pub struct ObjectId(usize);

/// Handle of a bounding box in the scene's table of bounding boxes.
#[derive(Debug, Clone, Copy, PartialEq, Eq, Structural)]
pub struct AabbId(usize);

impl ShapeId {
    pub closed spec fn spec_index(self) -> usize {
        self.0
    }

    /// Position in the shape table.
    #[verifier::when_used_as_spec(spec_index)]
    pub fn index(self) -> (index: usize)
        ensures
            index == self.index(),
    {
        self.0
    }
}

impl MaterialId {
    pub closed spec fn spec_index(self) -> usize {
        self.0
    }

    /// Position in the material table.
    #[verifier::when_used_as_spec(spec_index)]
    pub fn index(self) -> (index: usize)
        ensures
            index == self.index(),
    {
        self.0
    }
}

impl TransformId {
    pub closed spec fn spec_index(self) -> usize {
        self.0
    }

    /// Position in the transform table.
    #[verifier::when_used_as_spec(spec_index)]
    pub fn index(self) -> (index: usize)
        ensures
            index == self.index(),
    {
        self.0
    }
}

impl ObjectId {
    pub closed spec fn spec_index(self) -> usize {
        self.0
    }

    /// Position in the object list.
    #[verifier::when_used_as_spec(spec_index)]
    pub fn index(self) -> (index: usize)
        ensures
            index == self.index(),
    {
        self.0
    }
}

impl AabbId {
    pub closed spec fn spec_index(self) -> usize {
        self.0
    }

    /// Position in the table of bounding boxes.
    #[verifier::when_used_as_spec(spec_index)]
    pub fn index(self) -> (index: usize)
        ensures
            index == self.index(),
    {
        self.0
    }
}

/// One thing to render: a shape with a material, placed by a transform and
/// enclosed by a bounding box in world space.
#[derive(Debug, Clone, Copy, PartialEq, Eq, Structural)]
pub struct Object {
    pub shape: ShapeId,
    pub material: MaterialId,
    pub transform: TransformId,
    pub aabb: AabbId,
}

/// The tables of a scene as mathematical sequences.
pub ghost struct SceneView<S, M, T, B> {
    pub shapes: Seq<S>,
    pub materials: Seq<M>,
    pub transforms: Seq<T>,
    pub aabbs: Seq<B>,
    pub objects: Seq<Object>,
}

impl<S, M, T, B> SceneView<S, M, T, B> {
    /// Whether every handle held by an object points into its table, and the
    /// `i`-th object owns the `i`-th transform and the `i`-th bounding box.
    pub open spec fn wf(self) -> bool {
        &&& self.transforms.len() == self.objects.len()
        &&& self.aabbs.len() == self.objects.len()
        &&& forall|i: int|
            0 <= i < self.objects.len() ==> {
                &&& (#[trigger] self.objects[i]).shape.index() < self.shapes.len()
                &&& self.objects[i].material.index() < self.materials.len()
                &&& self.objects[i].transform.index() == i
                &&& self.objects[i].aabb.index() == i
            }
    }

    /// Whether `object` is an object of the scene.
    pub open spec fn has_object(self, object: ObjectId) -> bool {
        object.index() < self.objects.len()
    }

    /// The shape that `object` is bound to.
    pub open spec fn shape_of(self, object: ObjectId) -> S
        recommends
            self.wf(),
            self.has_object(object),
    {
        self.shapes[self.objects[object.index() as int].shape.index() as int]
    }

    /// The material that `object` is bound to.
    pub open spec fn material_of(self, object: ObjectId) -> M
        recommends
            self.wf(),
            self.has_object(object),
    {
        self.materials[self.objects[object.index() as int].material.index() as int]
    }

    /// The transform that places `object`.
    pub open spec fn transform_of(self, object: ObjectId) -> T
        recommends
            self.wf(),
            self.has_object(object),
    {
        self.transforms[object.index() as int]
    }

    /// The bounding box of `object` in world space.
    pub open spec fn aabb_of(self, object: ObjectId) -> B
        recommends
            self.wf(),
            self.has_object(object),
    {
        self.aabbs[object.index() as int]
    }

    /// Whether `intersect` accepts every object of the scene with `ray` and
    /// the range from `near` to `far`.
    pub open spec fn can_intersect<R, P, N, F: Fn(&S, &T, &R, Scalar, Scalar) -> Option<ShapeHit<P, N>>>(
        self,
        ray: R,
        near: Scalar,
        far: Scalar,
        intersect: F,
    ) -> bool {
        forall|i: int|
            0 <= i < self.objects.len() ==> call_requires(
                intersect,
                (
                    &self.shapes[(#[trigger] self.objects[i]).shape.index() as int],
                    &self.transforms[i],
                    &ray,
                    near,
                    far,
                ),
            )
    }

    /// Whether `candidates` holds, object by object, something that
    /// `intersect` may return for the object's shape under its transform.
    pub open spec fn intersected_by<R, P, N, F: Fn(&S, &T, &R, Scalar, Scalar) -> Option<ShapeHit<P, N>>>(
        self,
        ray: R,
        near: Scalar,
        far: Scalar,
        intersect: F,
        candidates: Seq<Option<ShapeHit<P, N>>>,
    ) -> bool {
        &&& candidates.len() == self.objects.len()
        &&& forall|i: int|
            0 <= i < self.objects.len() ==> call_ensures(
                intersect,
                (&self.shapes[self.objects[i].shape.index() as int], &self.transforms[i], &ray, near, far),
                #[trigger] candidates[i],
            )
    }

    /// Whether `result` is the nearest hit of `ray` in the scene for some
    /// outcome of intersecting every object.
    pub open spec fn nearest_hit_of<R, P, N, F: Fn(&S, &T, &R, Scalar, Scalar) -> Option<ShapeHit<P, N>>>(
        self,
        ray: R,
        near: Scalar,
        far: Scalar,
        intersect: F,
        result: Option<Hit<P, N>>,
    ) -> bool {
        exists|candidates: Seq<Option<ShapeHit<P, N>>>|
            #[trigger] self.intersected_by(ray, near, far, intersect, candidates) && nearest_of(
                candidates,
                near,
                far,
                result,
            )
    }
}

/// A scene under construction. Shapes, materials and objects are added one by
/// one; [`SceneBuilder::build`] freezes the result.
pub struct SceneBuilder<S, M, T, B> {
    shapes: Vec<S>,
    materials: Vec<M>,
    transforms: Vec<T>,
    aabbs: Vec<B>,
    objects: Vec<Object>,
}

impl<S, M, T, B> View for SceneBuilder<S, M, T, B> {
    type V = SceneView<S, M, T, B>;

    closed spec fn view(&self) -> SceneView<S, M, T, B> {
        SceneView {
            shapes: self.shapes@,
            materials: self.materials@,
            transforms: self.transforms@,
            aabbs: self.aabbs@,
            objects: self.objects@,
        }
    }
}

impl<S, M, T, B> SceneBuilder<S, M, T, B> {
    /// A builder with empty tables.
    pub fn new() -> (builder: SceneBuilder<S, M, T, B>)
        ensures
            builder@.wf(),
            builder@.shapes.len() == 0,
            builder@.materials.len() == 0,
            builder@.transforms.len() == 0,
            builder@.aabbs.len() == 0,
            builder@.objects.len() == 0,
    {
        SceneBuilder {
            shapes: Vec::new(),
            materials: Vec::new(),
            transforms: Vec::new(),
            aabbs: Vec::new(),
            objects: Vec::new(),
        }
    }

    /// Appends `shape` to the shape table and returns its handle.
    pub fn add_shape(&mut self, shape: S) -> (id: ShapeId)
        ensures
            id.index() == old(self)@.shapes.len(),
            final(self)@ == (SceneView { shapes: old(self)@.shapes.push(shape), ..old(self)@ }),
            old(self)@.wf() ==> final(self)@.wf(),
    {
        self.shapes.push(shape);
        ShapeId(self.shapes.len() - 1)
    }

    /// Appends `material` to the material table and returns its handle.
    pub fn add_material(&mut self, material: M) -> (id: MaterialId)
        ensures
            id.index() == old(self)@.materials.len(),
            final(self)@ == (SceneView { materials: old(self)@.materials.push(material), ..old(self)@ }),
            old(self)@.wf() ==> final(self)@.wf(),
    {
        self.materials.push(material);
        MaterialId(self.materials.len() - 1)
    }

    /// Number of shapes added so far.
    pub fn shape_count(&self) -> (count: usize)
        ensures
            count == self@.shapes.len(),
    {
        self.shapes.len()
    }

    /// Number of materials added so far.
    pub fn material_count(&self) -> (count: usize)
        ensures
            count == self@.materials.len(),
    {
        self.materials.len()
    }

    /// Binds a shape and a material into a new object placed by `transform`.
    ///
    /// The object's bounding box in world space is computed here, once, by
    /// `enclose` from the shape and the transform, and kept beside the object.
    /// Both handles have to come from this builder.
    pub fn add_object<F: FnOnce(&S, &T) -> B>(
        &mut self,
        shape_id: ShapeId,
        material_id: MaterialId,
        transform: T,
        enclose: F,
    ) -> (id: ObjectId)
        requires
            old(self)@.wf(),
            shape_id.index() < old(self)@.shapes.len(),
            material_id.index() < old(self)@.materials.len(),
            call_requires(enclose, (&old(self)@.shapes[shape_id.index() as int], &transform)),
        ensures
            final(self)@.wf(),
            id.index() == old(self)@.objects.len(),
            final(self)@.shapes == old(self)@.shapes,
            final(self)@.materials == old(self)@.materials,
            final(self)@.transforms == old(self)@.transforms.push(transform),
            final(self)@.aabbs.len() == old(self)@.aabbs.len() + 1,
            final(self)@.aabbs.drop_last() == old(self)@.aabbs,
            call_ensures(
                enclose,
                (&old(self)@.shapes[shape_id.index() as int], &transform),
                final(self)@.aabbs.last(),
            ),
            final(self)@.objects.len() == old(self)@.objects.len() + 1,
            final(self)@.objects.drop_last() == old(self)@.objects,
            final(self)@.objects.last().shape == shape_id,
            final(self)@.objects.last().material == material_id,
            final(self)@.objects.last().transform.index() == old(self)@.transforms.len(),
            final(self)@.objects.last().aabb.index() == old(self)@.aabbs.len(),
    {
        let aabb = enclose(&self.shapes[shape_id.0], &transform);
        self.aabbs.push(aabb);
        let aabb_id = AabbId(self.aabbs.len() - 1);
        self.transforms.push(transform);
        let transform_id = TransformId(self.transforms.len() - 1);
        self.objects.push(
            Object { shape: shape_id, material: material_id, transform: transform_id, aabb: aabb_id },
        );
        ObjectId(self.objects.len() - 1)
    }

    /// Freezes the tables into a scene.
    pub fn build(self) -> (scene: Scene<S, M, T, B>)
        ensures
            scene@ == self@,
    {
        let SceneBuilder { shapes, materials, transforms, aabbs, objects } = self;
        Scene::new(shapes, materials, transforms, aabbs, objects)
    }
}

/// A finished scene. Nothing in it changes any more, so it can be shared by
/// reference among all that render it.
pub struct Scene<S, M, T, B> {
    shapes: Vec<S>,
    materials: Vec<M>,
    transforms: Vec<T>,
    aabbs: Vec<B>,
    objects: Vec<Object>,
}

impl<S, M, T, B> View for Scene<S, M, T, B> {
    type V = SceneView<S, M, T, B>;

    closed spec fn view(&self) -> SceneView<S, M, T, B> {
        SceneView {
            shapes: self.shapes@,
            materials: self.materials@,
            transforms: self.transforms@,
            aabbs: self.aabbs@,
            objects: self.objects@,
        }
    }
}

impl<S, M, T, B> Scene<S, M, T, B> {
    fn new(
        shapes: Vec<S>,
        materials: Vec<M>,
        transforms: Vec<T>,
        aabbs: Vec<B>,
        objects: Vec<Object>,
    ) -> (scene: Scene<S, M, T, B>)
        ensures
            scene@ == (SceneView {
                shapes: shapes@,
                materials: materials@,
                transforms: transforms@,
                aabbs: aabbs@,
                objects: objects@,
            }),
    {
        Scene { shapes, materials, transforms, aabbs, objects }
    }

    /// Number of objects in the scene.
    pub fn object_count(&self) -> (count: usize)
        ensures
            count == self@.objects.len(),
    {
        self.objects.len()
    }

    /// The shape that `object` is bound to.
    pub fn get_shape(&self, object: ObjectId) -> (shape: &S)
        requires
            self@.wf(),
            self@.has_object(object),
        ensures
            *shape == self@.shape_of(object),
    {
        let object = &self.objects[object.0];
        &self.shapes[object.shape.0]
    }

    /// The material that `object` is bound to.
    pub fn get_material(&self, object: ObjectId) -> (material: &M)
        requires
            self@.wf(),
            self@.has_object(object),
        ensures
            *material == self@.material_of(object),
    {
        let object = &self.objects[object.0];
        &self.materials[object.material.0]
    }

    /// The transform that places `object`.
    pub fn get_transform(&self, object: ObjectId) -> (transform: &T)
        requires
            self@.wf(),
            self@.has_object(object),
        ensures
            *transform == self@.transform_of(object),
    {
        let object = &self.objects[object.0];
        &self.transforms[object.transform.0]
    }

    /// The nearest hit of `ray` in the scene with a parameter strictly between
    /// `near` and `far`, or `None` where the ray meets nothing in that range.
    ///
    /// Every object is intersected, in the order of the object list, by one
    /// call of `intersect` with the object's shape and transform. Of the hits
    /// in range the one with the smallest parameter is returned; among equal
    /// parameters, the one of the earliest object.
    pub fn nearest_hit<R, P, N, F: Fn(&S, &T, &R, Scalar, Scalar) -> Option<ShapeHit<P, N>>>(
        &self,
        ray: &R,
        near: Scalar,
        far: Scalar,
        intersect: &F,
    ) -> (result: Option<Hit<P, N>>)
        requires
            self@.wf(),
            self@.can_intersect(*ray, near, far, *intersect),
        ensures
            self@.nearest_hit_of(*ray, near, far, *intersect, result),
            result matches Some(hit) ==> self@.has_object(hit.object) && near@ < hit.shape_hit.t@ < far@,
    {
        let mut best: Option<Hit<P, N>> = None;
        let ghost mut candidates: Seq<Option<ShapeHit<P, N>>> = Seq::empty();
        let mut i: usize = 0;
        while i < self.objects.len()
            invariant
                self@.wf(),
                self@.can_intersect(*ray, near, far, *intersect),
                i <= self.objects.len(),
                candidates.len() == i,
                forall|j: int|
                    0 <= j < i ==> call_ensures(
                        *intersect,
                        (
                            &self@.shapes[self@.objects[j].shape.index() as int],
                            &self@.transforms[j],
                            ray,
                            near,
                            far,
                        ),
                        #[trigger] candidates[j],
                    ),
                nearest_of(candidates, near, far, best),
            decreases self.objects.len() - i,
        {
            let object = &self.objects[i];
            let outcome = intersect(
                &self.shapes[object.shape.0],
                &self.transforms[object.transform.0],
                ray,
                near,
                far,
            );
            let ghost before = candidates;
            proof {
                candidates = candidates.push(outcome);
            }
            match outcome {
                None => {},
                Some(shape_hit) => {
                    if near.lt(shape_hit.t) && shape_hit.t.lt(far) {
                        let closer = match &best {
                            None => true,
                            Some(held) => shape_hit.t.lt(held.shape_hit.t),
                        };
                        if closer {
                            best = Some(Hit { object: ObjectId(i), shape_hit });
                        }
                    }
                },
            }
            proof {
                assert forall|j: int| 0 <= j < i implies candidates[j] == before[j] by {}
            }
            i += 1;
        }
        proof {
            assert(self@.intersected_by(*ray, near, far, *intersect, candidates));
        }
        best
    }

    /// The bounding box of `object` in world space.
    pub fn get_aabb(&self, object: ObjectId) -> (aabb: &B)
        requires
            self@.wf(),
            self@.has_object(object),
        ensures
            *aabb == self@.aabb_of(object),
    {
        let object = &self.objects[object.0];
        &self.aabbs[object.aabb.0]
    }
}

} // verus!
