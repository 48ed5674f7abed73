//! Bodies: what the world simulates.

use crate::scalar::Scalar;
use crate::vector::{Transform, TransformModel, Vector3, V3};
use vstd::prelude::*;

verus! {

/// Whether `x` fits a raw scalar.
pub open spec fn representable(x: int) -> bool {
    i64::MIN <= x <= i64::MAX
}

/// Whether every coordinate of `v` fits a raw scalar.
pub open spec fn representable_v3(v: V3) -> bool {
    representable(v.x) && representable(v.y) && representable(v.z)
}

/// The mathematical content of a list of bodies.
pub open spec fn models_of(bodies: Seq<Body>) -> Seq<BodyModel> {
    Seq::new(bodies.len(), |i: int| bodies[i]@)
}

/// Whether the ids in `bodies` rise strictly from each body to the next, so
/// that no id occurs twice.
pub open spec fn ids_increasing(bodies: Seq<BodyModel>) -> bool {
    forall|i: int, j: int| 0 <= i < j < bodies.len() ==> bodies[i].id < bodies[j].id
}

/// Whether every body in `bodies` is valid.
pub open spec fn all_wf(bodies: Seq<BodyModel>) -> bool {
    forall|i: int| 0 <= i < bodies.len() ==> (#[trigger] bodies[i]).wf()
}

/// Whether a body named `id` is in `bodies`.
pub open spec fn has_body(bodies: Seq<BodyModel>, id: u64) -> bool {
    exists|i: int| 0 <= i < bodies.len() && (#[trigger] bodies[i]).id == id
}

/// The place in `bodies` of the body named `id`, where there is one.
pub open spec fn index_of(bodies: Seq<BodyModel>, id: u64) -> int {
    choose|i: int| 0 <= i < bodies.len() && (#[trigger] bodies[i]).id == id
}

/// Where no id occurs twice, the body at place `i` is the one its id finds.
pub proof fn lemma_index_of(bodies: Seq<BodyModel>, i: int)
    requires
        ids_increasing(bodies),
        0 <= i < bodies.len(),
    ensures
        has_body(bodies, bodies[i].id),
        index_of(bodies, bodies[i].id) == i,
{
    let j = index_of(bodies, bodies[i].id);
    assert(0 <= j < bodies.len() && bodies[j].id == bodies[i].id);
    if j < i {
        assert(bodies[j].id < bodies[i].id);
    } else if i < j {
        assert(bodies[i].id < bodies[j].id);
    }
}

/// Finds the first place at which a body named `id` stands.
pub fn find_body(bodies: &Vec<Body>, id: BodyId) -> (r: Option<usize>)
    ensures
        match r {
            Some(i) => {
                &&& i < bodies.len()
                &&& bodies[i as int]@.id == id@
                &&& has_body(models_of(bodies@), id@)
                &&& forall|k: int| 0 <= k < i ==> (#[trigger] bodies[k])@.id != id@
            },
            None => !has_body(models_of(bodies@), id@),
        },
{
    let mut i: usize = 0;
    while i < bodies.len()
        invariant
            i <= bodies.len(),
            forall|k: int| 0 <= k < i ==> (#[trigger] models_of(bodies@)[k]).id != id@,
            forall|k: int| 0 <= k < i ==> (#[trigger] bodies[k])@.id != id@,
        decreases bodies.len() - i,
    {
        if bodies[i].id.0 == id.0 {
            assert(models_of(bodies@)[i as int].id == id@);
            return Some(i);
        }
        i = i + 1;
    }
    None
}

/// The name of a body: given out once, at creation, and never again.
#[derive(Clone, Copy, Debug, PartialEq, Eq, Hash, Structural)]
pub struct BodyId(pub u64);

impl View for BodyId {
    type V = u64;

    open spec fn view(&self) -> u64 {
        self.0
    }
}

/// How a body takes part in the simulation.
#[derive(Clone, Copy, Debug, PartialEq, Eq, Structural)]
pub enum BodyKind {
    /// Never moves; collides as if infinitely heavy.
    Static,
    /// Moves under gravity and drag and is pushed by collisions.
    Dynamic,
}

/// The mathematical content of a [`Shape`].
pub enum ShapeModel {
    Sphere { radius: int },
}

impl ShapeModel {
    /// Radius of the smallest sphere about the body's position that holds
    /// the whole shape.
    pub open spec fn bounding_radius(self) -> int {
        match self {
            ShapeModel::Sphere { radius } => radius,
        }
    }

    /// Whether every dimension of the shape is positive.
    pub open spec fn valid(self) -> bool {
        match self {
            ShapeModel::Sphere { radius } => radius > 0,
        }
    }
}

/// The outline of a body.
#[derive(Clone, Copy, Debug, PartialEq, Eq, Structural)]
pub enum Shape {
    Sphere { radius: Scalar },
}

impl View for Shape {
    type V = ShapeModel;

    open spec fn view(&self) -> ShapeModel {
        match self {
            Shape::Sphere { radius } => ShapeModel::Sphere { radius: radius@ },
        }
    }
}

impl Shape {
    /// A sphere of the given radius.
    pub fn sphere(radius: Scalar) -> (r: Shape)
        ensures
            r@ == (ShapeModel::Sphere { radius: radius@ }),
    {
        Shape::Sphere { radius }
    }

    /// Radius of the smallest sphere about the body's position that holds
    /// the whole shape.
    pub fn bounding_radius(&self) -> (r: Scalar)
        ensures
            r@ == self@.bounding_radius(),
    {
        match self {
            Shape::Sphere { radius } => *radius,
        }
    }

    /// Whether every dimension of the shape is positive.
    pub fn is_valid(&self) -> (r: bool)
        ensures
            r == self@.valid(),
    {
        match self {
            Shape::Sphere { radius } => radius.is_positive(),
        }
    }
}

/// The mathematical content of a [`Body`].
pub struct BodyModel {
    pub id: u64,
    pub shape: ShapeModel,
    pub mass: int,
    pub transform: TransformModel,
    pub velocity: V3,
    pub acceleration: V3,
    pub kind: BodyKind,
}

impl BodyModel {
    /// Whether the body moves.
    pub open spec fn is_dynamic(self) -> bool {
        self.kind == BodyKind::Dynamic
    }

    /// Where the body is.
    pub open spec fn position(self) -> V3 {
        self.transform.position
    }

    /// The body moved to `position`, all else kept.
    pub open spec fn with_position(self, position: V3) -> BodyModel {
        BodyModel {
            transform: TransformModel { position, ..self.transform },
            ..self
        }
    }

    /// The body given the velocity `velocity`, all else kept.
    pub open spec fn with_velocity(self, velocity: V3) -> BodyModel {
        BodyModel { velocity, ..self }
    }

    /// Whether every number in the body fits a raw scalar.
    pub open spec fn representable(self) -> bool {
        &&& representable(self.shape.bounding_radius())
        &&& representable(self.mass)
        &&& representable_v3(self.transform.position)
        &&& representable(self.transform.orientation.w)
        &&& representable(self.transform.orientation.x)
        &&& representable(self.transform.orientation.y)
        &&& representable(self.transform.orientation.z)
        &&& representable(self.transform.scale)
        &&& representable_v3(self.velocity)
        &&& representable_v3(self.acceleration)
    }

    /// What holds of every body in a world: its shape has positive
    /// dimensions; if it moves, its mass is positive; if it does not, it has
    /// neither velocity nor acceleration.
    pub open spec fn wf(self) -> bool {
        &&& self.representable()
        &&& self.shape.valid()
        &&& self.kind == BodyKind::Dynamic ==> self.mass > 0
        &&& self.kind == BodyKind::Static ==> self.velocity == V3::zero() && self.acceleration
            == V3::zero()
    }
}

/// One simulated body.
#[derive(Clone, Copy, Debug, PartialEq, Eq, Structural)]
pub struct Body {
    pub id: BodyId,
    pub shape: Shape,
    pub mass: Scalar,
    pub transform: Transform,
    pub velocity: Vector3,
    pub acceleration: Vector3,
    pub kind: BodyKind,
}

impl View for Body {
    type V = BodyModel;

    open spec fn view(&self) -> BodyModel {
        BodyModel {
            id: self.id@,
            shape: self.shape@,
            mass: self.mass@,
            transform: self.transform@,
            velocity: self.velocity@,
            acceleration: self.acceleration@,
            kind: self.kind,
        }
    }
}

impl Body {
    /// A body at rest.
    pub fn at_rest(id: BodyId, shape: Shape, mass: Scalar, transform: Transform, kind: BodyKind) -> (r:
        Body)
        ensures
            r@ == (BodyModel {
                id: id@,
                shape: shape@,
                mass: mass@,
                transform: transform@,
                velocity: V3::zero(),
                acceleration: V3::zero(),
                kind,
            }),
    {
        Body {
            id,
            shape,
            mass,
            transform,
            velocity: Vector3::zero(),
            acceleration: Vector3::zero(),
            kind,
        }
    }

    /// Whether the body moves.
    pub fn is_dynamic(&self) -> (r: bool)
        ensures
            r == self@.is_dynamic(),
    {
        match self.kind {
            BodyKind::Dynamic => true,
            BodyKind::Static => false,
        }
    }

    /// The numbers of a body always fit raw scalars.
    pub proof fn lemma_representable(self)
        ensures
            self@.representable(),
    {
    }
}

} // verus!
