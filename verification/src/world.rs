//! The world: the registry of bodies, the forces that act on all of them,
//! and the step that moves the simulation on.

use crate::body::{
    all_wf, find_body, has_body, ids_increasing, index_of, lemma_index_of, models_of,
    representable_v3, Body, BodyId, BodyKind, BodyModel, Shape, ShapeModel,
};
use crate::broad_phase::{broad_phase, candidate_pairs};
use crate::integrator::{integrate_all, integrated_all, lemma_integrated_all_wf};
use crate::narrow_phase::{contacts_among, narrow_phase};
use crate::resolver::{resolve_all, resolved_all};
use crate::scalar::Scalar;
use crate::vector::{Transform, TransformModel, Vector3, V3};
use vstd::prelude::*;

verus! {

/// Why the world refused a request. A refused request changes nothing.
#[derive(Clone, Copy, Debug, PartialEq, Eq, Structural)]
pub enum PhysicsError {
    /// A dynamic body was to be created with a mass that is not positive.
    InvalidMass,
    /// A body was to be created with a shape dimension that is not positive.
    InvalidShape,
    /// A step was asked for over a negative time.
    InvalidDeltaTime,
    /// No body has the id that was given.
    NotFound,
}

/// The mathematical content of a [`World`]: the bodies by rising id, the
/// forces, and the id that the next body will get.
pub struct WorldModel {
    pub gravity: V3,
    pub air_friction: int,
    pub bodies: Seq<BodyModel>,
    pub next_id: int,
}

/// Why a body of this description cannot be created, if it cannot. The mass
/// is looked at first.
pub open spec fn creation_error(shape: ShapeModel, mass: int, kind: BodyKind) -> Option<
    PhysicsError,
> {
    if kind == BodyKind::Dynamic && mass <= 0 {
        Some(PhysicsError::InvalidMass)
    } else if !shape.valid() {
        Some(PhysicsError::InvalidShape)
    } else {
        None
    }
}

/// A new body as the world stores it: at rest.
pub open spec fn newborn(
    id: u64,
    shape: ShapeModel,
    mass: int,
    transform: TransformModel,
    kind: BodyKind,
) -> BodyModel {
    BodyModel {
        id,
        shape,
        mass,
        transform,
        velocity: V3::zero(),
        acceleration: V3::zero(),
        kind,
    }
}

/// The bodies after one step of `dt`: all are integrated, then the contacts
/// among the candidate pairs of the integrated bodies are resolved in order.
pub open spec fn stepped_bodies(
    bodies: Seq<BodyModel>,
    gravity: V3,
    air_friction: int,
    dt: int,
) -> Seq<BodyModel> {
    let moved = integrated_all(bodies, gravity, air_friction, dt);
    let pairs = candidate_pairs(moved);
    let contacts = contacts_among(moved, pairs, pairs.len() as int);
    resolved_all(moved, contacts, contacts.len() as int)
}

impl WorldModel {
    /// What holds of every world: drag is not negative; every body is valid;
    /// ids rise strictly along the bodies, so none occurs twice; and every id
    /// in use lies below the next one to be given out.
    pub open spec fn wf(self) -> bool {
        &&& representable_v3(self.gravity)
        &&& 0 <= self.air_friction <= i64::MAX
        &&& 0 <= self.next_id <= u64::MAX
        &&& self.bodies.len() <= usize::MAX
        &&& all_wf(self.bodies)
        &&& ids_increasing(self.bodies)
        &&& forall|i: int| 0 <= i < self.bodies.len() ==> (#[trigger] self.bodies[i]).id
            < self.next_id
    }

    /// Whether a body named `id` is in the world.
    pub open spec fn contains(self, id: u64) -> bool {
        has_body(self.bodies, id)
    }

    /// The body named `id`, where there is one.
    pub open spec fn body(self, id: u64) -> BodyModel {
        self.bodies[index_of(self.bodies, id)]
    }

    /// The world with `b` added under the next id.
    pub open spec fn with_body(self, b: BodyModel) -> WorldModel {
        WorldModel { bodies: self.bodies.push(b), next_id: self.next_id + 1, ..self }
    }

    /// The world without the body named `id`.
    pub open spec fn without(self, id: u64) -> WorldModel {
        WorldModel { bodies: self.bodies.remove(index_of(self.bodies, id)), ..self }
    }

    /// The world after one step of `dt`.
    pub open spec fn stepped(self, dt: int) -> WorldModel {
        WorldModel {
            bodies: stepped_bodies(self.bodies, self.gravity, self.air_friction, dt),
            ..self
        }
    }
}

/// A set of bodies under uniform gravity and drag.
pub struct World {
    gravity: Vector3,
    air_friction: Scalar,
    bodies: Vec<Body>,
    next_id: u64,
}

impl View for World {
    type V = WorldModel;

    closed spec fn view(&self) -> WorldModel {
        WorldModel {
            gravity: self.gravity@,
            air_friction: self.air_friction@,
            bodies: models_of(self.bodies@),
            next_id: self.next_id as int,
        }
    }
}

impl World {
    /// Whether the world is in a valid state.
    pub open spec fn wf(&self) -> bool {
        self@.wf()
    }

    /// An empty world with the given forces.
    pub fn new(gravity: Vector3, air_friction: Scalar) -> (r: World)
        requires
            air_friction@ >= 0,
        ensures
            r.wf(),
            r@ == (WorldModel {
                gravity: gravity@,
                air_friction: air_friction@,
                bodies: Seq::empty(),
                next_id: 0,
            }),
    {
        let w = World { gravity, air_friction, bodies: Vec::new(), next_id: 0 };
        assert(w@.bodies =~= Seq::empty());
        w
    }

    /// Whether the world can still name a new body.
    pub fn has_fresh_id(&self) -> (r: bool)
        ensures
            r == (self@.next_id < u64::MAX),
    {
        self.next_id < u64::MAX
    }

    /// Number of bodies in the world.
    pub fn len(&self) -> (r: usize)
        ensures
            r == self@.bodies.len(),
    {
        self.bodies.len()
    }

    /// Whether a body named `id` is in the world.
    pub fn contains(&self, id: BodyId) -> (r: bool)
        ensures
            r == self@.contains(id@),
    {
        find_body(&self.bodies, id).is_some()
    }

    /// The ids of all bodies, rising.
    pub fn body_ids(&self) -> (ids: Vec<BodyId>)
        ensures
            ids.len() == self@.bodies.len(),
            forall|i: int| 0 <= i < ids.len() ==> (#[trigger] ids[i])@ == self@.bodies[i].id,
    {
        let mut ids: Vec<BodyId> = Vec::new();
        let mut i: usize = 0;
        while i < self.bodies.len()
            invariant
                i <= self.bodies.len(),
                ids.len() == i,
                forall|k: int| 0 <= k < i ==> (#[trigger] ids[k])@ == self.bodies[k]@.id,
            decreases self.bodies.len() - i,
        {
            ids.push(self.bodies[i].id);
            i = i + 1;
        }
        ids
    }

    /// The gravity that acts on every dynamic body.
    pub fn gravity(&self) -> (r: Vector3)
        ensures
            r@ == self@.gravity,
    {
        self.gravity
    }

    /// The drag factor.
    pub fn air_friction(&self) -> (r: Scalar)
        ensures
            r@ == self@.air_friction,
    {
        self.air_friction
    }

    /// Adds a body at rest and returns its id, which no body of this world
    /// had before. A dynamic body needs a positive mass, every body a shape
    /// of positive dimensions.
    pub fn create_body(&mut self, shape: Shape, mass: Scalar, transform: Transform, kind: BodyKind) -> (r:
        Result<BodyId, PhysicsError>)
        requires
            old(self).wf(),
            old(self)@.next_id < u64::MAX,
        ensures
            final(self).wf(),
            match creation_error(shape@, mass@, kind) {
                Some(e) => r == Err::<BodyId, PhysicsError>(e) && final(self)@ == old(self)@,
                None => r == Ok::<BodyId, PhysicsError>(BodyId(old(self)@.next_id as u64))
                    && final(self)@ == old(self)@.with_body(
                    newborn(old(self)@.next_id as u64, shape@, mass@, transform@, kind),
                ),
            },
    {
        match kind {
            BodyKind::Dynamic => {
                if !mass.is_positive() {
                    return Err(PhysicsError::InvalidMass);
                }
            },
            BodyKind::Static => {},
        }
        if !shape.is_valid() {
            return Err(PhysicsError::InvalidShape);
        }
        let id = BodyId(self.next_id);
        let body = Body::at_rest(id, shape, mass, transform, kind);
        let ghost before = self@;
        self.next_id = self.next_id + 1;
        self.bodies.push(body);
        proof {
            body.lemma_representable();
            assert(body@.wf());
            assert(self@.bodies =~= before.bodies.push(body@));
            assert(self@.bodies.len() == self.bodies.len());
            assert forall|i: int| 0 <= i < self@.bodies.len() implies (#[trigger] self@.bodies[i]).wf()
                && self@.bodies[i].id < self@.next_id by {
                if i < before.bodies.len() {
                    assert(before.bodies[i].wf());
                }
            }
            assert forall|i: int, j: int| 0 <= i < j < self@.bodies.len() implies self@.bodies[i].id
                < self@.bodies[j].id by {
                assert(before.bodies[i].id < before.next_id);
                if j < before.bodies.len() {
                    assert(before.bodies[i].id < before.bodies[j].id);
                }
            }
            assert(all_wf(self@.bodies));
            assert(ids_increasing(self@.bodies));
        }
        Ok(id)
    }

    /// Takes the body named `id` out of the world.
    pub fn remove_body(&mut self, id: BodyId) -> (r: Result<(), PhysicsError>)
        requires
            old(self).wf(),
        ensures
            final(self).wf(),
            old(self)@.contains(id@) ==> r == Ok::<(), PhysicsError>(()) && final(self)@ == old(self)@.without(id@),
            !old(self)@.contains(id@) ==> r == Err::<(), PhysicsError>(PhysicsError::NotFound)
                && final(self)@ == old(self)@,
    {
        match find_body(&self.bodies, id) {
            None => Err(PhysicsError::NotFound),
            Some(i) => {
                let ghost before = self@;
                proof {
                    lemma_index_of(before.bodies, i as int);
                }
                self.bodies.remove(i);
                proof {
                    assert(self@.bodies =~= before.bodies.remove(i as int));
                    assert forall|k: int| 0 <= k < self@.bodies.len() implies (
                    #[trigger] self@.bodies[k]).wf() && self@.bodies[k].id < self@.next_id by {
                        if k < i {
                            assert(before.bodies[k].wf());
                        } else {
                            assert(before.bodies[k + 1].wf());
                        }
                    }
                    assert forall|k: int, l: int|
                        0 <= k < l < self@.bodies.len() implies self@.bodies[k].id
                        < self@.bodies[l].id by {
                        let k0 = if k < i { k } else { k + 1 };
                        let l0 = if l < i { l } else { l + 1 };
                        assert(before.bodies[k0].id < before.bodies[l0].id);
                    }
                }
                Ok(())
            },
        }
    }

    /// Sets the gravity for the steps to come.
    pub fn set_gravity(&mut self, gravity: Vector3)
        requires
            old(self).wf(),
        ensures
            final(self).wf(),
            final(self)@ == (WorldModel { gravity: gravity@, ..old(self)@ }),
    {
        self.gravity = gravity;
    }

    /// Sets the drag factor for the steps to come.
    pub fn set_air_friction(&mut self, air_friction: Scalar)
        requires
            old(self).wf(),
            air_friction@ >= 0,
        ensures
            final(self).wf(),
            final(self)@ == (WorldModel { air_friction: air_friction@, ..old(self)@ }),
    {
        self.air_friction = air_friction;
    }

    /// Where the body named `id` is and how it is turned.
    pub fn get_transform(&self, id: BodyId) -> (r: Result<Transform, PhysicsError>)
        requires
            self.wf(),
        ensures
            match r {
                Ok(t) => self@.contains(id@) && t@ == self@.body(id@).transform,
                Err(e) => !self@.contains(id@) && e == PhysicsError::NotFound,
            },
    {
        match find_body(&self.bodies, id) {
            Some(i) => {
                proof {
                    self.lemma_found(i as int, id@);
                }
                Ok(self.bodies[i].transform)
            },
            None => Err(PhysicsError::NotFound),
        }
    }

    /// How fast the body named `id` moves.
    pub fn get_velocity(&self, id: BodyId) -> (r: Result<Vector3, PhysicsError>)
        requires
            self.wf(),
        ensures
            match r {
                Ok(v) => self@.contains(id@) && v@ == self@.body(id@).velocity,
                Err(e) => !self@.contains(id@) && e == PhysicsError::NotFound,
            },
    {
        match find_body(&self.bodies, id) {
            Some(i) => {
                proof {
                    self.lemma_found(i as int, id@);
                }
                Ok(self.bodies[i].velocity)
            },
            None => Err(PhysicsError::NotFound),
        }
    }

    /// The body named `id`, whole.
    pub fn get_body(&self, id: BodyId) -> (r: Result<Body, PhysicsError>)
        requires
            self.wf(),
        ensures
            match r {
                Ok(b) => self@.contains(id@) && b@ == self@.body(id@),
                Err(e) => !self@.contains(id@) && e == PhysicsError::NotFound,
            },
    {
        match find_body(&self.bodies, id) {
            Some(i) => {
                proof {
                    self.lemma_found(i as int, id@);
                }
                Ok(self.bodies[i])
            },
            None => Err(PhysicsError::NotFound),
        }
    }

    /// A body found at place `i` under the id `id` is the body that the
    /// model knows under that id.
    proof fn lemma_found(&self, i: int, id: u64)
        requires
            self.wf(),
            0 <= i < self.bodies.len(),
            self.bodies[i]@.id == id,
        ensures
            self@.contains(id),
            self@.body(id) == self.bodies[i]@,
    {
        let bodies = self@.bodies;
        assert(bodies[i].id == id);
        lemma_index_of(bodies, i);
    }

    /// Moves the simulation on by `dt`: every dynamic body is integrated,
    /// then the contacts among the bodies are found and resolved in the
    /// order of their ids. A negative `dt` is refused and changes nothing.
    pub fn step(&mut self, dt: Scalar) -> (r: Result<(), PhysicsError>)
        requires
            old(self).wf(),
        ensures
            final(self).wf(),
            dt@ < 0 ==> r == Err::<(), PhysicsError>(PhysicsError::InvalidDeltaTime) && final(self)@ == old(self)@,
            dt@ >= 0 ==> r == Ok::<(), PhysicsError>(()) && final(self)@ == old(self)@.stepped(
                dt@,
            ),
    {
        if dt.is_negative() {
            return Err(PhysicsError::InvalidDeltaTime);
        }
        let ghost before = self@;
        let gravity = self.gravity;
        let air_friction = self.air_friction;
        integrate_all(&mut self.bodies, &gravity, &air_friction, &dt);
        proof {
            lemma_integrated_all_wf(before.bodies, gravity@, air_friction@, dt@);
        }
        let ghost moved = models_of(self.bodies@);
        let pairs = broad_phase(&self.bodies);
        let contacts = narrow_phase(&self.bodies, &pairs);
        resolve_all(&mut self.bodies, &contacts);
        proof {
            assert forall|i: int| 0 <= i < self@.bodies.len() implies (#[trigger] self@.bodies[i]).id
                < self@.next_id by {
                assert(self.bodies[i].id@ == moved[i].id);
                assert(moved[i].id == before.bodies[i].id);
            }
        }
        Ok(())
    }
}

} // verus!
