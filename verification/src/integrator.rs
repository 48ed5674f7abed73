//! Advancing bodies in time: drag and gravity give the acceleration, the
//! acceleration changes the velocity, and the new velocity moves the body.

use crate::body::{all_wf, ids_increasing, models_of, Body, BodyKind, BodyModel};
use crate::scalar::Scalar;
use crate::vector::{Transform, TransformModel, Vector3, V3};
use vstd::prelude::*;

verus! {

/// Acceleration of a body moving at `velocity`: gravity, less the drag that
/// opposes the motion.
pub open spec fn acceleration_of(velocity: V3, gravity: V3, air_friction: int) -> V3 {
    gravity.minus(velocity.scaled(air_friction))
}

/// The body after a time `dt`. The acceleration is taken from the velocity at
/// the start of the step, the position from the velocity at its end. A static
/// body stays as it is.
pub open spec fn integrated(b: BodyModel, gravity: V3, air_friction: int, dt: int) -> BodyModel {
    if b.kind == BodyKind::Dynamic {
        let acceleration = acceleration_of(b.velocity, gravity, air_friction);
        let velocity = b.velocity.plus(acceleration.scaled(dt));
        let position = b.transform.position.plus(velocity.scaled(dt));
        BodyModel {
            acceleration,
            velocity,
            transform: TransformModel { position, ..b.transform },
            ..b
        }
    } else {
        b
    }
}

/// Every body of `bodies` after a time `dt`.
pub open spec fn integrated_all(
    bodies: Seq<BodyModel>,
    gravity: V3,
    air_friction: int,
    dt: int,
) -> Seq<BodyModel> {
    Seq::new(bodies.len(), |i: int| integrated(bodies[i], gravity, air_friction, dt))
}

/// Advances one body by `dt`.
pub fn integrate(body: &Body, gravity: &Vector3, air_friction: &Scalar, dt: &Scalar) -> (r: Body)
    ensures
        r@ == integrated(body@, gravity@, air_friction@, dt@),
{
    match body.kind {
        BodyKind::Static => *body,
        BodyKind::Dynamic => {
            let acceleration = gravity.sub(&body.velocity.scale(air_friction));
            let velocity = body.velocity.add(&acceleration.scale(dt));
            let position = body.transform.position.add(&velocity.scale(dt));
            Body {
                id: body.id,
                shape: body.shape,
                mass: body.mass,
                transform: Transform {
                    position,
                    orientation: body.transform.orientation,
                    scale: body.transform.scale,
                },
                velocity,
                acceleration,
                kind: body.kind,
            }
        },
    }
}

/// Advances every body of `bodies` by `dt`.
pub fn integrate_all(bodies: &mut Vec<Body>, gravity: &Vector3, air_friction: &Scalar, dt: &Scalar)
    ensures
        models_of(final(bodies)@) == integrated_all(
            models_of(old(bodies)@),
            gravity@,
            air_friction@,
            dt@,
        ),
        final(bodies).len() == old(bodies).len(),
{
    let n: usize = bodies.len();
    let ghost before = models_of(bodies@);
    let mut i: usize = 0;
    while i < n
        invariant
            i <= n,
            n == bodies.len(),
            before.len() == n,
            forall|k: int|
                0 <= k < i ==> (#[trigger] bodies[k])@ == integrated(
                    before[k],
                    gravity@,
                    air_friction@,
                    dt@,
                ),
            forall|k: int| i <= k < n ==> (#[trigger] bodies[k])@ == before[k],
        decreases n - i,
    {
        let moved = integrate(&bodies[i], gravity, air_friction, dt);
        bodies[i] = moved;
        i = i + 1;
    }
    assert(models_of(bodies@) =~= integrated_all(before, gravity@, air_friction@, dt@));
}

/// Integration keeps a body's identity, shape, mass and kind, and keeps a
/// valid body valid.
pub proof fn lemma_integrated_wf(b: BodyModel, gravity: V3, air_friction: int, dt: int)
    requires
        b.wf(),
    ensures
        integrated(b, gravity, air_friction, dt).wf(),
        integrated(b, gravity, air_friction, dt).id == b.id,
        integrated(b, gravity, air_friction, dt).kind == b.kind,
        integrated(b, gravity, air_friction, dt).shape == b.shape,
        integrated(b, gravity, air_friction, dt).mass == b.mass,
{
}

/// Integration keeps valid bodies valid and leaves their ids in place.
pub proof fn lemma_integrated_all_wf(bodies: Seq<BodyModel>, gravity: V3, air_friction: int, dt: int)
    requires
        all_wf(bodies),
        ids_increasing(bodies),
    ensures
        all_wf(integrated_all(bodies, gravity, air_friction, dt)),
        ids_increasing(integrated_all(bodies, gravity, air_friction, dt)),
        integrated_all(bodies, gravity, air_friction, dt).len() == bodies.len(),
        forall|i: int|
            0 <= i < bodies.len() ==> (#[trigger] integrated_all(
                bodies,
                gravity,
                air_friction,
                dt,
            )[i]).id == bodies[i].id,
{
    let after = integrated_all(bodies, gravity, air_friction, dt);
    assert forall|i: int| 0 <= i < after.len() implies (#[trigger] after[i]).wf() && after[i].id
        == bodies[i].id by {
        assert(bodies[i].wf());
        lemma_integrated_wf(bodies[i], gravity, air_friction, dt);
    }
    assert forall|i: int, j: int| 0 <= i < j < after.len() implies after[i].id < after[j].id by {
        assert(bodies[i].id < bodies[j].id);
    }
}

} // verus!
