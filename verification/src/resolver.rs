//! Collision response: a fully elastic exchange of the velocities along the
//! contact normal, and a push that takes the bodies out of each other.

use crate::body::{
    all_wf, find_body, has_body, ids_increasing, index_of, lemma_index_of, models_of, Body,
    BodyKind, BodyModel,
};
use crate::narrow_phase::{contact_models, Contact, ContactModel};
use crate::scalar::{clamp, fx_mul_div, fx_neg, fx_sub, mul_div, quot, saturate, Scalar};
use crate::vector::{Transform, Vector3, V3};
use vstd::prelude::*;

verus! {

/// The speed of `velocity` along `normal`.
pub open spec fn normal_speed(velocity: V3, normal: V3) -> int {
    velocity.dot(normal)
}

/// What is left of `velocity` once its part along `normal` is taken away.
pub open spec fn tangential(velocity: V3, normal: V3) -> V3 {
    velocity.minus(normal.scaled(normal_speed(velocity, normal)))
}

/// The velocity with tangential part `tangent` and the speed `speed` along
/// `normal`.
pub open spec fn recombined(tangent: V3, normal: V3, speed: int) -> V3 {
    tangent.plus(normal.scaled(speed))
}

/// `velocity` with its speed along `normal` replaced by `speed`.
pub open spec fn with_normal_speed(velocity: V3, normal: V3, speed: int) -> V3 {
    recombined(tangential(velocity, normal), normal, speed)
}

/// The speeds along a line of two masses after they collide on it without
/// loss: each gains its share of twice the speed at which the other
/// approaches, the lighter body the larger share.
pub open spec fn elastic_speeds(m1: int, u1: int, m2: int, u2: int) -> (int, int) {
    let closing = fx_sub(u2, u1);
    (
        saturate(u1 + quot(2 * m2 * closing, m1 + m2)),
        saturate(u2 - quot(2 * m1 * closing, m1 + m2)),
    )
}

/// How far each of two masses is pushed to undo a penetration: the parts add
/// up to the penetration and are in the inverse ratio of the masses.
pub open spec fn correction_shares(m1: int, m2: int, penetration: int) -> (int, int) {
    let first = fx_mul_div(penetration, m2, m1 + m2);
    (first, fx_sub(penetration, first))
}

/// The body with its normal speed replaced by `speed` and itself moved by
/// `shift` along the normal (against it for a negative `shift`).
pub open spec fn pushed(b: BodyModel, normal: V3, speed: int, shift: int) -> BodyModel {
    b.with_velocity(with_normal_speed(b.velocity, normal, speed)).with_position(
        b.position().plus(normal.scaled(shift)),
    )
}

/// The two bodies of a contact after it is resolved. The normal points from
/// `a` to `b`. Two moving bodies collide elastically and share the push; a
/// moving body that meets a static one has its normal speed mirrored and
/// takes the whole push; static bodies are left alone.
pub open spec fn resolved(a: BodyModel, b: BodyModel, c: ContactModel) -> (BodyModel, BodyModel) {
    let ua = normal_speed(a.velocity, c.normal);
    let ub = normal_speed(b.velocity, c.normal);
    match (a.kind, b.kind) {
        (BodyKind::Dynamic, BodyKind::Dynamic) => {
            let speeds = elastic_speeds(a.mass, ua, b.mass, ub);
            let shares = correction_shares(a.mass, b.mass, c.penetration);
            (
                pushed(a, c.normal, speeds.0, fx_neg(shares.0)),
                pushed(b, c.normal, speeds.1, shares.1),
            )
        },
        (BodyKind::Dynamic, BodyKind::Static) => (
            pushed(a, c.normal, fx_neg(ua), fx_neg(c.penetration)),
            b,
        ),
        (BodyKind::Static, BodyKind::Dynamic) => (a, pushed(b, c.normal, fx_neg(ub), c.penetration)),
        (BodyKind::Static, BodyKind::Static) => (a, b),
    }
}

/// The bodies after one contact is resolved. A contact that names a body
/// which is not there, or the same body twice, changes nothing.
pub open spec fn apply_contact(bodies: Seq<BodyModel>, c: ContactModel) -> Seq<BodyModel> {
    if has_body(bodies, c.body_a) && has_body(bodies, c.body_b) && c.body_a != c.body_b {
        let i = index_of(bodies, c.body_a);
        let j = index_of(bodies, c.body_b);
        let pair = resolved(bodies[i], bodies[j], c);
        bodies.update(i, pair.0).update(j, pair.1)
    } else {
        bodies
    }
}

/// The bodies after the first `upto` of `contacts` are resolved one after
/// the other, each on what the one before it left.
pub open spec fn resolved_all(
    bodies: Seq<BodyModel>,
    contacts: Seq<ContactModel>,
    upto: int,
) -> Seq<BodyModel>
    decreases upto,
{
    if upto <= 0 {
        bodies
    } else {
        apply_contact(resolved_all(bodies, contacts, upto - 1), contacts[upto - 1])
    }
}

/// The speeds of two masses after an elastic collision on a line.
pub fn elastic_exchange(m1: &Scalar, u1: &Scalar, m2: &Scalar, u2: &Scalar) -> (r: (Scalar, Scalar))
    requires
        m1@ > 0,
        m2@ > 0,
    ensures
        (r.0@, r.1@) == elastic_speeds(m1@, u1@, m2@, u2@),
{
    let closing: i128 = u2.sub(u1).raw as i128;
    let total: i128 = m1.raw as i128 + m2.raw as i128;
    let twice_m1: i128 = 2 * (m1.raw as i128);
    let twice_m2: i128 = 2 * (m2.raw as i128);
    assert(-0x7fff_ffff_ffff_ffff_0000_0000_0000_0000 <= twice_m1 * closing
        <= 0x7fff_ffff_ffff_ffff_0000_0000_0000_0000) by (nonlinear_arith)
        requires
            0 < twice_m1 <= 0xffff_ffff_ffff_fffe,
            -0x8000_0000_0000_0000 <= closing <= 0x7fff_ffff_ffff_ffff,
    ;
    assert(-0x7fff_ffff_ffff_ffff_0000_0000_0000_0000 <= twice_m2 * closing
        <= 0x7fff_ffff_ffff_ffff_0000_0000_0000_0000) by (nonlinear_arith)
        requires
            0 < twice_m2 <= 0xffff_ffff_ffff_fffe,
            -0x8000_0000_0000_0000 <= closing <= 0x7fff_ffff_ffff_ffff,
    ;
    let gain: i128 = (twice_m2 * closing) / total;
    let loss: i128 = (twice_m1 * closing) / total;
    proof {
        lemma_quot_bound(twice_m2 * closing, total as int, 0x8000_0000_0000_0000_0000_0000_0000_0000);
        lemma_quot_bound(twice_m1 * closing, total as int, 0x8000_0000_0000_0000_0000_0000_0000_0000);
    }
    (
        Scalar::from_micros(clamp(u1.raw as i128 + gain)),
        Scalar::from_micros(clamp(u2.raw as i128 - loss)),
    )
}

/// A quotient by a divisor of at least two is at most half as large as what
/// was divided.
proof fn lemma_quot_bound(a: int, b: int, bound: int)
    requires
        b >= 2,
        -bound <= a <= bound,
        bound >= 0,
    ensures
        -bound <= 2 * quot(a, b) <= bound,
{
    if a >= 0 {
        assert(2 * (a / b) <= bound) by (nonlinear_arith)
            requires
                0 <= a <= bound,
                b >= 2,
        ;
        assert(0 <= a / b) by (nonlinear_arith)
            requires
                0 <= a,
                b >= 2,
        ;
    } else {
        assert(2 * ((-a) / b) <= bound) by (nonlinear_arith)
            requires
                0 <= -a <= bound,
                b >= 2,
        ;
        assert(0 <= (-a) / b) by (nonlinear_arith)
            requires
                0 <= -a,
                b >= 2,
        ;
    }
}

/// The parts of a penetration by which each of two masses is pushed.
pub fn split_correction(m1: &Scalar, m2: &Scalar, penetration: &Scalar) -> (r: (Scalar, Scalar))
    requires
        m1@ > 0,
        m2@ > 0,
    ensures
        (r.0@, r.1@) == correction_shares(m1@, m2@, penetration@),
{
    let total: i128 = m1.raw as i128 + m2.raw as i128;
    let first = Scalar::from_micros(mul_div(penetration.raw, m2.raw, total));
    (first, penetration.sub(&first))
}

/// Replaces the speed of `velocity` along `normal` by `speed`.
pub fn set_normal_speed(velocity: &Vector3, normal: &Vector3, speed: &Scalar) -> (r: Vector3)
    ensures
        r@ == with_normal_speed(velocity@, normal@, speed@),
{
    let along = velocity.dot(normal);
    let tangent = velocity.sub(&normal.scale(&along));
    tangent.add(&normal.scale(speed))
}

/// Gives `body` the speed `speed` along `normal` and moves it by `shift`
/// along `normal`.
fn push(body: &Body, normal: &Vector3, speed: &Scalar, shift: &Scalar) -> (r: Body)
    ensures
        r@ == pushed(body@, normal@, speed@, shift@),
{
    Body {
        id: body.id,
        shape: body.shape,
        mass: body.mass,
        transform: Transform {
            position: body.transform.position.add(&normal.scale(shift)),
            orientation: body.transform.orientation,
            scale: body.transform.scale,
        },
        velocity: set_normal_speed(&body.velocity, normal, speed),
        acceleration: body.acceleration,
        kind: body.kind,
    }
}

/// Resolves one contact between `a` and `b`, whose normal points from `a`
/// to `b`, and returns the two bodies as the collision leaves them.
pub fn resolve(a: &Body, b: &Body, contact: &Contact) -> (r: (Body, Body))
    requires
        a@.wf(),
        b@.wf(),
    ensures
        (r.0@, r.1@) == resolved(a@, b@, contact@),
        r.0@.wf(),
        r.1@.wf(),
{
    let ua = a.velocity.dot(&contact.normal);
    let ub = b.velocity.dot(&contact.normal);
    proof {
        lemma_resolved_wf(a@, b@, contact@);
    }
    match (a.kind, b.kind) {
        (BodyKind::Dynamic, BodyKind::Dynamic) => {
            let speeds = elastic_exchange(&a.mass, &ua, &b.mass, &ub);
            let shares = split_correction(&a.mass, &b.mass, &contact.penetration);
            (
                push(a, &contact.normal, &speeds.0, &shares.0.neg()),
                push(b, &contact.normal, &speeds.1, &shares.1),
            )
        },
        (BodyKind::Dynamic, BodyKind::Static) => (
            push(a, &contact.normal, &ua.neg(), &contact.penetration.neg()),
            *b,
        ),
        (BodyKind::Static, BodyKind::Dynamic) => (
            *a,
            push(b, &contact.normal, &ub.neg(), &contact.penetration),
        ),
        (BodyKind::Static, BodyKind::Static) => (*a, *b),
    }
}

/// Resolving a contact keeps each body's identity, shape, mass and kind, and
/// keeps valid bodies valid.
pub proof fn lemma_resolved_wf(a: BodyModel, b: BodyModel, c: ContactModel)
    requires
        a.wf(),
        b.wf(),
    ensures
        resolved(a, b, c).0.wf(),
        resolved(a, b, c).1.wf(),
        resolved(a, b, c).0.id == a.id,
        resolved(a, b, c).1.id == b.id,
        resolved(a, b, c).0.kind == a.kind,
        resolved(a, b, c).1.kind == b.kind,
        resolved(a, b, c).0.shape == a.shape,
        resolved(a, b, c).1.shape == b.shape,
        resolved(a, b, c).0.mass == a.mass,
        resolved(a, b, c).1.mass == b.mass,
{
}

/// Resolves one contact in place. A contact that names a body which is not
/// in `bodies`, or the same body twice, changes nothing.
pub fn resolve_contact(bodies: &mut Vec<Body>, contact: &Contact)
    requires
        all_wf(models_of(old(bodies)@)),
        ids_increasing(models_of(old(bodies)@)),
    ensures
        models_of(final(bodies)@) == apply_contact(models_of(old(bodies)@), contact@),
        all_wf(models_of(final(bodies)@)),
        ids_increasing(models_of(final(bodies)@)),
        final(bodies).len() == old(bodies).len(),
        forall|i: int|
            0 <= i < old(bodies).len() ==> (#[trigger] final(bodies)[i]).id == old(bodies)[i].id,
{
    let ghost before = models_of(bodies@);
    if contact.body_a.0 == contact.body_b.0 {
        return ;
    }
    let found_a = find_body(bodies, contact.body_a);
    let found_b = find_body(bodies, contact.body_b);
    match (found_a, found_b) {
        (Some(i), Some(j)) => {
            proof {
                lemma_index_of(before, i as int);
                lemma_index_of(before, j as int);
                assert(before[i as int].wf());
                assert(before[j as int].wf());
                lemma_resolved_wf(before[i as int], before[j as int], contact@);
            }
            let a = bodies[i];
            let b = bodies[j];
            let pair = resolve(&a, &b, contact);
            bodies[i] = pair.0;
            bodies[j] = pair.1;
            assert(models_of(bodies@) =~= before.update(i as int, pair.0@).update(
                j as int,
                pair.1@,
            ));
            assert forall|k: int| 0 <= k < bodies.len() implies (#[trigger] models_of(
                bodies@,
            )[k]).wf() by {
                assert(before[k].wf());
            }
            assert forall|k: int, l: int| 0 <= k < l < bodies.len() implies models_of(
                bodies@,
            )[k].id < models_of(bodies@)[l].id by {
                assert(before[k].id < before[l].id);
            }
        },
        _ => {},
    }
}

/// Resolves the contacts one after the other, in the order given.
pub fn resolve_all(bodies: &mut Vec<Body>, contacts: &Vec<Contact>)
    requires
        all_wf(models_of(old(bodies)@)),
        ids_increasing(models_of(old(bodies)@)),
    ensures
        models_of(final(bodies)@) == resolved_all(
            models_of(old(bodies)@),
            contact_models(contacts@),
            contacts.len() as int,
        ),
        all_wf(models_of(final(bodies)@)),
        ids_increasing(models_of(final(bodies)@)),
        final(bodies).len() == old(bodies).len(),
        forall|i: int|
            0 <= i < old(bodies).len() ==> (#[trigger] final(bodies)[i]).id == old(bodies)[i].id,
{
    let ghost before = models_of(bodies@);
    let ghost start = bodies@;
    let mut k: usize = 0;
    while k < contacts.len()
        invariant
            k <= contacts.len(),
            before == models_of(start),
            bodies.len() == start.len(),
            models_of(bodies@) == resolved_all(before, contact_models(contacts@), k as int),
            all_wf(models_of(bodies@)),
            ids_increasing(models_of(bodies@)),
            forall|i: int| 0 <= i < start.len() ==> (#[trigger] bodies[i]).id == start[i].id,
        decreases contacts.len() - k,
    {
        let contact = contacts[k];
        assert(contact_models(contacts@)[k as int] == contact@);
        resolve_contact(bodies, &contact);
        k = k + 1;
    }
}

} // verus!
