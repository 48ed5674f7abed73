//! What holds of the simulation as a whole, proved from the definitions of
//! its parts.

use crate::body::{
    all_wf, has_body, ids_increasing, index_of, lemma_index_of, representable_v3, BodyModel,
};
use crate::broad_phase::{
    candidate_pairs, is_candidate, lemma_candidate_members, lemma_candidates_ordered,
    lemma_overlap_within_boxes, pair_before,
};
use crate::integrator::{integrated, integrated_all, lemma_integrated_all_wf};
use crate::narrow_phase::{contact_of, contacts_among, overlapping, ContactModel};
use crate::resolver::{apply_contact, lemma_resolved_wf, resolved_all};
use crate::vector::V3;
use crate::world::WorldModel;
use vstd::prelude::*;

verus! {

/// Whether no candidate pair of `bodies` overlaps, so that a step finds no
/// contact to resolve.
pub open spec fn collision_free(bodies: Seq<BodyModel>) -> bool {
    forall|i: int, j: int|
        0 <= i < bodies.len() && 0 <= j < bodies.len() && is_candidate(
            #[trigger] bodies[i],
            #[trigger] bodies[j],
        ) ==> !overlapping(bodies[i], bodies[j])
}

/// Free fall of one body: without drag, a step of `dt` adds `gravity * dt`
/// to the velocity of a dynamic body and then moves the body by the new
/// velocity times `dt`, whatever its mass.
pub proof fn law_free_fall(b: BodyModel, gravity: V3, dt: int)
    requires
        b.wf(),
        b.is_dynamic(),
        representable_v3(gravity),
        dt >= 0,
    ensures
        integrated(b, gravity, 0, dt).velocity == b.velocity.plus(gravity.scaled(dt)),
        integrated(b, gravity, 0, dt).position() == b.position().plus(
            integrated(b, gravity, 0, dt).velocity.scaled(dt),
        ),
        integrated(b, gravity, 0, dt).acceleration == gravity,
{
}

/// Where the bodies of `bodies` do not collide, resolving their contacts
/// leaves them as they are.
pub proof fn lemma_no_contacts(bodies: Seq<BodyModel>, upto: int)
    requires
        bodies.len() <= usize::MAX,
        collision_free(bodies),
        0 <= upto <= candidate_pairs(bodies).len(),
    ensures
        contacts_among(bodies, candidate_pairs(bodies), upto) == Seq::<ContactModel>::empty(),
    decreases upto,
{
    if upto > 0 {
        lemma_no_contacts(bodies, upto - 1);
        let pairs = candidate_pairs(bodies);
        let pair = pairs[upto - 1];
        assert(pairs.contains(pair));
        lemma_candidate_members(bodies, bodies.len() as int, pair);
        assert(is_candidate(bodies[pair.0 as int], bodies[pair.1 as int]));
    }
}

/// Free fall in a world: in a step that brings no two bodies into contact,
/// and without drag, every dynamic body gains `gravity * dt` in velocity and
/// moves by its new velocity times `dt`.
pub proof fn law_free_fall_in_world(w: WorldModel, dt: int, i: int)
    requires
        w.wf(),
        w.air_friction == 0,
        dt >= 0,
        0 <= i < w.bodies.len(),
        w.bodies[i].is_dynamic(),
        collision_free(integrated_all(w.bodies, w.gravity, 0, dt)),
    ensures
        w.stepped(dt).bodies.len() == w.bodies.len(),
        w.stepped(dt).bodies[i].velocity == w.bodies[i].velocity.plus(w.gravity.scaled(dt)),
        w.stepped(dt).bodies[i].position() == w.bodies[i].position().plus(
            w.stepped(dt).bodies[i].velocity.scaled(dt),
        ),
{
    let moved = integrated_all(w.bodies, w.gravity, 0, dt);
    lemma_no_contacts(moved, candidate_pairs(moved).len() as int);
    assert(w.bodies[i].wf());
    law_free_fall(w.bodies[i], w.gravity, dt);
}

/// A step over no time: where no two bodies are in contact, it leaves the
/// transform and the velocity of every body as they were.
pub proof fn law_step_of_no_time(w: WorldModel, i: int)
    requires
        w.wf(),
        collision_free(w.bodies),
        0 <= i < w.bodies.len(),
    ensures
        w.stepped(0).bodies.len() == w.bodies.len(),
        w.stepped(0).bodies[i].transform == w.bodies[i].transform,
        w.stepped(0).bodies[i].velocity == w.bodies[i].velocity,
        w.stepped(0).bodies[i].id == w.bodies[i].id,
{
    let moved = integrated_all(w.bodies, w.gravity, w.air_friction, 0);
    assert forall|k: int| 0 <= k < moved.len() implies (#[trigger] moved[k]).transform
        == w.bodies[k].transform && moved[k].velocity == w.bodies[k].velocity && moved[k].id
        == w.bodies[k].id && moved[k].kind == w.bodies[k].kind && moved[k].shape
        == w.bodies[k].shape by {
        assert(w.bodies[k].wf());
    }
    assert forall|k: int, l: int|
        0 <= k < moved.len() && 0 <= l < moved.len() && is_candidate(
            #[trigger] moved[k],
            #[trigger] moved[l],
        ) implies !overlapping(moved[k], moved[l]) by {
        assert(is_candidate(w.bodies[k], w.bodies[l]));
        assert(overlapping(moved[k], moved[l]) == overlapping(w.bodies[k], w.bodies[l]));
    }
    lemma_no_contacts(moved, candidate_pairs(moved).len() as int);
}

/// The broad phase misses no collision: every ordered pair that it is meant
/// to consider (a dynamic body, and a static body or a dynamic body of
/// larger id) and whose spheres overlap is among the candidates.
pub proof fn law_broad_phase_complete(bodies: Seq<BodyModel>, i: int, j: int)
    requires
        all_wf(bodies),
        bodies.len() <= usize::MAX,
        0 <= i < bodies.len(),
        0 <= j < bodies.len(),
        bodies[i].is_dynamic(),
        !bodies[j].is_dynamic() || bodies[i].id < bodies[j].id,
        overlapping(bodies[i], bodies[j]),
    ensures
        candidate_pairs(bodies).contains((i as usize, j as usize)),
{
    assert(bodies[i].wf());
    assert(bodies[j].wf());
    lemma_overlap_within_boxes(bodies[i], bodies[j]);
    lemma_candidate_members(bodies, bodies.len() as int, (i as usize, j as usize));
}

/// The broad phase names no pair twice, and names only pairs that are
/// candidates.
pub proof fn law_broad_phase_exact(bodies: Seq<BodyModel>, k: int, l: int)
    requires
        bodies.len() <= usize::MAX,
        0 <= k < l < candidate_pairs(bodies).len(),
    ensures
        candidate_pairs(bodies)[k] != candidate_pairs(bodies)[l],
        pair_before(candidate_pairs(bodies)[k], candidate_pairs(bodies)[l]),
        candidate_pairs(bodies)[k].0 < bodies.len(),
        candidate_pairs(bodies)[k].1 < bodies.len(),
        is_candidate(
            bodies[candidate_pairs(bodies)[k].0 as int],
            bodies[candidate_pairs(bodies)[k].1 as int],
        ),
{
    lemma_candidates_ordered(bodies, bodies.len() as int);
    let pairs = candidate_pairs(bodies);
    assert(pairs.contains(pairs[k]));
    lemma_candidate_members(bodies, bodies.len() as int, pairs[k]);
}

/// Whether contact `c` comes before contact `d` when contacts are ordered by
/// the id of their first body and then by the id of their second.
pub open spec fn contact_before(c: ContactModel, d: ContactModel) -> bool {
    c.body_a < d.body_a || (c.body_a == d.body_a && c.body_b < d.body_b)
}

/// Whether `pairs` names places in `bodies` and is strictly ordered by first
/// place, then by second.
pub open spec fn pairs_ordered(bodies: Seq<BodyModel>, pairs: Seq<(usize, usize)>) -> bool {
    &&& forall|k: int|
        0 <= k < pairs.len() ==> (#[trigger] pairs[k]).0 < bodies.len() && pairs[k].1
            < bodies.len()
    &&& forall|k: int, l: int|
        0 <= k < l < pairs.len() ==> pair_before(#[trigger] pairs[k], #[trigger] pairs[l])
}

/// The contacts found among ordered pairs come in the order of the ids of
/// their bodies, and each comes before whatever the pairs not yet looked at
/// may yield.
proof fn lemma_contacts_ordered(bodies: Seq<BodyModel>, pairs: Seq<(usize, usize)>, upto: int)
    requires
        ids_increasing(bodies),
        pairs_ordered(bodies, pairs),
        0 <= upto <= pairs.len(),
    ensures
        forall|k: int, l: int|
            0 <= k < l < contacts_among(bodies, pairs, upto).len() ==> contact_before(
                #[trigger] contacts_among(bodies, pairs, upto)[k],
                #[trigger] contacts_among(bodies, pairs, upto)[l],
            ),
        forall|k: int, q: int|
            0 <= k < contacts_among(bodies, pairs, upto).len() && upto <= q < pairs.len() ==> {
                let c = #[trigger] contacts_among(bodies, pairs, upto)[k];
                let later = #[trigger] pairs[q];
                c.body_a < bodies[later.0 as int].id || (c.body_a == bodies[later.0 as int].id
                    && c.body_b < bodies[later.1 as int].id)
            },
    decreases upto,
{
    if upto > 0 {
        lemma_contacts_ordered(bodies, pairs, upto - 1);
        let earlier = contacts_among(bodies, pairs, upto - 1);
        let now = contacts_among(bodies, pairs, upto);
        let pair = pairs[upto - 1];
        let found = contact_of(bodies[pair.0 as int], bodies[pair.1 as int]);
        assert forall|k: int, q: int| 0 <= k < now.len() && upto <= q < pairs.len() implies {
            let c = #[trigger] now[k];
            let later = #[trigger] pairs[q];
            c.body_a < bodies[later.0 as int].id || (c.body_a == bodies[later.0 as int].id
                && c.body_b < bodies[later.1 as int].id)
        } by {
            let later = pairs[q];
            if k < earlier.len() {
                assert(now[k] == earlier[k]);
            } else {
                assert(found.is_some() && now[k] == found.unwrap());
                assert(pair_before(pair, later));
            }
        }
        assert forall|k: int, l: int| 0 <= k < l < now.len() implies contact_before(
            #[trigger] now[k],
            #[trigger] now[l],
        ) by {
            assert(now[k] == earlier[k]);
            if l < earlier.len() {
                assert(now[l] == earlier[l]);
            } else {
                assert(found.is_some() && now[l] == found.unwrap());
                let c = earlier[k];
                let later = pairs[upto - 1];
                assert(c.body_a < bodies[later.0 as int].id || (c.body_a
                    == bodies[later.0 as int].id && c.body_b < bodies[later.1 as int].id));
            }
        }
    }
}

/// Contacts are resolved in a fixed order: a step takes them by rising id of
/// their first body and, for one first body, by rising id of the second.
pub proof fn law_contacts_in_id_order(bodies: Seq<BodyModel>, k: int, l: int)
    requires
        ids_increasing(bodies),
        bodies.len() <= usize::MAX,
        0 <= k < l < contacts_among(
            bodies,
            candidate_pairs(bodies),
            candidate_pairs(bodies).len() as int,
        ).len(),
    ensures
        contact_before(
            contacts_among(bodies, candidate_pairs(bodies), candidate_pairs(bodies).len() as int)[k],
            contacts_among(bodies, candidate_pairs(bodies), candidate_pairs(bodies).len() as int)[l],
        ),
{
    let pairs = candidate_pairs(bodies);
    assert(pairs_ordered(bodies, pairs)) by {
        lemma_candidates_ordered(bodies, bodies.len() as int);
        assert forall|q: int| 0 <= q < pairs.len() implies (#[trigger] pairs[q]).0 < bodies.len()
            && pairs[q].1 < bodies.len() by {
            assert(pairs.contains(pairs[q]));
            lemma_candidate_members(bodies, bodies.len() as int, pairs[q]);
        }
    }
    lemma_contacts_ordered(bodies, pairs, pairs.len() as int);
}

/// Resolving contacts keeps every body in its place with its id, kind,
/// shape and mass, keeps valid bodies valid, and leaves static bodies
/// exactly as they were.
pub proof fn lemma_resolved_all_keeps(
    bodies: Seq<BodyModel>,
    contacts: Seq<ContactModel>,
    upto: int,
)
    requires
        all_wf(bodies),
        ids_increasing(bodies),
    ensures
        resolved_all(bodies, contacts, upto).len() == bodies.len(),
        all_wf(resolved_all(bodies, contacts, upto)),
        ids_increasing(resolved_all(bodies, contacts, upto)),
        forall|i: int|
            0 <= i < bodies.len() ==> {
                let after = #[trigger] resolved_all(bodies, contacts, upto)[i];
                &&& after.id == bodies[i].id
                &&& after.kind == bodies[i].kind
                &&& after.shape == bodies[i].shape
                &&& after.mass == bodies[i].mass
                &&& !bodies[i].is_dynamic() ==> after == bodies[i]
            },
    decreases upto,
{
    if upto > 0 {
        lemma_resolved_all_keeps(bodies, contacts, upto - 1);
        let earlier = resolved_all(bodies, contacts, upto - 1);
        let c = contacts[upto - 1];
        let after = apply_contact(earlier, c);
        if has_body(earlier, c.body_a) && has_body(earlier, c.body_b) && c.body_a != c.body_b {
            let i = index_of(earlier, c.body_a);
            let j = index_of(earlier, c.body_b);
            assert(earlier[i].wf());
            assert(earlier[j].wf());
            lemma_resolved_wf(earlier[i], earlier[j], c);
            assert forall|k: int| 0 <= k < after.len() implies (#[trigger] after[k]).wf()
                && after[k].id == earlier[k].id by {
                assert(earlier[k].wf());
            }
            assert forall|k: int, l: int| 0 <= k < l < after.len() implies after[k].id
                < after[l].id by {
                assert(earlier[k].id < earlier[l].id);
            }
        }
    }
}

/// Static bodies never change: a step leaves each of them exactly as it
/// was, at rest.
pub proof fn law_static_bodies_stay(w: WorldModel, dt: int, i: int)
    requires
        w.wf(),
        0 <= i < w.bodies.len(),
        !w.bodies[i].is_dynamic(),
    ensures
        w.stepped(dt).bodies.len() == w.bodies.len(),
        w.stepped(dt).bodies[i] == w.bodies[i],
        w.stepped(dt).bodies[i].velocity == V3::zero(),
        w.stepped(dt).bodies[i].acceleration == V3::zero(),
{
    let moved = integrated_all(w.bodies, w.gravity, w.air_friction, dt);
    lemma_integrated_all_wf(w.bodies, w.gravity, w.air_friction, dt);
    let pairs = candidate_pairs(moved);
    let contacts = contacts_among(moved, pairs, pairs.len() as int);
    lemma_resolved_all_keeps(moved, contacts, contacts.len() as int);
    assert(w.bodies[i].wf());
}

/// A step keeps a valid world valid, and keeps every body in it under its
/// id, with its kind, shape and mass.
pub proof fn law_step_keeps_bodies(w: WorldModel, dt: int)
    requires
        w.wf(),
    ensures
        w.stepped(dt).wf(),
        w.stepped(dt).bodies.len() == w.bodies.len(),
        forall|i: int|
            0 <= i < w.bodies.len() ==> {
                let after = #[trigger] w.stepped(dt).bodies[i];
                &&& after.id == w.bodies[i].id
                &&& after.kind == w.bodies[i].kind
                &&& after.shape == w.bodies[i].shape
                &&& after.mass == w.bodies[i].mass
            },
{
    let moved = integrated_all(w.bodies, w.gravity, w.air_friction, dt);
    lemma_integrated_all_wf(w.bodies, w.gravity, w.air_friction, dt);
    let pairs = candidate_pairs(moved);
    let contacts = contacts_among(moved, pairs, pairs.len() as int);
    lemma_resolved_all_keeps(moved, contacts, contacts.len() as int);
    let after = w.stepped(dt).bodies;
    assert forall|i: int| 0 <= i < w.bodies.len() implies {
        let b = #[trigger] after[i];
        &&& b.id == w.bodies[i].id
        &&& b.kind == w.bodies[i].kind
        &&& b.shape == w.bodies[i].shape
        &&& b.mass == w.bodies[i].mass
        &&& b.id < w.next_id
    } by {
        assert(moved[i].id == w.bodies[i].id);
        assert(w.bodies[i].wf());
        assert(w.bodies[i].id < w.next_id);
    }
}

/// A body that was just created is found under its id, which no body had
/// before, and every other body is found as before.
pub proof fn law_created_body_is_found(w: WorldModel, b: BodyModel, other: u64)
    requires
        w.wf(),
        b.id == w.next_id,
    ensures
        !w.contains(b.id),
        w.with_body(b).contains(b.id),
        w.with_body(b).body(b.id) == b,
        other != b.id ==> (w.with_body(b).contains(other) <==> w.contains(other)),
        w.contains(other) ==> w.with_body(b).body(other) == w.body(other),
{
    let after = w.with_body(b).bodies;
    let n = w.bodies.len() as int;
    assert(after[n] == b);
    assert forall|i: int, j: int| 0 <= i < j < after.len() implies after[i].id < after[j].id by {
        assert(w.bodies[i].id < w.next_id);
        if j < n {
            assert(w.bodies[i].id < w.bodies[j].id);
        }
    }
    lemma_index_of(after, n);
    if w.contains(b.id) {
        let k = index_of(w.bodies, b.id);
        assert(w.bodies[k].id < w.next_id);
    }
    if w.contains(other) {
        let k = index_of(w.bodies, other);
        assert(after[k] == w.bodies[k]);
        lemma_index_of(after, k);
    }
    if other != b.id && w.with_body(b).contains(other) {
        let k = index_of(after, other);
        assert(k < n);
        assert(w.bodies[k].id == other);
    }
}

/// A body that was removed is no longer found, and every other body is
/// found as before.
pub proof fn law_removed_body_is_gone(w: WorldModel, id: u64, other: u64)
    requires
        w.wf(),
        w.contains(id),
    ensures
        w.without(id).wf(),
        !w.without(id).contains(id),
        w.without(id).bodies.len() == w.bodies.len() - 1,
        other != id ==> (w.without(id).contains(other) <==> w.contains(other)),
        other != id && w.contains(other) ==> w.without(id).body(other) == w.body(other),
{
    let at = index_of(w.bodies, id);
    let after = w.without(id).bodies;
    assert forall|k: int| 0 <= k < after.len() implies (#[trigger] after[k]).wf() && after[k].id
        < w.next_id && after[k].id != id by {
        let k0 = if k < at { k } else { k + 1 };
        assert(after[k] == w.bodies[k0]);
        assert(w.bodies[k0].wf());
        if k0 < at {
            assert(w.bodies[k0].id < w.bodies[at].id);
        } else {
            assert(w.bodies[at].id < w.bodies[k0].id);
        }
    }
    assert forall|k: int, l: int| 0 <= k < l < after.len() implies after[k].id < after[l].id by {
        let k0 = if k < at { k } else { k + 1 };
        let l0 = if l < at { l } else { l + 1 };
        assert(w.bodies[k0].id < w.bodies[l0].id);
    }
    if w.without(id).contains(id) {
        let k = index_of(after, id);
        assert(after[k].id != id);
    }
    if other != id && w.contains(other) {
        let k0 = index_of(w.bodies, other);
        let k = if k0 < at { k0 } else { k0 - 1 };
        assert(after[k] == w.bodies[k0]);
        lemma_index_of(after, k);
    }
    if other != id && w.without(id).contains(other) {
        let k = index_of(after, other);
        let k0 = if k < at { k } else { k + 1 };
        assert(w.bodies[k0].id == other);
    }
}

} // verus!
