//! The exact overlap test between two shapes, and what it measures when they
//! do overlap: the direction from one to the other and how deep they sit in
//! each other.

use crate::body::{models_of, Body, BodyId, BodyModel, Shape, ShapeModel};
use crate::scalar::{clamp, fx_add, lemma_floor_sqrt_exists, saturate, Scalar};
use crate::vector::{square, Vector3, V3};
use vstd::prelude::*;

verus! {

/// The mathematical content of a [`Contact`].
pub struct ContactModel {
    pub body_a: u64,
    pub body_b: u64,
    pub normal: V3,
    pub penetration: int,
}

/// Two overlapping bodies: the unit `normal` points from the first to the
/// second, and `penetration` is the depth of the overlap along it.
#[derive(Clone, Copy, Debug, PartialEq, Eq, Structural)]
pub struct Contact {
    pub body_a: BodyId,
    pub body_b: BodyId,
    pub normal: Vector3,
    pub penetration: Scalar,
}

impl View for Contact {
    type V = ContactModel;

    open spec fn view(&self) -> ContactModel {
        ContactModel {
            body_a: self.body_a@,
            body_b: self.body_b@,
            normal: self.normal@,
            penetration: self.penetration@,
        }
    }
}

/// The mathematical content of a list of contacts.
pub open spec fn contact_models(contacts: Seq<Contact>) -> Seq<ContactModel> {
    Seq::new(contacts.len(), |i: int| contacts[i]@)
}

/// The step from the centre of `a` to the centre of `b`.
pub open spec fn gap(a: BodyModel, b: BodyModel) -> V3 {
    b.position().minus(a.position())
}

/// The distance under which the bounding spheres of `a` and `b` intersect.
pub open spec fn reach(a: BodyModel, b: BodyModel) -> int {
    fx_add(a.shape.bounding_radius(), b.shape.bounding_radius())
}

/// Whether two spheres intersect: the squared distance of their centres is
/// below the square of the sum of their radii. Nothing is rounded.
pub open spec fn spheres_overlap(gap: V3, reach: int) -> bool {
    gap.norm_sq() < reach * reach
}

/// Whether the shapes of `a` and `b` intersect.
pub open spec fn overlapping(a: BodyModel, b: BodyModel) -> bool {
    match (a.shape, b.shape) {
        (ShapeModel::Sphere { .. }, ShapeModel::Sphere { .. }) => spheres_overlap(
            gap(a, b),
            reach(a, b),
        ),
    }
}

/// The contact between `a` and `b`, if their shapes intersect. Coinciding
/// centres leave no direction, and the normal is then the vertical unit
/// vector.
pub open spec fn contact_of(a: BodyModel, b: BodyModel) -> Option<ContactModel> {
    if overlapping(a, b) {
        Some(
            ContactModel {
                body_a: a.id,
                body_b: b.id,
                normal: gap(a, b).normalized(),
                penetration: saturate(reach(a, b) - gap(a, b).length()),
            },
        )
    } else {
        None
    }
}

/// The contacts among the first `upto` of `pairs`, in the order of the pairs.
/// Each pair names two bodies by their places in `bodies`.
pub open spec fn contacts_among(
    bodies: Seq<BodyModel>,
    pairs: Seq<(usize, usize)>,
    upto: int,
) -> Seq<ContactModel>
    decreases upto,
{
    if upto <= 0 {
        Seq::empty()
    } else {
        let earlier = contacts_among(bodies, pairs, upto - 1);
        let pair = pairs[upto - 1];
        match contact_of(bodies[pair.0 as int], bodies[pair.1 as int]) {
            Some(c) => earlier.push(c),
            None => earlier,
        }
    }
}

/// Whether the shapes of `a` and `b` intersect.
pub fn overlaps(a: &Body, b: &Body) -> (r: bool)
    ensures
        r == overlapping(a@, b@),
{
    match (a.shape, b.shape) {
        (Shape::Sphere { radius: radius_a }, Shape::Sphere { radius: radius_b }) => {
            let gap = b.transform.position.sub(&a.transform.position);
            let reach = radius_a.add(&radius_b);
            gap.norm_sq() < square(reach.raw)
        },
    }
}

/// Tests one pair of bodies and measures the contact if they overlap. The
/// penetration of a contact between valid bodies is positive.
pub fn detect(a: &Body, b: &Body) -> (r: Option<Contact>)
    ensures
        match r {
            Some(c) => contact_of(a@, b@) == Some(c@),
            None => contact_of(a@, b@).is_none(),
        },
        r.is_some() == overlapping(a@, b@),
        a@.wf() && b@.wf() && r.is_some() ==> r.unwrap()@.penetration > 0,
{
    proof {
        if a@.wf() && b@.wf() && overlapping(a@, b@) {
            lemma_penetration_positive(a@, b@);
        }
    }
    match (a.shape, b.shape) {
        (Shape::Sphere { radius: radius_a }, Shape::Sphere { radius: radius_b }) => {
            let gap = b.transform.position.sub(&a.transform.position);
            let reach = radius_a.add(&radius_b);
            if gap.norm_sq() < square(reach.raw) {
                let distance: u128 = gap.length();
                let depth: i128 = reach.raw as i128 - distance as i128;
                Some(
                    Contact {
                        body_a: a.id,
                        body_b: b.id,
                        normal: gap.normalize(),
                        penetration: Scalar::from_micros(clamp(depth)),
                    },
                )
            } else {
                None
            }
        },
    }
}

/// Tests every candidate pair and keeps the contacts, in the order of the
/// pairs.
pub fn narrow_phase(bodies: &Vec<Body>, pairs: &Vec<(usize, usize)>) -> (contacts: Vec<Contact>)
    requires
        forall|k: int|
            0 <= k < pairs.len() ==> (#[trigger] pairs[k]).0 < bodies.len() && pairs[k].1
                < bodies.len(),
    ensures
        contact_models(contacts@) == contacts_among(
            models_of(bodies@),
            pairs@,
            pairs.len() as int,
        ),
{
    let mut contacts: Vec<Contact> = Vec::new();
    let mut k: usize = 0;
    assert(contact_models(contacts@) =~= contacts_among(models_of(bodies@), pairs@, 0));
    while k < pairs.len()
        invariant
            k <= pairs.len(),
            forall|k: int|
                0 <= k < pairs.len() ==> (#[trigger] pairs[k]).0 < bodies.len() && pairs[k].1
                    < bodies.len(),
            contact_models(contacts@) == contacts_among(models_of(bodies@), pairs@, k as int),
        decreases pairs.len() - k,
    {
        let pair = pairs[k];
        let ghost before = contacts@;
        match detect(&bodies[pair.0], &bodies[pair.1]) {
            Some(c) => {
                contacts.push(c);
                assert(contact_models(contacts@) =~= contact_models(before).push(c@));
            },
            None => {},
        }
        k = k + 1;
    }
    contacts
}

/// Between two valid overlapping bodies the penetration is positive and is
/// exactly what the radii exceed the distance by.
pub proof fn lemma_penetration_positive(a: BodyModel, b: BodyModel)
    requires
        a.wf(),
        b.wf(),
        overlapping(a, b),
    ensures
        contact_of(a, b).unwrap().penetration == reach(a, b) - gap(a, b).length(),
        contact_of(a, b).unwrap().penetration > 0,
{
    let g = gap(a, b);
    let r = reach(a, b);
    let n = g.norm_sq();
    assert(r > 0);
    assert(n >= 0) by (nonlinear_arith)
        requires
            n == g.x * g.x + g.y * g.y + g.z * g.z,
    ;
    lemma_floor_sqrt_exists(n);
    let len = g.length();
    assert(len < r) by (nonlinear_arith)
        requires
            0 <= len,
            len * len <= n,
            n < r * r,
            r > 0,
    ;
}

} // verus!
