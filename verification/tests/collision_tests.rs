use sphere_physics::body::{find_body, Body, BodyId, BodyKind, Shape};
use sphere_physics::broad_phase::{broad_phase, candidate, may_touch};
use sphere_physics::integrator::{integrate, integrate_all};
use sphere_physics::narrow_phase::{detect, narrow_phase, overlaps, Contact};
use sphere_physics::resolver::{
    elastic_exchange, resolve, resolve_all, resolve_contact, set_normal_speed, split_correction,
};
use sphere_physics::scalar::Scalar;
use sphere_physics::vector::{Quaternion, Transform, Vector3};

fn micros(x: i64) -> Scalar {
    Scalar::from_micros(x)
}

fn sphere(id: u64, radius: i64, mass: i64, at: (i64, i64, i64), kind: BodyKind) -> Body {
    Body::at_rest(
        BodyId(id),
        Shape::sphere(micros(radius)),
        micros(mass),
        Transform::at(Vector3::from_micros(at.0, at.1, at.2)),
        kind,
    )
}

fn moving(mut body: Body, v: (i64, i64, i64)) -> Body {
    body.velocity = Vector3::from_micros(v.0, v.1, v.2);
    body
}

fn distance(a: &Body, b: &Body) -> f64 {
    (b.transform.position.sub(&a.transform.position).norm_sq() as f64).sqrt()
}

#[test]
fn vectors_add_subtract_and_scale() {
    let a = Vector3::from_micros(1_000_000, -2_000_000, 3_000_000);
    let b = Vector3::from_micros(500_000, 500_000, 500_000);
    assert_eq!(a.add(&b), Vector3::from_micros(1_500_000, -1_500_000, 3_500_000));
    assert_eq!(a.sub(&b), Vector3::from_micros(500_000, -2_500_000, 2_500_000));
    assert_eq!(a.neg(), Vector3::from_micros(-1_000_000, 2_000_000, -3_000_000));
    assert_eq!(a.scale(&micros(500_000)), Vector3::from_micros(500_000, -1_000_000, 1_500_000));
    assert_eq!(a.dot(&b), micros(1_000_000));
    assert_eq!(a.len_sqr(), micros(14_000_000));
    assert_eq!(a.norm_sq(), 14_000_000_000_000);
    assert_eq!(Vector3::from_micros(3_000_000, 4_000_000, 0).length(), 5_000_000);
}

#[test]
fn normalizing_gives_a_unit_vector() {
    let v = Vector3::from_micros(3_000_000, 0, -4_000_000);
    assert_eq!(v.normalize(), Vector3::from_micros(600_000, 0, -800_000));
    let d = Vector3::from_micros(1_000_000, 1_000_000, 1_000_000).normalize();
    assert_eq!(d, Vector3::from_micros(577_350, 577_350, 577_350));
}

#[test]
fn normalizing_nothing_falls_back_to_the_vertical() {
    assert_eq!(Vector3::zero().normalize(), Vector3::unit_y());
    assert_eq!(Vector3::unit_y(), Vector3::from_micros(0, 1_000_000, 0));
}

#[test]
fn the_identity_transform_is_unturned() {
    let t = Transform::at(Vector3::from_micros(1, 2, 3));
    assert_eq!(t.orientation, Quaternion::identity());
    assert_eq!(t.scale, Scalar::one());
    assert_eq!(Quaternion::identity().w, Scalar::one());
}

#[test]
fn shapes_report_their_bounding_radius() {
    let s = Shape::sphere(micros(2_500_000));
    assert_eq!(s.bounding_radius(), micros(2_500_000));
    assert!(s.is_valid());
    assert!(!Shape::sphere(micros(0)).is_valid());
}

#[test]
fn integration_uses_the_velocity_at_the_start_for_drag() {
    let body = moving(sphere(0, 1_000_000, 1_000_000, (0, 0, 0), BodyKind::Dynamic), (2_000_000, 0, 0));
    let gravity = Vector3::from_micros(0, -10_000_000, 0);
    let after = integrate(&body, &gravity, &micros(500_000), &micros(100_000));
    // a = g - 0.5 v = (-1, -10, 0); v' = v + 0.1 a = (1.9, -1, 0); p' = 0.1 v'
    assert_eq!(after.acceleration, Vector3::from_micros(-1_000_000, -10_000_000, 0));
    assert_eq!(after.velocity, Vector3::from_micros(1_900_000, -1_000_000, 0));
    assert_eq!(after.transform.position, Vector3::from_micros(190_000, -100_000, 0));
    assert_eq!(after.id, body.id);
    assert_eq!(after.mass, body.mass);
}

#[test]
fn free_fall_does_not_depend_on_the_mass() {
    let gravity = Vector3::from_micros(0, -9_800_000, 0);
    let light = sphere(0, 1_000_000, 1_000, (0, 0, 0), BodyKind::Dynamic);
    let heavy = sphere(1, 1_000_000, 900_000_000, (0, 0, 0), BodyKind::Dynamic);
    let dt = micros(250_000);
    let a = integrate(&light, &gravity, &Scalar::zero(), &dt);
    let b = integrate(&heavy, &gravity, &Scalar::zero(), &dt);
    assert_eq!(a.velocity, Vector3::from_micros(0, -2_450_000, 0));
    assert_eq!(a.velocity, b.velocity);
    assert_eq!(a.transform.position, Vector3::from_micros(0, -612_500, 0));
    assert_eq!(a.transform.position, b.transform.position);
}

#[test]
fn integrating_a_static_body_changes_nothing() {
    let body = sphere(0, 1_000_000, 1_000_000, (1, 2, 3), BodyKind::Static);
    let gravity = Vector3::from_micros(0, -9_800_000, 0);
    assert_eq!(integrate(&body, &gravity, &Scalar::zero(), &Scalar::one()), body);
}

#[test]
fn integrating_a_list_moves_each_dynamic_body() {
    let mut bodies = vec![
        sphere(0, 1_000_000, 1_000_000, (0, 0, 0), BodyKind::Dynamic),
        sphere(1, 1_000_000, 1_000_000, (5_000_000, 0, 0), BodyKind::Static),
    ];
    let gravity = Vector3::from_micros(0, -1_000_000, 0);
    integrate_all(&mut bodies, &gravity, &Scalar::zero(), &Scalar::one());
    assert_eq!(bodies[0].velocity, Vector3::from_micros(0, -1_000_000, 0));
    assert_eq!(bodies[0].transform.position, Vector3::from_micros(0, -1_000_000, 0));
    assert_eq!(bodies[1], sphere(1, 1_000_000, 1_000_000, (5_000_000, 0, 0), BodyKind::Static));
}

#[test]
fn spheres_overlap_when_closer_than_their_radii() {
    let a = sphere(0, 1_000_000, 1_000_000, (0, 0, 0), BodyKind::Dynamic);
    let near = sphere(1, 1_000_000, 1_000_000, (1_999_999, 0, 0), BodyKind::Dynamic);
    let touching = sphere(2, 1_000_000, 1_000_000, (2_000_000, 0, 0), BodyKind::Dynamic);
    assert!(overlaps(&a, &near));
    assert!(!overlaps(&a, &touching));
    assert!(detect(&a, &touching).is_none());
}

#[test]
fn a_contact_points_from_the_first_body_to_the_second() {
    let a = sphere(4, 1_000_000, 1_000_000, (0, 0, 0), BodyKind::Dynamic);
    let b = sphere(9, 1_000_000, 1_000_000, (0, 0, -1_500_000), BodyKind::Static);
    let c = detect(&a, &b).unwrap();
    assert_eq!(c.body_a, BodyId(4));
    assert_eq!(c.body_b, BodyId(9));
    assert_eq!(c.normal, Vector3::from_micros(0, 0, -1_000_000));
    assert_eq!(c.penetration, micros(500_000));
    let back = detect(&b, &a).unwrap();
    assert_eq!(back.normal, Vector3::from_micros(0, 0, 1_000_000));
}

#[test]
fn coinciding_centres_give_the_vertical_normal() {
    let a = sphere(0, 1_000_000, 1_000_000, (7, 7, 7), BodyKind::Dynamic);
    let b = sphere(1, 2_000_000, 1_000_000, (7, 7, 7), BodyKind::Dynamic);
    let c = detect(&a, &b).unwrap();
    assert_eq!(c.normal, Vector3::unit_y());
    assert_eq!(c.penetration, micros(3_000_000));
}

#[test]
fn the_broad_phase_pairs_dynamic_bodies_once_and_with_statics() {
    let bodies = vec![
        sphere(0, 1_000_000, 1_000_000, (0, 0, 0), BodyKind::Dynamic),
        sphere(1, 1_000_000, 1_000_000, (500_000, 0, 0), BodyKind::Static),
        sphere(2, 1_000_000, 1_000_000, (0, 500_000, 0), BodyKind::Dynamic),
        sphere(3, 1_000_000, 1_000_000, (0, 0, 500_000), BodyKind::Static),
    ];
    assert_eq!(broad_phase(&bodies), vec![(0, 1), (0, 2), (0, 3), (2, 1), (2, 3)]);
}

#[test]
fn the_broad_phase_drops_pairs_whose_boxes_are_apart() {
    let bodies = vec![
        sphere(0, 1_000_000, 1_000_000, (0, 0, 0), BodyKind::Dynamic),
        sphere(1, 1_000_000, 1_000_000, (2_000_000, 0, 0), BodyKind::Dynamic),
        sphere(2, 1_000_000, 1_000_000, (1_900_000, 1_900_000, 1_900_000), BodyKind::Dynamic),
    ];
    assert!(!may_touch(&bodies[0], &bodies[1]));
    assert!(may_touch(&bodies[0], &bodies[2]));
    assert!(candidate(&bodies[0], &bodies[2]));
    assert!(!candidate(&bodies[2], &bodies[0]));
    // boxes touch at the corner, the spheres do not
    assert!(!overlaps(&bodies[0], &bodies[2]));
    let pairs = broad_phase(&bodies);
    assert_eq!(pairs, vec![(0, 2), (1, 2)]);
    assert!(narrow_phase(&bodies, &pairs).is_empty());
}

#[test]
fn the_broad_phase_finds_every_overlapping_pair() {
    // a deterministic scatter of bodies on a coarse lattice
    let mut bodies = Vec::new();
    let mut seed: u64 = 12345;
    for id in 0..40u64 {
        let mut next = || {
            seed = seed.wrapping_mul(6364136223846793005).wrapping_add(1442695040888963407);
            ((seed >> 33) % 8_000_000) as i64
        };
        let at = (next(), next(), next());
        let radius = 300_000 + next() / 8;
        let kind = if id % 3 == 0 { BodyKind::Static } else { BodyKind::Dynamic };
        bodies.push(sphere(id, radius, 1_000_000, at, kind));
    }
    let pairs = broad_phase(&bodies);
    let mut found = 0;
    for i in 0..bodies.len() {
        for j in 0..bodies.len() {
            let wanted = bodies[i].is_dynamic()
                && (!bodies[j].is_dynamic() || bodies[i].id.0 < bodies[j].id.0);
            if wanted && overlaps(&bodies[i], &bodies[j]) {
                assert!(pairs.contains(&(i, j)), "missed the pair ({}, {})", i, j);
                found += 1;
            }
        }
    }
    assert!(found > 0);
    let contacts = narrow_phase(&bodies, &pairs);
    assert_eq!(contacts.len(), found);
    for w in pairs.windows(2) {
        assert!(w[0] < w[1]);
    }
}

#[test]
fn equal_masses_exchange_their_speeds() {
    let m = micros(2_000_000);
    let (w1, w2) = elastic_exchange(&m, &micros(3_000_000), &m, &micros(-3_000_000));
    assert_eq!((w1, w2), (micros(-3_000_000), micros(3_000_000)));
    let (w1, w2) = elastic_exchange(&m, &micros(5_000_000), &m, &micros(1_000_000));
    assert_eq!((w1, w2), (micros(1_000_000), micros(5_000_000)));
}

#[test]
fn unequal_masses_follow_the_elastic_formulas() {
    // m1 = 1, u1 = 4; m2 = 3, u2 = 0: w1 = -2, w2 = 2
    let (w1, w2) = elastic_exchange(
        &micros(1_000_000),
        &micros(4_000_000),
        &micros(3_000_000),
        &Scalar::zero(),
    );
    assert_eq!((w1, w2), (micros(-2_000_000), micros(2_000_000)));
    // momentum 1 * 4 = 1 * -2 + 3 * 2, energy 16 = 4 + 12
    let (w1, w2) = elastic_exchange(
        &micros(2_000_000),
        &micros(1_000_000),
        &micros(1_000_000),
        &micros(-1_000_000),
    );
    assert_eq!((w1, w2), (micros(-333_333), micros(1_666_666)));
}

#[test]
fn the_push_is_shared_in_inverse_ratio_of_the_masses() {
    let (a, b) = split_correction(&micros(1_000_000), &micros(3_000_000), &micros(400_000));
    assert_eq!((a, b), (micros(300_000), micros(100_000)));
    let (a, b) = split_correction(&micros(1_000_000), &micros(2_000_000), &micros(100_000));
    assert_eq!(a.micros() + b.micros(), 100_000);
    assert_eq!(a, micros(66_666));
}

#[test]
fn setting_the_normal_speed_keeps_the_tangential_part() {
    let v = Vector3::from_micros(3_000_000, -2_000_000, 1_000_000);
    let n = Vector3::from_micros(0, 1_000_000, 0);
    assert_eq!(
        set_normal_speed(&v, &n, &micros(5_000_000)),
        Vector3::from_micros(3_000_000, 5_000_000, 1_000_000)
    );
}

#[test]
fn head_on_equal_spheres_bounce_back() {
    let a = moving(sphere(0, 1_000_000, 1_000_000, (-900_000, 0, 0), BodyKind::Dynamic), (2_000_000, 0, 0));
    let b = moving(sphere(1, 1_000_000, 1_000_000, (900_000, 0, 0), BodyKind::Dynamic), (-2_000_000, 0, 0));
    let c = detect(&a, &b).unwrap();
    assert_eq!(c.normal, Vector3::from_micros(1_000_000, 0, 0));
    assert_eq!(c.penetration, micros(200_000));
    let (a2, b2) = resolve(&a, &b, &c);
    assert_eq!(a2.velocity, Vector3::from_micros(-2_000_000, 0, 0));
    assert_eq!(b2.velocity, Vector3::from_micros(2_000_000, 0, 0));
    assert_eq!(a2.transform.position, Vector3::from_micros(-1_000_000, 0, 0));
    assert_eq!(b2.transform.position, Vector3::from_micros(1_000_000, 0, 0));
    assert!(!overlaps(&a2, &b2));
    // momentum and kinetic energy are what they were
    let p = |x: &Body| x.mass.micros() * x.velocity.x.micros();
    let e = |x: &Body| x.mass.micros() * x.velocity.x.micros() * x.velocity.x.micros();
    assert_eq!(p(&a) + p(&b), p(&a2) + p(&b2));
    assert_eq!(e(&a) + e(&b), e(&a2) + e(&b2));
}

#[test]
fn a_sphere_is_mirrored_by_a_static_sphere() {
    let a = moving(sphere(0, 1_000_000, 1_000_000, (0, 1_800_000, 0), BodyKind::Dynamic), (700_000, -3_000_000, 250_000));
    let b = sphere(1, 1_000_000, 1_000_000, (0, 0, 0), BodyKind::Static);
    let c = detect(&a, &b).unwrap();
    assert_eq!(c.normal, Vector3::from_micros(0, -1_000_000, 0));
    let (a2, b2) = resolve(&a, &b, &c);
    assert_eq!(a2.velocity, Vector3::from_micros(700_000, 3_000_000, 250_000));
    assert_eq!(a2.transform.position, Vector3::from_micros(0, 2_000_000, 0));
    assert_eq!(b2, b);
}

#[test]
fn a_static_first_body_mirrors_the_second() {
    let a = sphere(0, 1_000_000, 1_000_000, (0, 0, 0), BodyKind::Static);
    let b = moving(sphere(1, 1_000_000, 1_000_000, (1_500_000, 0, 0), BodyKind::Dynamic), (-1_000_000, 1, 2));
    let c = detect(&a, &b).unwrap();
    let (a2, b2) = resolve(&a, &b, &c);
    assert_eq!(a2, a);
    assert_eq!(b2.velocity, Vector3::from_micros(1_000_000, 1, 2));
    assert_eq!(b2.transform.position, Vector3::from_micros(2_000_000, 0, 0));
}

#[test]
fn two_static_bodies_are_left_alone() {
    let a = sphere(0, 1_000_000, 1_000_000, (0, 0, 0), BodyKind::Static);
    let b = sphere(1, 1_000_000, 1_000_000, (500_000, 0, 0), BodyKind::Static);
    let c = detect(&a, &b).unwrap();
    assert_eq!(resolve(&a, &b, &c), (a, b));
}

#[test]
fn a_slanted_reflection_reverses_the_normal_part_within_rounding() {
    let a = moving(sphere(0, 1_000_000, 1_000_000, (1_000_000, 1_200_000, -500_000), BodyKind::Dynamic), (-2_000_000, -1_000_000, 500_000));
    let b = sphere(1, 1_000_000, 1_000_000, (0, 0, 0), BodyKind::Static);
    let c = detect(&a, &b).unwrap();
    let (a2, _) = resolve(&a, &b, &c);
    let before = a.velocity.dot(&c.normal).micros();
    let after = a2.velocity.dot(&c.normal).micros();
    // the rounded normal is short of unit length by a few millionths
    assert!(before > 2_000_000);
    assert!((before + after).abs() <= 25, "normal speed {} became {}", before, after);
    // what changed lies along the normal
    let change = a2.velocity.sub(&a.velocity);
    let along = c.normal.scale(&change.dot(&c.normal));
    let across = change.sub(&along);
    assert!(across.x.micros().abs() <= 10);
    assert!(across.y.micros().abs() <= 10);
    assert!(across.z.micros().abs() <= 10);
}

#[test]
fn a_resolved_contact_leaves_the_bodies_apart_within_the_slack() {
    let cases = [
        ((0, 0, 0), (1_000_000, 1_000_000, 500_000)),
        ((0, 0, 0), (-300_000, 1_700_000, 20_000)),
        ((5_000_000, -3_000_000, 2_000_000), (5_000_001, -3_000_000, 2_000_000)),
        ((0, 0, 0), (1, 1, 1)),
        ((0, 0, 0), (1_154_700, 1_154_700, 1_154_600)),
    ];
    for (pa, pb) in cases {
        for kinds in [
            (BodyKind::Dynamic, BodyKind::Dynamic),
            (BodyKind::Dynamic, BodyKind::Static),
            (BodyKind::Static, BodyKind::Dynamic),
        ] {
            let a = sphere(0, 1_000_000, 1_000_000, pa, kinds.0);
            let b = sphere(1, 1_000_000, 3_000_000, pb, kinds.1);
            let c = detect(&a, &b).unwrap();
            let (a2, b2) = resolve(&a, &b, &c);
            let slack = 6.0 * ((c.penetration.micros() / 1_000_000) as f64 + 3.0);
            let d = distance(&a2, &b2);
            assert!(d >= 2_000_000.0 - slack, "distance {} after resolving {:?}", d, c);
            assert!(d <= 2_000_000.0 + 1.0);
        }
    }
}

#[test]
fn contacts_are_resolved_in_order_on_the_list() {
    let mut bodies = vec![
        moving(sphere(0, 1_000_000, 1_000_000, (0, 1_500_000, 0), BodyKind::Dynamic), (0, -1_000_000, 0)),
        sphere(1, 1_000_000, 1_000_000, (0, 0, 0), BodyKind::Static),
        sphere(5, 1_000_000, 1_000_000, (9_000_000, 0, 0), BodyKind::Dynamic),
    ];
    let pairs = broad_phase(&bodies);
    let contacts = narrow_phase(&bodies, &pairs);
    assert_eq!(contacts.len(), 1);
    resolve_all(&mut bodies, &contacts);
    assert_eq!(bodies[0].velocity, Vector3::from_micros(0, 1_000_000, 0));
    assert_eq!(bodies[0].transform.position, Vector3::from_micros(0, 2_000_000, 0));
    assert_eq!(bodies[2].transform.position, Vector3::from_micros(9_000_000, 0, 0));
}

#[test]
fn a_contact_with_a_missing_body_changes_nothing() {
    let mut bodies = vec![
        sphere(0, 1_000_000, 1_000_000, (0, 0, 0), BodyKind::Dynamic),
        sphere(1, 1_000_000, 1_000_000, (500_000, 0, 0), BodyKind::Dynamic),
    ];
    let before = bodies.clone();
    let stray = Contact {
        body_a: BodyId(0),
        body_b: BodyId(8),
        normal: Vector3::unit_y(),
        penetration: micros(100_000),
    };
    resolve_contact(&mut bodies, &stray);
    assert_eq!(bodies, before);
    let twice = Contact { body_b: BodyId(0), ..stray };
    resolve_contact(&mut bodies, &twice);
    assert_eq!(bodies, before);
}

#[test]
fn bodies_are_found_by_their_id() {
    let bodies = vec![
        sphere(2, 1_000_000, 1_000_000, (0, 0, 0), BodyKind::Dynamic),
        sphere(7, 1_000_000, 1_000_000, (0, 0, 0), BodyKind::Static),
    ];
    assert_eq!(find_body(&bodies, BodyId(7)), Some(1));
    assert_eq!(find_body(&bodies, BodyId(2)), Some(0));
    assert_eq!(find_body(&bodies, BodyId(3)), None);
}

#[test]
fn normals_are_unit_vectors_up_to_rounding() {
    let vectors = [
        (1, 1, 1),
        (1, 0, 0),
        (-7, 3, 2),
        (1_000_000, 1_000_000, 1_000_000),
        (123_456_789, -987_654_321, 555),
        (i64::MAX, i64::MIN, i64::MAX),
        (0, 0, -1),
        (30_000_000_000_000, 1, 0),
    ];
    for (x, y, z) in vectors {
        let n = Vector3::from_micros(x, y, z).normalize();
        let square = n.norm_sq() as i128;
        let one = 1_000_000i128 * 1_000_000;
        assert!(square >= one - 6_000_000, "{:?} is too short", n);
        assert!(square <= one + 2_000_000, "{:?} is too long", n);
    }
}

#[test]
fn contacts_come_in_the_order_of_the_ids() {
    let bodies = vec![
        sphere(3, 1_000_000, 1_000_000, (0, 0, 0), BodyKind::Dynamic),
        sphere(4, 1_000_000, 1_000_000, (100_000, 0, 0), BodyKind::Static),
        sphere(6, 1_000_000, 1_000_000, (0, 100_000, 0), BodyKind::Dynamic),
        sphere(9, 1_000_000, 1_000_000, (0, 0, 100_000), BodyKind::Dynamic),
    ];
    let contacts = narrow_phase(&bodies, &broad_phase(&bodies));
    let ids: Vec<(u64, u64)> = contacts.iter().map(|c| (c.body_a.0, c.body_b.0)).collect();
    assert_eq!(ids, vec![(3, 4), (3, 6), (3, 9), (6, 4), (6, 9), (9, 4)]);
}

#[test]
fn momentum_along_the_normal_is_kept_up_to_rounding() {
    let cases = [
        (1_000_000, 4_000_000, 3_000_000, 0),
        (2_000_000, 1_000_000, 1_000_000, -1_000_000),
        (7, 12_345_678, 1_000_003, -87_654_321),
        (999_999, -5, 1, 5),
    ];
    for (m1, u1, m2, u2) in cases {
        let (w1, w2) = elastic_exchange(&micros(m1), &micros(u1), &micros(m2), &micros(u2));
        let before = m1 as i128 * u1 as i128 + m2 as i128 * u2 as i128;
        let after = m1 as i128 * w1.micros() as i128 + m2 as i128 * w2.micros() as i128;
        assert!((after - before).abs() < m1.max(m2) as i128);
    }
}
