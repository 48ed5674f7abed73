use sphere_physics::body::{BodyId, BodyKind, Shape};
use sphere_physics::scalar::Scalar;
use sphere_physics::vector::{Transform, Vector3};
use sphere_physics::world::{PhysicsError, World};

fn units(x: i64) -> Scalar {
    Scalar::from_int(x)
}

fn earth() -> World {
    World::new(Vector3::from_micros(0, -9_800_000, 0), Scalar::zero())
}

fn ball(world: &mut World, radius: i64, mass: i64, at: (i64, i64, i64), kind: BodyKind) -> BodyId {
    world
        .create_body(
            Shape::sphere(units(radius)),
            units(mass),
            Transform::at(Vector3::new(units(at.0), units(at.1), units(at.2))),
            kind,
        )
        .unwrap()
}

#[test]
fn a_new_world_is_empty() {
    let world = earth();
    assert_eq!(world.len(), 0);
    assert_eq!(world.gravity(), Vector3::from_micros(0, -9_800_000, 0));
    assert_eq!(world.air_friction(), Scalar::zero());
    assert!(world.has_fresh_id());
}

#[test]
fn created_bodies_get_fresh_ids_and_start_at_rest() {
    let mut world = earth();
    let a = ball(&mut world, 1, 1, (0, 5, 0), BodyKind::Dynamic);
    let b = ball(&mut world, 1, 1, (3, 0, 0), BodyKind::Static);
    assert_ne!(a, b);
    assert_eq!(world.len(), 2);
    assert_eq!(world.get_velocity(a), Ok(Vector3::zero()));
    assert_eq!(world.get_velocity(b), Ok(Vector3::zero()));
    assert_eq!(
        world.get_transform(a),
        Ok(Transform::at(Vector3::from_micros(0, 5_000_000, 0)))
    );
    let whole = world.get_body(b).unwrap();
    assert_eq!(whole.id, b);
    assert_eq!(whole.kind, BodyKind::Static);
    assert_eq!(whole.acceleration, Vector3::zero());
}

#[test]
fn a_dynamic_body_needs_a_positive_mass() {
    let mut world = earth();
    let shape = Shape::sphere(units(1));
    let place = Transform::at(Vector3::zero());
    assert_eq!(
        world.create_body(shape, Scalar::zero(), place, BodyKind::Dynamic),
        Err(PhysicsError::InvalidMass)
    );
    assert_eq!(
        world.create_body(shape, units(-2), place, BodyKind::Dynamic),
        Err(PhysicsError::InvalidMass)
    );
    assert_eq!(world.len(), 0);
}

#[test]
fn a_static_body_may_have_any_mass() {
    let mut world = earth();
    let shape = Shape::sphere(units(1));
    let place = Transform::at(Vector3::zero());
    assert!(world.create_body(shape, Scalar::zero(), place, BodyKind::Static).is_ok());
    assert!(world.create_body(shape, units(-1), place, BodyKind::Static).is_ok());
}

#[test]
fn a_shape_needs_positive_dimensions() {
    let mut world = earth();
    let place = Transform::at(Vector3::zero());
    assert_eq!(
        world.create_body(Shape::sphere(Scalar::zero()), units(1), place, BodyKind::Dynamic),
        Err(PhysicsError::InvalidShape)
    );
    assert_eq!(
        world.create_body(Shape::sphere(units(-1)), units(1), place, BodyKind::Static),
        Err(PhysicsError::InvalidShape)
    );
    assert_eq!(world.len(), 0);
}

#[test]
fn a_bad_mass_is_reported_before_a_bad_shape() {
    let mut world = earth();
    let place = Transform::at(Vector3::zero());
    assert_eq!(
        world.create_body(Shape::sphere(Scalar::zero()), Scalar::zero(), place, BodyKind::Dynamic),
        Err(PhysicsError::InvalidMass)
    );
}

#[test]
fn a_refused_body_uses_up_no_id() {
    let mut world = earth();
    let place = Transform::at(Vector3::zero());
    let _ = world.create_body(Shape::sphere(Scalar::zero()), units(1), place, BodyKind::Dynamic);
    let first = ball(&mut world, 1, 1, (0, 0, 0), BodyKind::Dynamic);
    assert_eq!(first, BodyId(0));
}

#[test]
fn removed_bodies_are_gone_and_their_ids_stay_retired() {
    let mut world = earth();
    let a = ball(&mut world, 1, 1, (0, 10, 0), BodyKind::Dynamic);
    let b = ball(&mut world, 1, 1, (10, 0, 0), BodyKind::Dynamic);
    assert_eq!(world.remove_body(a), Ok(()));
    assert!(!world.contains(a));
    assert!(world.contains(b));
    assert_eq!(world.get_transform(a), Err(PhysicsError::NotFound));
    assert_eq!(world.get_velocity(a), Err(PhysicsError::NotFound));
    assert_eq!(world.get_body(a).err(), Some(PhysicsError::NotFound));
    assert_eq!(world.remove_body(a), Err(PhysicsError::NotFound));
    let c = ball(&mut world, 1, 1, (20, 0, 0), BodyKind::Dynamic);
    assert_ne!(c, a);
    assert_ne!(c, b);
    assert_eq!(world.len(), 2);
}

#[test]
fn unknown_ids_are_not_found() {
    let mut world = earth();
    assert_eq!(world.get_transform(BodyId(7)), Err(PhysicsError::NotFound));
    assert_eq!(world.get_velocity(BodyId(7)), Err(PhysicsError::NotFound));
    assert_eq!(world.remove_body(BodyId(7)), Err(PhysicsError::NotFound));
}

#[test]
fn setters_take_effect_on_the_next_step() {
    let mut world = World::new(Vector3::zero(), Scalar::zero());
    let a = ball(&mut world, 1, 1, (0, 0, 0), BodyKind::Dynamic);
    world.step(units(1)).unwrap();
    assert_eq!(world.get_velocity(a), Ok(Vector3::zero()));
    world.set_gravity(Vector3::from_micros(0, 0, 2_000_000));
    assert_eq!(world.gravity(), Vector3::from_micros(0, 0, 2_000_000));
    world.step(units(1)).unwrap();
    assert_eq!(world.get_velocity(a), Ok(Vector3::from_micros(0, 0, 2_000_000)));
    world.set_air_friction(Scalar::one());
    assert_eq!(world.air_friction(), Scalar::one());
    world.step(units(1)).unwrap();
    // drag cancels gravity exactly: the velocity stays
    assert_eq!(world.get_velocity(a), Ok(Vector3::from_micros(0, 0, 2_000_000)));
    assert_eq!(world.get_body(a).unwrap().acceleration, Vector3::zero());
}

#[test]
fn a_negative_time_step_is_refused_and_changes_nothing() {
    let mut world = earth();
    let a = ball(&mut world, 1, 1, (0, 5, 0), BodyKind::Dynamic);
    world.step(Scalar::from_micros(10_000)).unwrap();
    let before = world.get_body(a).unwrap();
    assert_eq!(world.step(Scalar::from_micros(-1)), Err(PhysicsError::InvalidDeltaTime));
    assert_eq!(world.get_body(a).unwrap(), before);
}

#[test]
fn free_fall_follows_the_step_formulas() {
    let mut world = earth();
    let a = ball(&mut world, 1, 3, (0, 100, 0), BodyKind::Dynamic);
    let dt = Scalar::from_micros(10_000);
    world.step(dt).unwrap();
    assert_eq!(world.get_velocity(a), Ok(Vector3::from_micros(0, -98_000, 0)));
    assert_eq!(
        world.get_transform(a).unwrap().position,
        Vector3::from_micros(0, 99_999_020, 0)
    );
    world.step(dt).unwrap();
    assert_eq!(world.get_velocity(a), Ok(Vector3::from_micros(0, -196_000, 0)));
    assert_eq!(
        world.get_transform(a).unwrap().position,
        Vector3::from_micros(0, 99_997_060, 0)
    );
    assert_eq!(
        world.get_body(a).unwrap().acceleration,
        Vector3::from_micros(0, -9_800_000, 0)
    );
}

#[test]
fn static_bodies_do_not_fall() {
    let mut world = earth();
    let b = ball(&mut world, 1, 1, (0, 0, 0), BodyKind::Static);
    let before = world.get_body(b).unwrap();
    for _ in 0..10 {
        world.step(Scalar::from_micros(10_000)).unwrap();
    }
    assert_eq!(world.get_body(b).unwrap(), before);
}

#[test]
fn a_step_of_no_time_changes_nothing() {
    let mut world = earth();
    let a = ball(&mut world, 1, 1, (0, 5, 0), BodyKind::Dynamic);
    let b = ball(&mut world, 1, 1, (0, 0, 0), BodyKind::Static);
    for _ in 0..5 {
        world.step(Scalar::from_micros(10_000)).unwrap();
    }
    let (ta, va) = (world.get_transform(a).unwrap(), world.get_velocity(a).unwrap());
    let tb = world.get_transform(b).unwrap();
    world.step(Scalar::zero()).unwrap();
    assert_eq!(world.get_transform(a).unwrap(), ta);
    assert_eq!(world.get_velocity(a).unwrap(), va);
    assert_eq!(world.get_transform(b).unwrap(), tb);
}

#[test]
fn a_dropped_ball_bounces_off_a_static_ball() {
    let mut world = earth();
    let a = ball(&mut world, 1, 1, (0, 5, 0), BodyKind::Dynamic);
    let b = ball(&mut world, 1, 1, (0, 0, 0), BodyKind::Static);
    let dt = Scalar::from_micros(10_000);
    let mut bounced = false;
    for _ in 0..200 {
        let before = world.get_velocity(a).unwrap();
        world.step(dt).unwrap();
        let after = world.get_velocity(a).unwrap();
        let height = world.get_transform(a).unwrap().position.y.micros();
        assert!(height >= 2_000_000, "the ball sank into the static ball");
        if after.y.micros() > 0 {
            // the fall gained one more step of speed before the bounce mirrored it
            let falling = before.y.micros() - 98_000;
            assert!(falling < 0);
            assert_eq!(after.y.micros(), -falling);
            assert_eq!(after.x.micros(), 0);
            assert_eq!(after.z.micros(), 0);
            assert_eq!(height, 2_000_000);
            bounced = true;
            break;
        }
    }
    assert!(bounced);
    assert_eq!(world.get_velocity(b), Ok(Vector3::zero()));
    assert_eq!(world.get_transform(b).unwrap().position, Vector3::zero());
}

#[test]
fn the_bounce_comes_when_the_centres_are_two_apart() {
    let mut world = earth();
    let a = ball(&mut world, 1, 1, (0, 5, 0), BodyKind::Dynamic);
    let _b = ball(&mut world, 1, 1, (0, 0, 0), BodyKind::Static);
    let dt = Scalar::from_micros(10_000);
    let mut steps = 0;
    while world.get_velocity(a).unwrap().y.micros() <= 0 {
        world.step(dt).unwrap();
        steps += 1;
        assert!(steps < 200);
    }
    // a fall of three units from rest takes sqrt(2 * 3 / 9.8) = 0.782 s
    assert_eq!(steps, 78);
}

#[test]
fn overlapping_bodies_are_parted_even_by_a_step_of_no_time() {
    let mut world = World::new(Vector3::zero(), Scalar::zero());
    let a = ball(&mut world, 1, 1, (0, 0, 0), BodyKind::Dynamic);
    let b = ball(&mut world, 1, 1, (1, 0, 0), BodyKind::Dynamic);
    world.step(Scalar::zero()).unwrap();
    let pa = world.get_transform(a).unwrap().position;
    let pb = world.get_transform(b).unwrap().position;
    assert_eq!(pa, Vector3::from_micros(-500_000, 0, 0));
    assert_eq!(pb, Vector3::from_micros(1_500_000, 0, 0));
}

#[test]
fn bodies_that_do_not_touch_move_alike() {
    let mut world = World::new(Vector3::zero(), Scalar::zero());
    let a = ball(&mut world, 1, 2, (0, 0, 0), BodyKind::Dynamic);
    let b = ball(&mut world, 1, 2, (3, 0, 0), BodyKind::Dynamic);
    // let both fall for half a second, then let them coast
    world.set_gravity(Vector3::from_micros(0, -1_000_000, 0));
    world.step(Scalar::from_micros(500_000)).unwrap();
    world.set_gravity(Vector3::zero());
    let va = world.get_velocity(a).unwrap();
    let vb = world.get_velocity(b).unwrap();
    assert_eq!(va, vb);
    for _ in 0..10 {
        world.step(Scalar::from_micros(100_000)).unwrap();
    }
    assert_eq!(world.get_velocity(a).unwrap(), va);
    assert_eq!(world.get_velocity(b).unwrap(), vb);
}

#[test]
fn drag_slows_a_body_down() {
    let mut world = World::new(Vector3::from_micros(1_000_000, 0, 0), Scalar::zero());
    let a = ball(&mut world, 1, 1, (0, 0, 0), BodyKind::Dynamic);
    world.step(units(1)).unwrap();
    assert_eq!(world.get_velocity(a), Ok(Vector3::from_micros(1_000_000, 0, 0)));
    world.set_gravity(Vector3::zero());
    world.set_air_friction(Scalar::from_micros(250_000));
    world.step(units(1)).unwrap();
    // a = -0.25 v = -0.25; v' = 0.75; p' = 1 + 0.75
    assert_eq!(world.get_velocity(a), Ok(Vector3::from_micros(750_000, 0, 0)));
    assert_eq!(
        world.get_transform(a).unwrap().position,
        Vector3::from_micros(1_750_000, 0, 0)
    );
}
