use sphere_physics::body::{BodyId, BodyKind, Shape};
use sphere_physics::camera::{CameraController, CameraEvent, CameraKey};
use sphere_physics::mesh::generate_sphere_indices;
use sphere_physics::scalar::Scalar;
use sphere_physics::vector::{Transform, Vector3};
use sphere_physics::world::World;

#[test]
fn a_new_camera_is_not_steered() {
    let c = CameraController::new();
    assert!(!c.is_forward_pressed && !c.is_backward_pressed);
    assert!(!c.is_left_pressed && !c.is_right_pressed);
    assert!(!c.is_up_pressed && !c.is_down_pressed);
    assert!(!c.tracks_cursor());
}

#[test]
fn steering_keys_set_and_clear_their_flag() {
    let mut c = CameraController::new();
    assert!(c.process_events(CameraEvent::Key { key: Some(CameraKey::Forward), pressed: true }));
    assert!(c.process_events(CameraEvent::Key { key: Some(CameraKey::Left), pressed: true }));
    assert!(c.process_events(CameraEvent::Key { key: Some(CameraKey::Down), pressed: true }));
    assert!(c.is_forward_pressed && c.is_left_pressed && c.is_down_pressed);
    assert!(!c.is_backward_pressed && !c.is_right_pressed && !c.is_up_pressed);
    assert!(c.process_events(CameraEvent::Key { key: Some(CameraKey::Forward), pressed: false }));
    assert!(!c.is_forward_pressed && c.is_left_pressed);
    assert!(c.process_events(CameraEvent::Key { key: Some(CameraKey::Backward), pressed: true }));
    assert!(c.process_events(CameraEvent::Key { key: Some(CameraKey::Right), pressed: true }));
    assert!(c.process_events(CameraEvent::Key { key: Some(CameraKey::Up), pressed: true }));
    assert!(c.is_backward_pressed && c.is_right_pressed && c.is_up_pressed);
}

#[test]
fn other_keys_and_events_are_not_handled() {
    let mut c = CameraController::new();
    let before = c;
    assert!(!c.process_events(CameraEvent::Key { key: None, pressed: true }));
    assert!(!c.process_events(CameraEvent::Other));
    assert_eq!(c, before);
}

#[test]
fn the_right_mouse_button_makes_the_camera_track_the_cursor() {
    let mut c = CameraController::new();
    assert!(c.process_events(CameraEvent::CursorMoved));
    assert!(!c.tracks_cursor());
    assert!(c.process_events(CameraEvent::MouseRight { pressed: true }));
    assert!(c.tracks_cursor());
    assert!(c.process_events(CameraEvent::CursorMoved));
    assert!(c.process_events(CameraEvent::MouseRight { pressed: false }));
    assert!(!c.tracks_cursor());
}

#[test]
fn one_patch_makes_two_triangles() {
    assert_eq!(generate_sphere_indices(1, 1), vec![0, 2, 1, 2, 3, 1]);
}

#[test]
fn patches_run_sector_by_sector_and_stack_by_stack() {
    let indices = generate_sphere_indices(3, 2);
    assert_eq!(indices.len(), 36);
    assert_eq!(&indices[0..6], &[0, 4, 1, 4, 5, 1]);
    assert_eq!(&indices[12..18], &[2, 6, 3, 6, 7, 3]);
    assert_eq!(&indices[18..24], &[4, 8, 5, 8, 9, 5]);
    assert_eq!(&indices[30..36], &[6, 10, 7, 10, 11, 7]);
    assert!(indices.iter().all(|&i| i < 12));
}

#[test]
fn a_sphere_without_stacks_or_sectors_has_no_triangles() {
    assert!(generate_sphere_indices(0, 5).is_empty());
    assert!(generate_sphere_indices(5, 0).is_empty());
}

#[test]
fn the_world_lists_its_bodies_by_rising_id() {
    let mut world = World::new(Vector3::zero(), Scalar::zero());
    let place = Transform::at(Vector3::zero());
    let shape = Shape::sphere(Scalar::one());
    let a = world.create_body(shape, Scalar::one(), place, BodyKind::Dynamic).unwrap();
    let b = world.create_body(shape, Scalar::one(), place, BodyKind::Static).unwrap();
    let c = world.create_body(shape, Scalar::one(), place, BodyKind::Dynamic).unwrap();
    assert_eq!(world.body_ids(), vec![a, b, c]);
    world.remove_body(b).unwrap();
    assert_eq!(world.body_ids(), vec![BodyId(0), BodyId(2)]);
}
