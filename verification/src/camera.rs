//! Which way the camera is being steered: the state that key presses and the
//! right mouse button leave behind.

use vstd::prelude::*;

verus! {

/// A direction in which the camera can be driven.
#[derive(Clone, Copy, Debug, PartialEq, Eq, Structural)]
pub enum CameraKey {
    Forward,
    Backward,
    Left,
    Right,
    Up,
    Down,
}

/// What the window reports, as far as the camera is concerned.
#[derive(Clone, Copy, Debug, PartialEq, Eq, Structural)]
pub enum CameraEvent {
    /// The right mouse button went down or up.
    MouseRight { pressed: bool },
    /// The cursor moved.
    CursorMoved,
    /// A key went down or up; `key` is `None` for a key that steers nothing.
    Key { key: Option<CameraKey>, pressed: bool },
    /// Anything else.
    Other,
}

/// The steering state of the camera.
#[derive(Clone, Copy, Debug, PartialEq, Eq, Structural)]
pub struct CameraController {
    pub is_forward_pressed: bool,
    pub is_backward_pressed: bool,
    pub is_left_pressed: bool,
    pub is_right_pressed: bool,
    pub is_up_pressed: bool,
    pub is_down_pressed: bool,
    pub is_mouse_right_pressed: bool,
}

impl CameraController {
    /// The state after `key` went down (`pressed`) or up.
    pub open spec fn with_key(self, key: CameraKey, pressed: bool) -> CameraController {
        match key {
            CameraKey::Forward => CameraController { is_forward_pressed: pressed, ..self },
            CameraKey::Backward => CameraController { is_backward_pressed: pressed, ..self },
            CameraKey::Left => CameraController { is_left_pressed: pressed, ..self },
            CameraKey::Right => CameraController { is_right_pressed: pressed, ..self },
            CameraKey::Up => CameraController { is_up_pressed: pressed, ..self },
            CameraKey::Down => CameraController { is_down_pressed: pressed, ..self },
        }
    }

    /// The state after `event`.
    pub open spec fn after(self, event: CameraEvent) -> CameraController {
        match event {
            CameraEvent::MouseRight { pressed } => CameraController {
                is_mouse_right_pressed: pressed,
                ..self
            },
            CameraEvent::Key { key: Some(k), pressed } => self.with_key(k, pressed),
            _ => self,
        }
    }

    /// Whether the camera takes `event` for itself.
    pub open spec fn handles(event: CameraEvent) -> bool {
        match event {
            CameraEvent::MouseRight { .. } => true,
            CameraEvent::CursorMoved => true,
            CameraEvent::Key { key, .. } => key.is_some(),
            CameraEvent::Other => false,
        }
    }

    /// A camera that is not being steered.
    pub fn new() -> (r: CameraController)
        ensures
            r == (CameraController {
                is_forward_pressed: false,
                is_backward_pressed: false,
                is_left_pressed: false,
                is_right_pressed: false,
                is_up_pressed: false,
                is_down_pressed: false,
                is_mouse_right_pressed: false,
            }),
    {
        CameraController {
            is_forward_pressed: false,
            is_backward_pressed: false,
            is_left_pressed: false,
            is_right_pressed: false,
            is_up_pressed: false,
            is_down_pressed: false,
            is_mouse_right_pressed: false,
        }
    }

    /// Takes note of `event` and says whether the camera took it for itself.
    pub fn process_events(&mut self, event: CameraEvent) -> (handled: bool)
        ensures
            *final(self) == old(self).after(event),
            handled == CameraController::handles(event),
    {
        match event {
            CameraEvent::MouseRight { pressed } => {
                self.is_mouse_right_pressed = pressed;
                true
            },
            CameraEvent::CursorMoved => true,
            CameraEvent::Key { key, pressed } => {
                match key {
                    Some(CameraKey::Forward) => {
                        self.is_forward_pressed = pressed;
                        true
                    },
                    Some(CameraKey::Left) => {
                        self.is_left_pressed = pressed;
                        true
                    },
                    Some(CameraKey::Backward) => {
                        self.is_backward_pressed = pressed;
                        true
                    },
                    Some(CameraKey::Right) => {
                        self.is_right_pressed = pressed;
                        true
                    },
                    Some(CameraKey::Up) => {
                        self.is_up_pressed = pressed;
                        true
                    },
                    Some(CameraKey::Down) => {
                        self.is_down_pressed = pressed;
                        true
                    },
                    None => false,
                }
            },
            CameraEvent::Other => false,
        }
    }

    /// Whether cursor movement turns the camera: it does while the right
    /// mouse button is held.
    pub fn tracks_cursor(&self) -> (r: bool)
        ensures
            r == self.is_mouse_right_pressed,
    {
        self.is_mouse_right_pressed
    }
}

} // verus!
