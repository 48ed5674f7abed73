//! Rigid spheres under uniform gravity: a fixed-point physics core whose
//! integration, collision detection and collision response are verified.

pub mod body;
pub mod broad_phase;
pub mod camera;
pub mod collision_laws;
pub mod fps;
pub mod integrator;
pub mod laws;
pub mod mesh;
pub mod narrow_phase;
pub mod resolver;
pub mod scalar;
pub mod separation_laws;
pub mod vector;
pub mod world;
