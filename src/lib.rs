//! Lattice storage, edit sessions and input rules of an interactive
//! particle simulation whose force field is edited with the mouse.
//!
//! The geometry of the simulation is done in floating point by the
//! application; this library holds the discrete part of it: how cells of the
//! force grid are addressed, which of them a drag captures and rewrites, how
//! held keys select an edit mode, and how camera commands are dispatched.
pub mod grid;
pub mod keys;
pub mod cursor;
pub mod camera;
pub mod particle;
