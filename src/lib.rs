//! Fixed-point core of a 2D ant swarm: geometry, steering and render projection.
use vstd::prelude::*;

pub mod geometry;
pub mod steering;
pub mod settings;
pub mod population;
pub mod render;

verus! {

} // verus!
