//! Terrain elevation on an irregular partition of the plane.
//!
//! A diagram of cells with their adjacency is turned into a [`Heightmap`]:
//! a handful of seed cells is chosen, and from each seed a breadth-first fill
//! hands out elevations that decay with the distance from the seed.
//!
//! Everything is held in whole numbers, so that every rule is stated and
//! proved over plain integer arithmetic.  Positions are steps of a grid as
//! fine as the tolerance within which two positions are the same place;
//! elevations, chances and drift vectors are millionths.  Turning
//! floating-point coordinates into grid steps, and millionths back into
//! floating-point numbers, is left to the caller.
//!
//! Chance comes from a generator that the caller hands in.  What a function
//! promises of a random outcome holds of every outcome; what follows from a
//! given outcome is settled by functions that take the outcome as an
//! argument.
//!
//! - [`point`]: positions on the grid, their order and their keys
//! - [`diagram`]: the partition as a diagram builder hands it over
//! - [`graph`]: the adjacency lists and their bounds
//! - [`elevation`]: the fixed-point rules of wear and of stopping
//! - [`fill`]: one fill from one seed, and what its log tells
//! - [`frontier`]: the bookkeeping that proves the order of a fill
//! - [`seeds`]: choosing seeds from bands of the sites
//! - [`plates`]: drift vectors and their placeholder
//! - [`heightmap`]: the map itself
//! - [`mesh`]: triangle fans for drawing the cells
//! - [`random`]: the one door to the generator

pub mod diagram;
pub mod elevation;
pub mod fill;
pub mod frontier;
pub mod graph;
pub mod heightmap;
pub mod mesh;
pub mod plates;
pub mod point;
pub mod random;
pub mod seeds;

pub use diagram::{Cell, Diagram};
pub use fill::Claim;
pub use heightmap::{BuildError, Heightmap};
pub use plates::PlateVector;
pub use point::Point;
