//! Drift vectors of the plates.
//!
//! Each seed carries a vector with three axes, each a whole number of
//! millionths between minus one and one.  A map built without vectors holds
//! zero vectors as placeholders until vectors are drawn for it.

use crate::elevation::UNIT;
use crate::random::draw_between;
use rand::rngs::StdRng;
use vstd::prelude::*;

verus! {

/// The drift of one plate, in millionths along each axis.
#[derive(Clone, Copy, Debug, PartialEq, Eq, Structural)]
pub struct PlateVector {
    pub x: i32,
    pub y: i32,
    pub z: i32,
}

/// The largest size of an axis of a drawn vector: one whole.
pub const AXIS_LIMIT: i32 = 1_000_000;

/// The zero vector.
pub open spec fn zero_vector() -> PlateVector {
    PlateVector { x: 0, y: 0, z: 0 }
}

/// Every axis of the vector lies between minus one and one, ends included.
pub open spec fn in_cube(v: PlateVector) -> bool {
    &&& -AXIS_LIMIT <= v.x <= AXIS_LIMIT
    &&& -AXIS_LIMIT <= v.y <= AXIS_LIMIT
    &&& -AXIS_LIMIT <= v.z <= AXIS_LIMIT
}

/// Every vector of the sequence is the zero vector.
pub open spec fn all_zero(vectors: Seq<PlateVector>) -> bool {
    forall|k: int| 0 <= k < vectors.len() ==> #[trigger] vectors[k] == zero_vector()
}

/// The vectors are the placeholder for `count` seeds: as many zero vectors.
pub open spec fn is_placeholder(vectors: Seq<PlateVector>, count: nat) -> bool {
    vectors.len() == count && all_zero(vectors)
}

impl PlateVector {
    /// The vector with the given axes.
    pub fn new(x: i32, y: i32, z: i32) -> (v: PlateVector)
        ensures
            v == (PlateVector { x, y, z }),
    {
        PlateVector { x, y, z }
    }

    /// Whether this is the zero vector.
    pub fn is_zero(&self) -> (zero: bool)
        ensures
            zero == (*self == zero_vector()),
    {
        self.x == 0 && self.y == 0 && self.z == 0
    }
}

/// The placeholder for `count` seeds.
pub fn placeholder(count: usize) -> (vectors: Vec<PlateVector>)
    ensures
        is_placeholder(vectors@, count as nat),
{
    let mut vectors: Vec<PlateVector> = Vec::new();
    let mut k: usize = 0;
    while k < count
        invariant
            k <= count,
            vectors@.len() == k,
            all_zero(vectors@),
        decreases count - k,
    {
        vectors.push(PlateVector { x: 0, y: 0, z: 0 });
        k += 1;
    }
    vectors
}

/// Whether the vectors are the placeholder for `count` seeds.
pub fn holds_placeholder(vectors: &Vec<PlateVector>, count: usize) -> (held: bool)
    ensures
        held == is_placeholder(vectors@, count as nat),
{
    if vectors.len() != count {
        return false;
    }
    let mut k: usize = 0;
    while k < vectors.len()
        invariant
            k <= vectors.len(),
            forall|j: int| 0 <= j < k ==> #[trigger] vectors@[j] == zero_vector(),
        decreases vectors.len() - k,
    {
        if !vectors[k].is_zero() {
            return false;
        }
        k += 1;
    }
    true
}

/// The axis that a draw stands for: the draw counts the millionths above
/// minus one.
pub fn axis_of(drawn: u64) -> (axis: i32)
    requires
        drawn <= 2 * UNIT,
    ensures
        axis == drawn - UNIT,
{
    (drawn as i64 - UNIT as i64) as i32
}

/// Draws one axis of a vector: a number of millionths between minus one and
/// one, ends included.
pub fn draw_axis(rng: &mut StdRng) -> (axis: i32)
    ensures
        -AXIS_LIMIT <= axis <= AXIS_LIMIT,
{
    let drawn: u64 = draw_between(rng, 0, 2 * UNIT + 1);
    axis_of(drawn)
}

/// Draws a vector for each of `count` seeds, each axis on its own.
pub fn draw_vectors(count: usize, rng: &mut StdRng) -> (vectors: Vec<PlateVector>)
    ensures
        vectors@.len() == count,
        forall|k: int| 0 <= k < count ==> in_cube(#[trigger] vectors@[k]),
{
    let mut vectors: Vec<PlateVector> = Vec::new();
    let mut k: usize = 0;
    while k < count
        invariant
            k <= count,
            vectors@.len() == k,
            forall|j: int| 0 <= j < k ==> in_cube(#[trigger] vectors@[j]),
        decreases count - k,
    {
        let x: i32 = draw_axis(rng);
        let y: i32 = draw_axis(rng);
        let z: i32 = draw_axis(rng);
        vectors.push(PlateVector { x, y, z });
        k += 1;
    }
    vectors
}

} // verus!
