//! The partition of the plane that a map is built on.
//!
//! A diagram lists, index by index, the site of each cell, the polygon that
//! bounds it, and the cells next to it, and carries the triangulation that
//! the partition was derived from.  The triangulation is kept as a handle: it
//! is handed to the map as it came and never looked into.

use crate::graph::{graph_of, in_bounds};
use crate::point::Point;
use voronator::delaunator::Triangulation;
use vstd::prelude::*;

verus! {

/// The triangulation of the `voronator` crate that a diagram was derived
/// from.  It is carried along unread.
#[verifier::external_type_specification]
#[verifier::external_body]
pub struct ExTriangulation(Triangulation);

/// One cell of the partition: the corners of its boundary, in order, the last
/// joined to the first.
#[derive(Debug, PartialEq, Eq, Hash)]
pub struct Cell {
    pub points: Vec<Point>,
}

impl View for Cell {
    type V = Seq<Point>;

    open spec fn view(&self) -> Seq<Point> {
        self.points@
    }
}

impl Clone for Cell {
    /// A cell with the same boundary.
    fn clone(&self) -> (copy: Cell)
        ensures
            copy@ == self@,
    {
        let mut points: Vec<Point> = Vec::new();
        let mut k: usize = 0;
        while k < self.points.len()
            invariant
                k <= self.points.len(),
                points@ == self.points@.take(k as int),
            decreases self.points.len() - k,
        {
            points.push(self.points[k]);
            k += 1;
            assert(points@ =~= self.points@.take(k as int));
        }
        assert(self.points@.take(k as int) =~= self.points@);
        Cell { points }
    }
}

impl Cell {
    /// The cell bounded by the given corners.
    pub fn from_points(points: Vec<Point>) -> (cell: Cell)
        ensures
            cell@ == points@,
    {
        Cell { points }
    }

    /// The corners of the boundary.
    pub fn points(&self) -> (points: &Vec<Point>)
        ensures
            points@ == self@,
    {
        &self.points
    }

    /// Whether two cells have the same boundary, corner by corner.
    pub fn same_as(&self, other: &Cell) -> (same: bool)
        ensures
            same == (self@ == other@),
    {
        if self.points.len() != other.points.len() {
            return false;
        }
        let mut k: usize = 0;
        while k < self.points.len()
            invariant
                k <= self.points.len(),
                self.points.len() == other.points.len(),
                forall|j: int| 0 <= j < k ==> self@[j] == other@[j],
            decreases self.points.len() - k,
        {
            if self.points[k] != other.points[k] {
                return false;
            }
            k += 1;
        }
        assert(self@ =~= other@);
        true
    }
}

/// A partition of the plane into cells, as a diagram builder hands it over.
pub struct Diagram {
    /// The site of each cell.
    pub sites: Vec<Point>,
    /// The triangulation that the partition was derived from.
    pub delaunay: Triangulation,
    /// The boundary of each cell.
    pub cells: Vec<Cell>,
    /// For each cell, the cells that share an edge with it.
    pub neighbors: Vec<Vec<usize>>,
}

impl Diagram {
    /// The three lists have one entry for each cell.
    pub open spec fn is_aligned(&self) -> bool {
        &&& self.cells@.len() == self.sites@.len()
        &&& self.neighbors@.len() == self.sites@.len()
    }

    /// The neighbour lists name cells of the diagram only.
    pub open spec fn is_linked(&self) -> bool {
        in_bounds(graph_of(self.neighbors@))
    }
}

} // verus!
