//! The adjacency graph of the cells.
//!
//! Cell `i` has the neighbours listed at place `i`.  The lists come from the
//! diagram as they are; the one thing asked of them is that they name cells
//! that exist.

use vstd::prelude::*;

verus! {

/// The adjacency lists as plain sequences.
pub open spec fn graph_of(neighbors: Seq<Vec<usize>>) -> Seq<Seq<usize>> {
    Seq::new(neighbors.len(), |i: int| neighbors[i]@)
}

/// Every neighbour named in the graph is a cell of the graph.
pub open spec fn in_bounds(graph: Seq<Seq<usize>>) -> bool {
    forall|i: int, j: int|
        0 <= i < graph.len() && 0 <= j < graph[i].len() ==> #[trigger] graph[i][j] < graph.len()
}

/// Every neighbour in the list is below `count`.
pub open spec fn all_below(cells: Seq<usize>, count: nat) -> bool {
    forall|j: int| 0 <= j < cells.len() ==> #[trigger] cells[j] < count
}

/// Whether every neighbour in the list names one of `count` cells.
pub fn list_in_bounds(cells: &Vec<usize>, count: usize) -> (ok: bool)
    ensures
        ok == all_below(cells@, count as nat),
{
    let mut j: usize = 0;
    while j < cells.len()
        invariant
            j <= cells.len(),
            forall|m: int| 0 <= m < j ==> #[trigger] cells@[m] < count,
        decreases cells.len() - j,
    {
        if cells[j] >= count {
            return false;
        }
        j += 1;
    }
    true
}

/// Whether every neighbour named in the lists is a cell of the graph.
pub fn links_in_bounds(neighbors: &Vec<Vec<usize>>) -> (ok: bool)
    ensures
        ok == in_bounds(graph_of(neighbors@)),
{
    let ghost graph = graph_of(neighbors@);
    let count: usize = neighbors.len();
    let mut i: usize = 0;
    while i < count
        invariant
            i <= count,
            count == neighbors.len(),
            graph == graph_of(neighbors@),
            forall|k: int| 0 <= k < i ==> all_below(#[trigger] graph[k], count as nat),
        decreases count - i,
    {
        if !list_in_bounds(&neighbors[i], count) {
            proof {
                let row = graph[i as int];
                let j = choose|j: int| 0 <= j < row.len() && !(#[trigger] row[j] < count);
                assert(!(graph[i as int][j] < graph.len()));
            }
            return false;
        }
        i += 1;
    }
    proof {
        assert forall|k: int, j: int| 0 <= k < graph.len() && 0 <= j < graph[k].len() implies #[trigger] graph[k][j]
            < graph.len() by {
            assert(all_below(graph[k], count as nat));
        }
    }
    true
}

} // verus!
