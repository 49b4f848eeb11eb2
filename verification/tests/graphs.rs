use terrain_heightmap::graph::{links_in_bounds, list_in_bounds};

#[test]
fn list_in_bounds_takes_cells_below_the_count() {
    assert!(list_in_bounds(&vec![0, 2, 1], 3));
    assert!(list_in_bounds(&vec![], 0));
    assert!(!list_in_bounds(&vec![0, 3], 3));
}

#[test]
fn links_in_bounds_takes_a_ring() {
    let ring: Vec<Vec<usize>> = vec![vec![2, 1], vec![0, 2], vec![1, 0]];
    assert!(links_in_bounds(&ring));
}

#[test]
fn links_in_bounds_takes_the_empty_graph() {
    let empty: Vec<Vec<usize>> = vec![];
    assert!(links_in_bounds(&empty));
}

#[test]
fn links_in_bounds_refuses_a_stray_neighbour() {
    let stray: Vec<Vec<usize>> = vec![vec![1], vec![0, 2]];
    assert!(!links_in_bounds(&stray));
}

#[test]
fn links_in_bounds_does_not_ask_for_symmetry() {
    let one_way: Vec<Vec<usize>> = vec![vec![1], vec![]];
    assert!(links_in_bounds(&one_way));
}
