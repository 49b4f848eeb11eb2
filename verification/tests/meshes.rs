use terrain_heightmap::mesh::fan_indices;

#[test]
fn fan_over_a_square_cell() {
    assert_eq!(fan_indices(5), vec![0, 1, 2, 0, 2, 3, 0, 3, 4, 0, 4, 1]);
}

#[test]
fn fan_over_a_triangular_cell() {
    assert_eq!(fan_indices(4), vec![0, 1, 2, 0, 2, 3, 0, 3, 1]);
}

#[test]
fn fan_over_two_corners() {
    assert_eq!(fan_indices(3), vec![0, 1, 2, 0, 2, 1]);
}

#[test]
fn fan_over_one_corner() {
    assert_eq!(fan_indices(2), vec![0, 1, 1]);
}

#[test]
fn fan_over_no_corner() {
    assert_eq!(fan_indices(1), vec![0, 0, 1]);
}

#[test]
fn fan_has_a_triangle_for_each_corner() {
    let corners: usize = 40;
    let indices = fan_indices(corners + 1);
    assert_eq!(indices.len(), 3 * corners);
    for t in 0..corners {
        assert_eq!(indices[3 * t], 0);
        assert_eq!(indices[3 * t + 1] as usize, t + 1);
        if t + 1 < corners {
            assert_eq!(indices[3 * t + 2] as usize, t + 2);
        } else {
            assert_eq!(indices[3 * t + 2], 1);
        }
    }
}
