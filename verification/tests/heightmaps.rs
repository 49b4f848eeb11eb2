use rand::rngs::StdRng;
use rand::SeedableRng;
use terrain_heightmap::diagram::{Cell, Diagram};
use terrain_heightmap::heightmap::{
    find_site, index_sites, level_ground, only_sites, BuildError, Heightmap,
};
use terrain_heightmap::plates::{holds_placeholder, PlateVector};
use terrain_heightmap::point::Point;
use voronator::delaunator::Triangulation;

fn no_triangles() -> Triangulation {
    Triangulation {
        triangles: vec![],
        halfedges: vec![],
        hull: vec![],
        inedges: vec![],
        outedges: vec![],
    }
}

fn site_at(i: usize) -> Point {
    Point::from_xy(100 * i as i64, -3 * i as i64)
}

fn square_around(p: Point) -> Cell {
    Cell::from_points(vec![
        Point::from_xy(p.x() - 1, p.y() - 1),
        Point::from_xy(p.x() + 1, p.y() - 1),
        Point::from_xy(p.x() + 1, p.y() + 1),
        Point::from_xy(p.x() - 1, p.y() + 1),
    ])
}

/// A diagram of `count` cells in a ring, each next to the one before it and
/// the one after it.
fn ring_diagram(count: usize) -> Diagram {
    let sites: Vec<Point> = (0..count).map(site_at).collect();
    let cells: Vec<Cell> = sites.iter().map(|p| square_around(*p)).collect();
    let neighbors: Vec<Vec<usize>> = (0..count)
        .map(|i| if count == 1 { vec![] } else { vec![(i + count - 1) % count, (i + 1) % count] })
        .collect();
    Diagram { sites, delaunay: no_triangles(), cells, neighbors }
}

fn build(
    diagram: Diagram,
    seeds: Option<Vec<Point>>,
    vectors: Option<Vec<PlateVector>>,
) -> Result<Heightmap, BuildError> {
    let mut rng = StdRng::seed_from_u64(1);
    Heightmap::new(diagram, seeds, vectors, &mut rng)
}

#[test]
fn new_map_has_one_entry_for_each_cell() {
    for count in [5usize, 6, 17, 100] {
        let map = build(ring_diagram(count), None, None).unwrap();
        assert_eq!(map.heights.len(), count);
        assert_eq!(map.cells.len(), count);
        assert_eq!(map.sites.len(), count);
        assert_eq!(map.cell_neighbors.len(), count);
        assert_eq!(map.sites_hashmap.len(), count);
        assert_eq!(map.seed_points.len(), 5);
        assert_eq!(map.plate_vectors.len(), 5);
    }
}

#[test]
fn new_map_keeps_the_diagram() {
    let diagram = ring_diagram(8);
    let sites = diagram.sites.clone();
    let cells = diagram.cells.clone();
    let neighbors = diagram.neighbors.clone();
    let mut delaunay = no_triangles();
    delaunay.triangles = vec![0, 1, 2];
    delaunay.hull = vec![2, 1, 0];
    let diagram = Diagram { delaunay: delaunay.clone(), ..diagram };
    let map = build(diagram, None, None).unwrap();
    assert_eq!(map.sites, sites);
    assert_eq!(map.cells, cells);
    assert_eq!(map.cell_neighbors, neighbors);
    assert_eq!(map.triangulation, delaunay);
}

#[test]
fn new_map_is_level_ground() {
    let map = build(ring_diagram(12), None, None).unwrap();
    assert_eq!(map.heights, vec![0i128; 12]);
    assert_eq!(level_ground(3), vec![0i128; 3]);
    assert!(level_ground(0).is_empty());
}

#[test]
fn chosen_seeds_are_sites_and_resolve() {
    for seed in 0..50u64 {
        let mut rng = StdRng::seed_from_u64(seed);
        let map = Heightmap::new(ring_diagram(23), None, None, &mut rng).unwrap();
        assert_eq!(map.seed_points.len(), 5);
        for (band, point) in map.seed_points.iter().enumerate() {
            assert!(map.sites.contains(point));
            let cell = map.site_index(point).unwrap();
            assert_eq!(map.sites[cell], *point);
            assert!(4 * band <= cell && cell < 4 * (band + 1));
        }
    }
}

#[test]
fn five_sites_are_enough_to_choose_seeds() {
    let map = build(ring_diagram(5), None, None).unwrap();
    assert_eq!(map.seed_points, map.sites);
}

#[test]
fn too_few_sites_to_choose_seeds() {
    for count in 0..5usize {
        assert_eq!(build(ring_diagram(count), None, None).err(), Some(BuildError::TooFewSites));
    }
}

#[test]
fn given_seeds_are_kept_in_order() {
    let seeds = vec![site_at(2), site_at(0)];
    let map = build(ring_diagram(3), Some(seeds.clone()), None).unwrap();
    assert_eq!(map.seed_points, seeds);
    assert_eq!(map.plate_vectors, vec![PlateVector::new(0, 0, 0); 2]);
}

#[test]
fn no_seeds_may_be_given() {
    let map = build(ring_diagram(2), Some(vec![]), None).unwrap();
    assert!(map.seed_points.is_empty());
    assert!(map.plate_vectors.is_empty());
}

#[test]
fn unknown_seed_is_refused() {
    let seeds = vec![site_at(1), Point::from_xy(1, 1)];
    assert_eq!(build(ring_diagram(3), Some(seeds), None).err(), Some(BuildError::UnknownSeed));
}

#[test]
fn seed_a_grid_step_off_a_site_is_refused() {
    let near = Point::from_xy(site_at(1).x() + 1, site_at(1).y());
    assert_eq!(build(ring_diagram(3), Some(vec![near]), None).err(), Some(BuildError::UnknownSeed));
}

#[test]
fn misaligned_diagram_is_refused() {
    let mut short_cells = ring_diagram(6);
    short_cells.cells.pop();
    assert_eq!(build(short_cells, None, None).err(), Some(BuildError::Misaligned));
    let mut long_neighbors = ring_diagram(6);
    long_neighbors.neighbors.push(vec![]);
    assert_eq!(build(long_neighbors, None, None).err(), Some(BuildError::Misaligned));
}

#[test]
fn stray_neighbour_is_refused() {
    let mut diagram = ring_diagram(6);
    diagram.neighbors[4].push(6);
    assert_eq!(build(diagram, None, None).err(), Some(BuildError::StrayNeighbor));
}

#[test]
fn diagram_is_looked_at_before_seeds_and_vectors() {
    let mut diagram = ring_diagram(3);
    diagram.neighbors[0].push(9);
    diagram.cells.pop();
    let seeds = Some(vec![Point::from_xy(1, 1)]);
    let vectors = Some(vec![]);
    assert_eq!(build(diagram, seeds, vectors).err(), Some(BuildError::Misaligned));

    let mut diagram = ring_diagram(3);
    diagram.neighbors[0].push(9);
    assert_eq!(build(diagram, None, None).err(), Some(BuildError::StrayNeighbor));

    let seeds = Some(vec![Point::from_xy(1, 1)]);
    let vectors = Some(vec![]);
    assert_eq!(build(ring_diagram(3), seeds, vectors).err(), Some(BuildError::UnknownSeed));
}

#[test]
fn given_vectors_are_kept() {
    let vectors = vec![PlateVector::new(5, -5, 0), PlateVector::new(0, 0, 0)];
    let seeds = vec![site_at(0), site_at(1)];
    let map = build(ring_diagram(4), Some(seeds), Some(vectors.clone())).unwrap();
    assert_eq!(map.plate_vectors, vectors);
}

#[test]
fn vectors_must_be_as_many_as_seeds() {
    let seeds = vec![site_at(0), site_at(1)];
    let vectors = vec![PlateVector::new(1, 1, 1)];
    assert_eq!(
        build(ring_diagram(4), Some(seeds), Some(vectors)).err(),
        Some(BuildError::VectorCount)
    );
    let four = vec![PlateVector::new(1, 1, 1); 4];
    assert_eq!(build(ring_diagram(10), None, Some(four)).err(), Some(BuildError::VectorCount));
    let five = vec![PlateVector::new(1, 1, 1); 5];
    assert!(build(ring_diagram(10), None, Some(five)).is_ok());
}

#[test]
fn site_index_finds_each_site() {
    let map = build(ring_diagram(9), None, None).unwrap();
    for i in 0..9 {
        assert_eq!(map.site_index(&site_at(i)), Some(i));
    }
    assert_eq!(map.site_index(&site_at(9)), None);
    assert_eq!(map.site_index(&Point::from_xy(0, 1)), None);
}

#[test]
fn site_index_gives_the_last_of_equal_sites() {
    let mut diagram = ring_diagram(6);
    diagram.sites[4] = diagram.sites[1];
    let map = build(diagram, None, None).unwrap();
    assert_eq!(map.site_index(&site_at(1)), Some(4));
    assert_eq!(map.site_index(&site_at(4)), None);
    assert_eq!(map.sites_hashmap.len(), 5);
}

#[test]
fn cell_index_finds_each_cell() {
    let mut diagram = ring_diagram(7);
    diagram.cells[5] = diagram.cells[2].clone();
    let map = build(diagram, None, None).unwrap();
    assert_eq!(map.cell_index(&square_around(site_at(0))), Some(0));
    assert_eq!(map.cell_index(&square_around(site_at(2))), Some(5));
    assert_eq!(map.cell_index(&square_around(site_at(6))), Some(6));
    assert_eq!(map.cell_index(&square_around(site_at(5))), None);
    assert_eq!(map.cell_index(&Cell::from_points(vec![])), None);
}

#[test]
fn index_sites_and_find_site_agree() {
    let sites: Vec<Point> = (0..20).map(site_at).collect();
    let table = index_sites(&sites);
    assert_eq!(table.len(), 20);
    for (i, site) in sites.iter().enumerate() {
        assert_eq!(table.get(&site.key()), Some(&i));
        assert_eq!(find_site(&table, &sites, site), Some(i));
    }
    assert_eq!(find_site(&table, &sites, &Point::from_xy(-1, -1)), None);
    assert!(only_sites(&table, &sites, &vec![site_at(3), site_at(3), site_at(19)]));
    assert!(only_sites(&table, &sites, &vec![]));
    assert!(!only_sites(&table, &sites, &vec![site_at(3), site_at(20)]));
}

#[test]
fn lone_cell_map_gets_the_seed_height() {
    for seed in 0..20u64 {
        let mut rng = StdRng::seed_from_u64(seed);
        let mut map =
            Heightmap::new(ring_diagram(1), Some(vec![site_at(0)]), None, &mut rng).unwrap();
        map.generate_heights(&mut rng);
        assert_eq!(map.heights, vec![900_000]);
    }
}

#[test]
fn generate_heights_keeps_the_lists_aligned() {
    for seed in 0..30u64 {
        let mut rng = StdRng::seed_from_u64(seed);
        let mut map = Heightmap::new(ring_diagram(40), None, None, &mut rng).unwrap();
        let sites = map.sites.clone();
        let seeds = map.seed_points.clone();
        map.generate_heights(&mut rng);
        assert_eq!(map.heights.len(), 40);
        assert_eq!(map.cells.len(), 40);
        assert_eq!(map.sites.len(), 40);
        assert_eq!(map.cell_neighbors.len(), 40);
        assert_eq!(map.sites, sites);
        assert_eq!(map.seed_points, seeds);
        assert_eq!(map.plate_vectors.len(), 5);
    }
}

#[test]
fn generate_heights_claims_every_seed() {
    for seed in 0..30u64 {
        let mut rng = StdRng::seed_from_u64(seed);
        let mut map = Heightmap::new(ring_diagram(60), None, None, &mut rng).unwrap();
        map.generate_heights(&mut rng);
        let last = map.site_index(&map.seed_points[4]).unwrap();
        assert_eq!(map.heights[last], 900_000);
        for point in &map.seed_points {
            let cell = map.site_index(point).unwrap();
            assert!(map.heights[cell] > 0 && map.heights[cell] <= 900_000);
            // The neighbours of a seed are claimed with it.
            for next in &map.cell_neighbors[cell] {
                assert!(map.heights[*next] != 0);
            }
        }
        for h in &map.heights {
            assert!(*h <= 900_000);
        }
    }
}

#[test]
fn later_fill_writes_over_earlier_fill() {
    // Two seeds on a ring of two cells: each fill claims both cells, and the
    // second one stands.
    let mut rng = StdRng::seed_from_u64(3);
    let seeds = vec![site_at(0), site_at(1)];
    let mut map = Heightmap::new(ring_diagram(2), Some(seeds), None, &mut rng).unwrap();
    map.generate_heights(&mut rng);
    assert_eq!(map.heights[1], 900_000);
    assert!(map.heights[0] <= 900_000 && map.heights[0] > 800_000);
}

#[test]
fn generate_heights_without_seeds_changes_no_elevation() {
    let mut rng = StdRng::seed_from_u64(3);
    let mut map = Heightmap::new(ring_diagram(4), Some(vec![]), None, &mut rng).unwrap();
    map.generate_heights(&mut rng);
    assert_eq!(map.heights, vec![0i128; 4]);
    assert!(map.plate_vectors.is_empty());
}

#[test]
fn generate_heights_draws_vectors_for_a_placeholder() {
    for seed in 0..30u64 {
        let mut rng = StdRng::seed_from_u64(seed);
        let mut map = Heightmap::new(ring_diagram(10), None, None, &mut rng).unwrap();
        assert!(holds_placeholder(&map.plate_vectors, 5));
        map.generate_heights(&mut rng);
        assert_eq!(map.plate_vectors.len(), 5);
        assert!(!holds_placeholder(&map.plate_vectors, 5));
        for v in &map.plate_vectors {
            assert!(-1_000_000 <= v.x && v.x <= 1_000_000);
            assert!(-1_000_000 <= v.y && v.y <= 1_000_000);
            assert!(-1_000_000 <= v.z && v.z <= 1_000_000);
        }
    }
}

#[test]
fn generate_heights_leaves_given_vectors_alone() {
    let mut rng = StdRng::seed_from_u64(8);
    let mut given = vec![PlateVector::new(0, 0, 0); 5];
    given[2] = PlateVector::new(0, -1, 0);
    let mut map = Heightmap::new(ring_diagram(10), None, Some(given.clone()), &mut rng).unwrap();
    map.generate_heights(&mut rng);
    assert_eq!(map.plate_vectors, given);
    map.generate_heights(&mut rng);
    assert_eq!(map.plate_vectors, given);
}

#[test]
fn drawn_vectors_are_not_drawn_again() {
    let mut rng = StdRng::seed_from_u64(9);
    let mut map = Heightmap::new(ring_diagram(10), None, None, &mut rng).unwrap();
    assert!(map.ensure_plate_vectors(&mut rng));
    let drawn = map.plate_vectors.clone();
    assert!(!map.ensure_plate_vectors(&mut rng));
    assert_eq!(map.plate_vectors, drawn);
    map.generate_heights(&mut rng);
    assert_eq!(map.plate_vectors, drawn);
}

#[test]
fn generate_plate_vectors_draws_whatever_is_there() {
    let mut rng = StdRng::seed_from_u64(10);
    let given = vec![PlateVector::new(7, 7, 7); 5];
    let mut map = Heightmap::new(ring_diagram(10), None, Some(given.clone()), &mut rng).unwrap();
    let heights = map.heights.clone();
    map.generate_plate_vectors(&mut rng);
    assert_eq!(map.plate_vectors.len(), 5);
    assert_ne!(map.plate_vectors, given);
    assert_eq!(map.heights, heights);
    for v in &map.plate_vectors {
        assert!(-1_000_000 <= v.x && v.x <= 1_000_000);
        assert!(-1_000_000 <= v.y && v.y <= 1_000_000);
        assert!(-1_000_000 <= v.z && v.z <= 1_000_000);
    }
}

#[test]
fn maps_are_replayed_by_the_same_generator() {
    let mut first_rng = StdRng::seed_from_u64(77);
    let mut second_rng = StdRng::seed_from_u64(77);
    let mut first = Heightmap::new(ring_diagram(50), None, None, &mut first_rng).unwrap();
    let mut second = Heightmap::new(ring_diagram(50), None, None, &mut second_rng).unwrap();
    first.generate_heights(&mut first_rng);
    second.generate_heights(&mut second_rng);
    assert_eq!(first.seed_points, second.seed_points);
    assert_eq!(first.plate_vectors, second.plate_vectors);
    assert_eq!(first.heights, second.heights);
}
