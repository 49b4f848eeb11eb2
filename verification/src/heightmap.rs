//! The map of elevations over a diagram.
//!
//! A [`Heightmap`] owns the partition, one elevation for each cell, the seed
//! points that the fills start from, and one drift vector for each seed.  It
//! is built once from a diagram; after that only the elevations and the drift
//! vectors change.

use crate::diagram::{Cell, Diagram};
use crate::elevation::SEED_HEIGHT;
use crate::fill::{
    fill_from, is_fill, lemma_written_length, lemma_written_values, written, Claim,
};
use crate::graph::{graph_of, in_bounds, links_in_bounds};
use crate::plates::{
    draw_vectors, holds_placeholder, in_cube, is_placeholder, placeholder, PlateVector,
};
use crate::point::{key_of, lemma_key_is_injective, Point};
use crate::seeds::{banded, lemma_banded_seeds_are_sites, pick_seeds, SEED_COUNT};
use rand::rngs::StdRng;
use std::collections::HashMap;
use voronator::delaunator::Triangulation;
use vstd::prelude::*;

verus! {

/// Why a map could not be built.
#[derive(Clone, Copy, Debug, PartialEq, Eq, Structural)]
pub enum BuildError {
    /// The diagram's lists of sites, cells and neighbours differ in length.
    Misaligned,
    /// A neighbour list names a cell that the diagram does not have.
    StrayNeighbor,
    /// Seeds were to be chosen, and the diagram has fewer than five sites.
    TooFewSites,
    /// One of the given seed points is not a site of the diagram.
    UnknownSeed,
    /// The number of given drift vectors differs from the number of seeds.
    VectorCount,
}

/// The map of elevations over a partition of the plane.
pub struct Heightmap {
    /// The triangulation that the partition was derived from, as it came.
    pub triangulation: Triangulation,
    /// The elevation of each cell, in millionths.
    pub heights: Vec<i128>,
    /// The site of each cell.
    pub sites: Vec<Point>,
    /// For the key of each site, the index of its cell.
    pub sites_hashmap: HashMap<u128, usize>,
    /// The boundary of each cell.
    pub cells: Vec<Cell>,
    /// For each cell, the indices of the cells next to it.
    pub cell_neighbors: Vec<Vec<usize>>,
    /// The sites that the fills start from.
    pub seed_points: Vec<Point>,
    /// The drift vector of each seed.
    pub plate_vectors: Vec<PlateVector>,
}

/// `place` is the last place at which `site` stands among `sites`.
pub open spec fn is_last_place(sites: Seq<Point>, site: Point, place: int) -> bool {
    &&& 0 <= place < sites.len()
    &&& sites[place] == site
    &&& forall|j: int| place < j < sites.len() ==> #[trigger] sites[j] != site
}

/// The last place at which `site` stands among `sites`, if it stands there.
pub open spec fn last_place(sites: Seq<Point>, site: Point) -> int {
    choose|place: int| is_last_place(sites, site, place)
}

/// `place` is the last place among `sites` of the site with the key `key`.
pub open spec fn filed_at(sites: Seq<Point>, key: u128, place: int) -> bool {
    &&& 0 <= place < sites.len()
    &&& key_of(sites[place]) == key
    &&& is_last_place(sites, sites[place], place)
}

/// The table files each site under its key, with the last place at which the
/// site stands, and files nothing else.
pub open spec fn indexes(table: Map<u128, usize>, sites: Seq<Point>) -> bool {
    &&& forall|i: int| 0 <= i < sites.len() ==> table.contains_key(key_of(#[trigger] sites[i]))
    &&& forall|key: u128| #[trigger]
        table.contains_key(key) ==> filed_at(sites, key, table[key] as int)
}

/// Every point of the list is one of the sites.
pub open spec fn all_are_sites(sites: Seq<Point>, points: Seq<Point>) -> bool {
    forall|k: int| 0 <= k < points.len() ==> sites.contains(#[trigger] points[k])
}

/// The elevations after the claims of each log have been written, log after
/// log, over `heights`.
pub open spec fn written_each(heights: Seq<i128>, logs: Seq<Seq<Claim>>) -> Seq<i128>
    decreases logs.len(),
{
    if logs.len() == 0 {
        heights
    } else {
        written(written_each(heights, logs.drop_last()), logs.last())
    }
}

/// The number of seeds that a map gets: as many as are given, or five.
pub open spec fn seed_count(seed_points: Option<Vec<Point>>) -> nat {
    match seed_points {
        Some(points) => points@.len(),
        None => SEED_COUNT as nat,
    }
}

/// The reason for which no map can be built from the arguments, if there is
/// one.  The diagram is looked at first, then the seeds, then the vectors.
pub open spec fn build_error(
    diagram: Diagram,
    seed_points: Option<Vec<Point>>,
    plate_vectors: Option<Vec<PlateVector>>,
) -> Option<BuildError> {
    if !diagram.is_aligned() {
        Some(BuildError::Misaligned)
    } else if !diagram.is_linked() {
        Some(BuildError::StrayNeighbor)
    } else if seed_points is None && diagram.sites@.len() < SEED_COUNT {
        Some(BuildError::TooFewSites)
    } else if seed_points is Some && !all_are_sites(diagram.sites@, seed_points->0@) {
        Some(BuildError::UnknownSeed)
    } else if plate_vectors is Some && plate_vectors->0@.len() != seed_count(seed_points) {
        Some(BuildError::VectorCount)
    } else {
        None
    }
}

/// A site stands last at one place only.
pub proof fn lemma_last_place_is_unique(sites: Seq<Point>, site: Point, a: int, b: int)
    requires
        is_last_place(sites, site, a),
        is_last_place(sites, site, b),
    ensures
        a == b,
{
}

/// A site that stands among the sites has a last place there.
pub proof fn lemma_site_has_last_place(sites: Seq<Point>, site: Point)
    requires
        sites.contains(site),
    ensures
        is_last_place(sites, site, last_place(sites, site)),
    decreases sites.len(),
{
    if sites.last() == site {
        assert(is_last_place(sites, site, sites.len() - 1));
    } else {
        let shorter = sites.drop_last();
        let i = choose|i: int| 0 <= i < sites.len() && sites[i] == site;
        assert(shorter[i] == site);
        lemma_site_has_last_place(shorter, site);
        let place = last_place(shorter, site);
        assert(sites[place] == shorter[place]);
        assert forall|j: int| place < j < sites.len() implies #[trigger] sites[j] != site by {
            if j < shorter.len() {
                assert(shorter[j] == sites[j]);
            }
        }
        assert(is_last_place(sites, site, place));
    }
}

/// Files every site under its key.
pub fn index_sites(sites: &Vec<Point>) -> (table: HashMap<u128, usize>)
    ensures
        indexes(table@, sites@),
{
    let mut table: HashMap<u128, usize> = HashMap::new();
    let mut i: usize = 0;
    while i < sites.len()
        invariant
            i <= sites.len(),
            indexes(table@, sites@.take(i as int)),
        decreases sites.len() - i,
    {
        let ghost filed = table@;
        let ghost done = sites@.take(i as int);
        let ghost next = sites@.take(i + 1);
        let key: u128 = sites[i].key();
        table.insert(key, i);
        proof {
            assert forall|j: int| 0 <= j < next.len() implies table@.contains_key(
                key_of(#[trigger] next[j]),
            ) by {
                if j < i {
                    assert(done[j] == next[j]);
                }
            }
            assert forall|other: u128| #[trigger] table@.contains_key(other) implies filed_at(
                next,
                other,
                table@[other] as int,
            ) by {
                if other != key {
                    let place = filed[other] as int;
                    assert(filed.contains_key(other));
                    assert(filed_at(done, other, place));
                    assert(next[place] == done[place]);
                    assert forall|j: int| place < j < next.len() implies #[trigger] next[j]
                        != next[place] by {
                        if j < i {
                            assert(done[j] == next[j]);
                        }
                    }
                }
            }
        }
        i += 1;
    }
    assert(sites@.take(i as int) =~= sites@);
    table
}

/// Looks a point up among the sites: the index of the cell whose site it is,
/// the last one if several cells share the site.
pub fn find_site(table: &HashMap<u128, usize>, sites: &Vec<Point>, site: &Point) -> (found: Option<
    usize,
>)
    requires
        indexes(table@, sites@),
    ensures
        match found {
            Some(place) => is_last_place(sites@, *site, place as int),
            None => !sites@.contains(*site),
        },
{
    let key: u128 = site.key();
    match table.get(&key) {
        Some(place) => {
            proof {
                assert(table@.contains_key(key));
                assert(filed_at(sites@, key, *place as int));
                lemma_key_is_injective(sites@[*place as int], *site);
            }
            Some(*place)
        },
        None => {
            proof {
                if sites@.contains(*site) {
                    let i = choose|i: int| 0 <= i < sites@.len() && sites@[i] == *site;
                    assert(table@.contains_key(key_of(sites@[i])));
                }
            }
            None
        },
    }
}

/// Whether every point of the list is one of the sites.
pub fn only_sites(table: &HashMap<u128, usize>, sites: &Vec<Point>, points: &Vec<Point>) -> (ok:
    bool)
    requires
        indexes(table@, sites@),
    ensures
        ok == all_are_sites(sites@, points@),
{
    let mut k: usize = 0;
    while k < points.len()
        invariant
            k <= points.len(),
            indexes(table@, sites@),
            forall|j: int| 0 <= j < k ==> sites@.contains(#[trigger] points@[j]),
        decreases points.len() - k,
    {
        if find_site(table, sites, &points[k]).is_none() {
            return false;
        }
        k += 1;
    }
    true
}

/// Elevation zero for each of `count` cells.
pub fn level_ground(count: usize) -> (heights: Vec<i128>)
    ensures
        heights@ == Seq::new(count as nat, |i: int| 0i128),
{
    let mut heights: Vec<i128> = Vec::new();
    let mut i: usize = 0;
    while i < count
        invariant
            i <= count,
            heights@ == Seq::new(i as nat, |j: int| 0i128),
        decreases count - i,
    {
        heights.push(0);
        i += 1;
        assert(heights@ =~= Seq::new(i as nat, |j: int| 0i128));
    }
    heights
}

impl Heightmap {
    /// The invariant of a map: the four lists have one entry for each cell,
    /// the neighbour lists name cells of the map, the table files the sites,
    /// every seed point is a site, and each seed has its drift vector.
    pub open spec fn wf(&self) -> bool {
        &&& self.heights@.len() == self.sites@.len()
        &&& self.cells@.len() == self.sites@.len()
        &&& self.cell_neighbors@.len() == self.sites@.len()
        &&& in_bounds(graph_of(self.cell_neighbors@))
        &&& indexes(self.sites_hashmap@, self.sites@)
        &&& all_are_sites(self.sites@, self.seed_points@)
        &&& self.plate_vectors@.len() == self.seed_points@.len()
    }

    /// The adjacency graph of the cells.
    pub open spec fn graph(&self) -> Seq<Seq<usize>> {
        graph_of(self.cell_neighbors@)
    }

    /// The cell that the fill of the `k`-th seed starts from.
    pub open spec fn seed_cell(&self, k: int) -> int {
        last_place(self.sites@, self.seed_points@[k])
    }

    /// Everything but the elevations and the drift vectors is as in `other`.
    pub open spec fn same_ground(&self, other: &Heightmap) -> bool {
        &&& self.triangulation == other.triangulation
        &&& self.sites == other.sites
        &&& self.sites_hashmap == other.sites_hashmap
        &&& self.cells == other.cells
        &&& self.cell_neighbors == other.cell_neighbors
        &&& self.seed_points == other.seed_points
    }

    /// The logs are those of one fill for each seed, in the order of the
    /// seeds, each started from the cell of its seed.
    pub open spec fn fills_seeds(&self, logs: Seq<Seq<Claim>>) -> bool {
        &&& logs.len() == self.seed_points@.len()
        &&& forall|k: int|
            0 <= k < logs.len() ==> is_fill(self.graph(), self.seed_cell(k), #[trigger] logs[k])
    }

    /// The elevations `heights` are what the fills of the logs, one for each
    /// seed and one after another, make of the elevations of this map.
    pub open spec fn filled_to(&self, logs: Seq<Seq<Claim>>, heights: Seq<i128>) -> bool {
        &&& self.fills_seeds(logs)
        &&& heights == written_each(self.heights@, logs)
    }

    /// Builds the map over a diagram.
    ///
    /// The diagram must have one site, one cell and one neighbour list for
    /// each cell, and its neighbour lists must name cells that it has.  Seed
    /// points that are given must be sites of the diagram; where none are
    /// given, five are drawn, one from each of five bands of the sites, which
    /// takes five sites at least.  Drift vectors that are given must be as
    /// many as the seeds; where none are given, the map holds zero vectors in
    /// their place.  The diagram is handed over as it is: sites, cells,
    /// neighbours and triangulation are those of the diagram, index by index.
    /// Every elevation starts at zero.
    pub fn new(
        diagram: Diagram,
        seed_points: Option<Vec<Point>>,
        plate_vectors: Option<Vec<PlateVector>>,
        rng: &mut StdRng,
    ) -> (built: Result<Heightmap, BuildError>)
        ensures
            match built {
                Ok(map) => {
                    &&& build_error(diagram, seed_points, plate_vectors) is None
                    &&& map.wf()
                    &&& map.triangulation == diagram.delaunay
                    &&& map.sites == diagram.sites
                    &&& map.cells == diagram.cells
                    &&& map.cell_neighbors == diagram.neighbors
                    &&& map.heights@ == Seq::new(diagram.sites@.len(), |i: int| 0i128)
                    &&& match seed_points {
                        Some(points) => map.seed_points == points,
                        None => banded(map.sites@, map.seed_points@),
                    }
                    &&& match plate_vectors {
                        Some(vectors) => map.plate_vectors == vectors,
                        None => is_placeholder(map.plate_vectors@, map.seed_points@.len()),
                    }
                },
                Err(reason) => build_error(diagram, seed_points, plate_vectors) == Some(reason),
            },
    {
        let Diagram { sites, delaunay, cells, neighbors } = diagram;
        let count: usize = sites.len();
        if cells.len() != count || neighbors.len() != count {
            return Err(BuildError::Misaligned);
        }
        if !links_in_bounds(&neighbors) {
            return Err(BuildError::StrayNeighbor);
        }
        let table: HashMap<u128, usize> = index_sites(&sites);
        let seeds: Vec<Point> = match seed_points {
            Some(points) => {
                if !only_sites(&table, &sites, &points) {
                    return Err(BuildError::UnknownSeed);
                }
                points
            },
            None => {
                if count < SEED_COUNT {
                    return Err(BuildError::TooFewSites);
                }
                let drawn: Vec<Point> = pick_seeds(&sites, rng);
                proof {
                    lemma_banded_seeds_are_sites(sites@, drawn@);
                }
                drawn
            },
        };
        let vectors: Vec<PlateVector> = match plate_vectors {
            Some(given) => {
                if given.len() != seeds.len() {
                    return Err(BuildError::VectorCount);
                }
                given
            },
            None => placeholder(seeds.len()),
        };
        let heights: Vec<i128> = level_ground(count);
        Ok(
            Heightmap {
                triangulation: delaunay,
                heights,
                sites,
                sites_hashmap: table,
                cells,
                cell_neighbors: neighbors,
                seed_points: seeds,
                plate_vectors: vectors,
            },
        )
    }

    /// The index of the cell whose site is `site`: the last one if several
    /// cells share the site, none if no cell has it.
    pub fn site_index(&self, site: &Point) -> (found: Option<usize>)
        requires
            self.wf(),
        ensures
            match found {
                Some(place) => is_last_place(self.sites@, *site, place as int),
                None => !self.sites@.contains(*site),
            },
    {
        find_site(&self.sites_hashmap, &self.sites, site)
    }

    /// The index of the cell with the boundary of `cell`: the last one if
    /// several cells have that boundary, none if no cell has it.
    pub fn cell_index(&self, cell: &Cell) -> (found: Option<usize>)
        ensures
            match found {
                Some(place) => {
                    &&& place < self.cells@.len()
                    &&& self.cells@[place as int]@ == cell@
                    &&& forall|j: int|
                        place < j < self.cells@.len() ==> (#[trigger] self.cells@[j])@ != cell@
                },
                None => forall|j: int|
                    0 <= j < self.cells@.len() ==> (#[trigger] self.cells@[j])@ != cell@,
            },
    {
        let mut i: usize = self.cells.len();
        while i > 0
            invariant
                i <= self.cells@.len(),
                forall|j: int| i <= j < self.cells@.len() ==> (#[trigger] self.cells@[j])@ != cell@,
            decreases i,
        {
            i -= 1;
            if self.cells[i].same_as(cell) {
                return Some(i);
            }
        }
        None
    }

    /// Draws a fresh drift vector for every seed, each axis between minus one
    /// and one.
    pub fn generate_plate_vectors(&mut self, rng: &mut StdRng)
        ensures
            final(self).same_ground(old(self)),
            final(self).heights == old(self).heights,
            final(self).plate_vectors@.len() == old(self).seed_points@.len(),
            forall|k: int|
                0 <= k < final(self).plate_vectors@.len() ==> in_cube(
                    #[trigger] final(self).plate_vectors@[k],
                ),
    {
        self.plate_vectors = draw_vectors(self.seed_points.len(), rng);
    }

    /// Draws drift vectors if the map holds only the placeholder for them,
    /// and says whether it did.  Vectors that are not the placeholder are
    /// left as they are.
    pub fn ensure_plate_vectors(&mut self, rng: &mut StdRng) -> (drawn: bool)
        ensures
            final(self).same_ground(old(self)),
            final(self).heights == old(self).heights,
            drawn == is_placeholder(old(self).plate_vectors@, old(self).seed_points@.len()),
            !drawn ==> final(self).plate_vectors == old(self).plate_vectors,
            drawn ==> final(self).plate_vectors@.len() == old(self).seed_points@.len(),
            drawn ==> forall|k: int|
                0 <= k < final(self).plate_vectors@.len() ==> in_cube(
                    #[trigger] final(self).plate_vectors@[k],
                ),
    {
        if holds_placeholder(&self.plate_vectors, self.seed_points.len()) {
            self.generate_plate_vectors(rng);
            true
        } else {
            false
        }
    }

    /// Gives the cells their elevations: one fill for each seed, in the order
    /// of the seeds, each over what the fills before it have written.
    ///
    /// Before the fills, drift vectors are drawn if the map holds only the
    /// placeholder for them.  The fills do not read the vectors.
    pub fn generate_heights(&mut self, rng: &mut StdRng)
        requires
            old(self).wf(),
        ensures
            final(self).wf(),
            final(self).same_ground(old(self)),
            is_placeholder(old(self).plate_vectors@, old(self).seed_points@.len()) ==> forall|
                k: int,
            |
                0 <= k < final(self).plate_vectors@.len() ==> in_cube(
                    #[trigger] final(self).plate_vectors@[k],
                ),
            !is_placeholder(old(self).plate_vectors@, old(self).seed_points@.len())
                ==> final(self).plate_vectors == old(self).plate_vectors,
            exists|logs: Seq<Seq<Claim>>| #[trigger] old(self).filled_to(logs, final(self).heights@),
    {
        let ghost start = *self;
        self.ensure_plate_vectors(rng);
        let ghost vectors = self.plate_vectors;
        let ghost mut logs: Seq<Seq<Claim>> = Seq::empty();
        let count: usize = self.seed_points.len();
        let mut k: usize = 0;
        while k < count
            invariant
                k <= count,
                count == self.seed_points@.len(),
                self.wf(),
                self.same_ground(&start),
                self.plate_vectors == vectors,
                logs.len() == k,
                forall|j: int|
                    0 <= j < k ==> is_fill(start.graph(), start.seed_cell(j), #[trigger] logs[j]),
                self.heights@ == written_each(start.heights@, logs),
            decreases count - k,
        {
            let seed: Point = self.seed_points[k];
            let found: Option<usize> = find_site(&self.sites_hashmap, &self.sites, &seed);
            if let Some(cell) = found {
                let ghost so_far = logs;
                let log: Vec<Claim> = fill_from(&self.cell_neighbors, &mut self.heights, cell, rng);
                proof {
                    lemma_site_has_last_place(self.sites@, seed);
                    lemma_last_place_is_unique(
                        self.sites@,
                        seed,
                        cell as int,
                        last_place(self.sites@, seed),
                    );
                    logs = logs.push(log@);
                    assert(logs.drop_last() =~= so_far);
                    assert forall|j: int| 0 <= j < k + 1 implies is_fill(
                        start.graph(),
                        start.seed_cell(j),
                        #[trigger] logs[j],
                    ) by {
                        if j < k {
                            assert(logs[j] == so_far[j]);
                        }
                    }
                    lemma_written_keeps_length(start.heights@, so_far);
                    lemma_written_length(written_each(start.heights@, so_far), log@);
                }
            } else {
                proof {
                    assert(self.sites@.contains(self.seed_points@[k as int]));
                    assert(false);
                }
            }
            k += 1;
        }
        proof {
            assert(start.filled_to(logs, self.heights@));
        }
    }
}

/// The four lists of a map have one entry for each cell.
pub proof fn lemma_lists_are_aligned(map: Heightmap)
    requires
        map.wf(),
    ensures
        map.heights@.len() == map.cells@.len(),
        map.cells@.len() == map.sites@.len(),
        map.sites@.len() == map.cell_neighbors@.len(),
{
}

/// Every seed of a map resolves to a cell: its point is a site, the table
/// holds its key, and the table gives the cell that its fill starts from.
pub proof fn lemma_seeds_resolve(map: Heightmap, k: int)
    requires
        map.wf(),
        0 <= k < map.seed_points@.len(),
    ensures
        map.sites@.contains(map.seed_points@[k]),
        0 <= map.seed_cell(k) < map.sites@.len(),
        map.sites@[map.seed_cell(k)] == map.seed_points@[k],
        map.sites_hashmap@.contains_key(key_of(map.seed_points@[k])),
        map.sites_hashmap@[key_of(map.seed_points@[k])] == map.seed_cell(k),
{
    let seed = map.seed_points@[k];
    let key = key_of(seed);
    lemma_site_has_last_place(map.sites@, seed);
    let i = choose|i: int| 0 <= i < map.sites@.len() && map.sites@[i] == seed;
    assert(map.sites_hashmap@.contains_key(key_of(map.sites@[i])));
    let place = map.sites_hashmap@[key] as int;
    assert(filed_at(map.sites@, key, place));
    lemma_key_is_injective(map.sites@[place], seed);
    lemma_last_place_is_unique(map.sites@, seed, place, map.seed_cell(k));
}

/// After the fills of a map, the cell of the last seed holds the seed
/// elevation: no fill comes after it to write over it.
pub proof fn lemma_last_seed_stands(map: Heightmap, logs: Seq<Seq<Claim>>, heights: Seq<i128>)
    requires
        map.wf(),
        map.filled_to(logs, heights),
        map.seed_points@.len() >= 1,
    ensures
        0 <= map.seed_cell(map.seed_points@.len() - 1) < heights.len(),
        heights[map.seed_cell(map.seed_points@.len() - 1)] == SEED_HEIGHT,
{
    let last = logs.len() - 1;
    let log = logs[last];
    let under = written_each(map.heights@, logs.drop_last());
    lemma_written_keeps_length(map.heights@, logs.drop_last());
    assert(is_fill(map.graph(), map.seed_cell(last), log));
    lemma_written_values(under, log);
    assert(log[0].cell == map.seed_cell(last));
}

/// After the fills of a map, every cell holds the elevation it had or an
/// elevation that one of the fills wrote into it.
pub proof fn lemma_filled_heights(map: Heightmap, logs: Seq<Seq<Claim>>, heights: Seq<i128>, c: int)
    requires
        heights == written_each(map.heights@, logs),
        0 <= c < map.heights@.len(),
    ensures
        heights.len() == map.heights@.len(),
        heights[c] == map.heights@[c] || exists|k: int, i: int|
            0 <= k < logs.len() && 0 <= i < logs[k].len() && (#[trigger] logs[k][i]).cell == c
                && heights[c] == logs[k][i].height,
    decreases logs.len(),
{
    lemma_written_keeps_length(map.heights@, logs);
    if logs.len() > 0 {
        let shorter = logs.drop_last();
        let under = written_each(map.heights@, shorter);
        lemma_written_keeps_length(map.heights@, shorter);
        lemma_filled_heights(map, shorter, under, c);
        lemma_written_from(under, logs.last(), c);
        if heights[c] == under[c] {
            if under[c] != map.heights@[c] {
                let (k, i) = choose|k: int, i: int|
                    0 <= k < shorter.len() && 0 <= i < shorter[k].len() && (
                    #[trigger] shorter[k][i]).cell == c && under[c] == shorter[k][i].height;
                assert(logs[k][i].cell == c);
            }
        } else {
            let i = choose|i: int|
                0 <= i < logs.last().len() && (#[trigger] logs.last()[i]).cell == c && heights[c]
                    == logs.last()[i].height;
            assert(logs[logs.len() - 1][i].cell == c);
        }
    }
}

/// After a log is written, a cell holds the elevation it had or the elevation
/// of one of its claims in the log.
pub proof fn lemma_written_from(heights: Seq<i128>, log: Seq<Claim>, c: int)
    requires
        0 <= c < heights.len(),
    ensures
        written(heights, log)[c] == heights[c] || exists|i: int|
            0 <= i < log.len() && (#[trigger] log[i]).cell == c && written(heights, log)[c]
                == log[i].height,
    decreases log.len(),
{
    if log.len() > 0 {
        let shorter = log.drop_last();
        lemma_written_from(heights, shorter, c);
        lemma_written_length(heights, shorter);
        if log.last().cell == c {
            assert(log[log.len() - 1].cell == c);
        } else if written(heights, shorter)[c] != heights[c] {
            let i = choose|i: int|
                0 <= i < shorter.len() && (#[trigger] shorter[i]).cell == c && written(
                    heights,
                    shorter,
                )[c] == shorter[i].height;
            assert(log[i].cell == c);
        }
    }
}

/// Writing logs over elevations keeps their number.
pub proof fn lemma_written_keeps_length(heights: Seq<i128>, logs: Seq<Seq<Claim>>)
    ensures
        written_each(heights, logs).len() == heights.len(),
    decreases logs.len(),
{
    if logs.len() > 0 {
        lemma_written_keeps_length(heights, logs.drop_last());
        lemma_written_length(written_each(heights, logs.drop_last()), logs.last());
    }
}

} // verus!
