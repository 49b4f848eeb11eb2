//! The flood fill that spreads elevation outward from one seed cell.
//!
//! A fill walks the adjacency graph breadth first.  It claims each cell at
//! most once, writes the elevation it carries into the cell, lets the cell
//! wear the elevation down, and queues the cell's neighbours unless it has
//! stopped spreading.  The seed's own neighbours are queued before anything
//! is claimed, so they are always claimed.  What a fill did is told by its
//! log: one [`Claim`] per cell, in the order of claiming.
//!
//! A cell counts as claimed from the moment it receives its elevation, and a
//! claimed cell that comes up in the queue again is passed over.  Each fill
//! keeps its own account of what it has claimed: a later fill may claim and
//! overwrite cells that an earlier fill has claimed.

use crate::elevation::{
    handed_on, settle, spreads_on, throw_dice, thrown, Dice, DECAY_MAX, DECAY_MIN, HEIGHT_FLOOR,
    SEED_HEIGHT, UNIT,
};
use crate::frontier::{
    first_tags, in_step, lemma_claim_keeps_step, lemma_empty_queue_closes,
    lemma_first_claim_starts_step, lemma_front_was_queued, lemma_skip_keeps_step, queue_after,
    tags_after,
};
use crate::graph::{graph_of, in_bounds};
use rand::rngs::StdRng;
use std::collections::VecDeque;
use vstd::prelude::*;
use vstd::set_lib::{lemma_int_range, set_int_range};

verus! {

/// One cell claimed by a fill.
#[derive(Clone, Copy, Debug, PartialEq, Eq, Structural)]
pub struct Claim {
    /// Index of the claimed cell.
    pub cell: usize,
    /// The elevation written into the cell.
    pub height: i128,
    /// The elevation handed on to the next claim, after this cell's wear.
    pub carried: i128,
    /// Whether the fill was still spreading after this cell, and so queued
    /// the cell's neighbours.
    pub spread: bool,
}

/// Whether the log holds a claim of the cell.
pub open spec fn claimed(log: Seq<Claim>, cell: int) -> bool {
    exists|k: int| 0 <= k < log.len() && (#[trigger] log[k]).cell == cell
}

/// No cell is claimed twice.
pub open spec fn distinct(log: Seq<Claim>) -> bool {
    forall|j: int, k: int|
        0 <= j < k < log.len() ==> (#[trigger] log[j]).cell != (#[trigger] log[k]).cell
}

/// What holds of a single claim: the cell wore the elevation down by nothing
/// or by an amount within the bounds, and a fill that goes on spreading hands
/// on an elevation that has not fallen below the floor.
pub open spec fn sound(claim: Claim) -> bool {
    &&& claim.carried == claim.height || DECAY_MIN <= claim.height - claim.carried < DECAY_MAX
    &&& claim.spread ==> claim.carried >= HEIGHT_FLOOR
}

/// How one claim follows the one before it: it writes the elevation that was
/// handed on, and a fill that has stopped spreading stays stopped.
pub open spec fn follows(before: Claim, after: Claim) -> bool {
    &&& after.height == before.carried
    &&& after.spread ==> before.spread
}

/// The cells that the `j`-th claim put in the queue, in their order: the
/// neighbours of its cell if the fill was spreading after it; and before
/// them, for the seed, its neighbours once more, which are queued at the
/// start whatever happens.
pub open spec fn queued(graph: Seq<Seq<usize>>, log: Seq<Claim>, j: int) -> Seq<usize> {
    let own = if log[j].spread {
        graph[log[j].cell as int]
    } else {
        Seq::empty()
    };
    if j == 0 {
        graph[log[j].cell as int] + own
    } else {
        own
    }
}

/// The `j`-th claim queued `cell` as the `m`-th of the cells it queued.
pub open spec fn queued_at(graph: Seq<Seq<usize>>, log: Seq<Claim>, j: int, m: int, cell: usize) -> bool {
    0 <= m < queued(graph, log, j).len() && queued(graph, log, j)[m] == cell
}

/// The `j`-th claim queued `cell`.
pub open spec fn queued_by(graph: Seq<Seq<usize>>, log: Seq<Claim>, j: int, cell: usize) -> bool {
    queued(graph, log, j).contains(cell)
}

/// Some claim of the log queued `cell`.
pub open spec fn sourced(graph: Seq<Seq<usize>>, log: Seq<Claim>, cell: usize) -> bool {
    exists|j: int| 0 <= j < log.len() && #[trigger] queued_by(graph, log, j, cell)
}

/// The `k`-th claimed cell was queued by an earlier claim.
pub open spec fn reached(graph: Seq<Seq<usize>>, log: Seq<Claim>, k: int) -> bool {
    exists|j: int| 0 <= j < k && #[trigger] queued_by(graph, log, j, log[k].cell)
}

/// The `mi`-th cell queued by claim `i` entered the queue no later than the
/// `mj`-th cell queued by claim `j`.
pub open spec fn no_later(i: int, mi: int, j: int, mj: int) -> bool {
    i < j || (i == j && mi <= mj)
}

/// `cell` had entered the queue by the time that claim `j` queued its `m`-th
/// cell.
pub open spec fn queued_by_then(
    graph: Seq<Seq<usize>>,
    log: Seq<Claim>,
    cell: usize,
    j: int,
    m: int,
) -> bool {
    exists|i: int, mi: int|
        0 <= i && no_later(i, mi, j, m) && #[trigger] queued_at(graph, log, i, mi, cell)
}

/// First queued, first claimed: of two cells claimed after the seed, the one
/// claimed first had entered the queue first.  Wherever the later cell stands
/// in the queue, the earlier cell had entered the queue by then.
pub open spec fn in_queue_order(graph: Seq<Seq<usize>>, log: Seq<Claim>) -> bool {
    forall|a: int, b: int, j: int, m: int|
        #![trigger queued_at(graph, log, j, m, log[b].cell), log[a]]
        1 <= a < b < log.len() && 0 <= j < log.len() && queued_at(graph, log, j, m, log[b].cell)
            ==> queued_by_then(graph, log, log[a].cell, j, m)
}

/// What holds of a fill at every moment: its claims so far start at the seed
/// with the seed elevation, name cells of the graph, name no cell twice, are
/// each sound, follow one another, and were each queued by an earlier one.
pub open spec fn is_partial_fill(graph: Seq<Seq<usize>>, seed: int, log: Seq<Claim>) -> bool {
    &&& log.len() >= 1 ==> log[0].cell == seed && log[0].height == SEED_HEIGHT
    &&& forall|k: int| 0 <= k < log.len() ==> (#[trigger] log[k]).cell < graph.len()
    &&& distinct(log)
    &&& forall|k: int| 0 <= k < log.len() ==> sound(#[trigger] log[k])
    &&& forall|k: int| 1 <= k < log.len() ==> follows(log[k - 1], #[trigger] log[k])
    &&& forall|k: int| 1 <= k < log.len() ==> #[trigger] reached(graph, log, k)
}

/// Every cell that was put in the queue has been claimed.
pub open spec fn is_closed(graph: Seq<Seq<usize>>, log: Seq<Claim>) -> bool {
    forall|j: int, m: int|
        0 <= j < log.len() && 0 <= m < queued(graph, log, j).len() ==> claimed(
            log,
            #[trigger] queued(graph, log, j)[m] as int,
        )
}

/// The log of a finished fill from `seed`: at least the seed is claimed, the
/// claims obey the rules of a fill, the cells were claimed in the order in
/// which they were first queued, and nothing that was queued is left out.
pub open spec fn is_fill(graph: Seq<Seq<usize>>, seed: int, log: Seq<Claim>) -> bool {
    &&& log.len() >= 1
    &&& is_partial_fill(graph, seed, log)
    &&& in_queue_order(graph, log)
    &&& is_closed(graph, log)
}

/// The elevations after one claim has been written over `heights`.  A claim
/// of a cell that has no elevation writes nothing.
pub open spec fn written_one(heights: Seq<i128>, claim: Claim) -> Seq<i128> {
    if claim.cell < heights.len() {
        heights.update(claim.cell as int, claim.height)
    } else {
        heights
    }
}

/// The elevations after the claims of a log have been written, one after
/// another, over `heights`.
pub open spec fn written(heights: Seq<i128>, log: Seq<Claim>) -> Seq<i128>
    decreases log.len(),
{
    if log.len() == 0 {
        heights
    } else {
        written_one(written(heights, log.drop_last()), log.last())
    }
}

/// Writing claims keeps the number of elevations.
pub proof fn lemma_written_length(heights: Seq<i128>, log: Seq<Claim>)
    ensures
        written(heights, log).len() == heights.len(),
    decreases log.len(),
{
    if log.len() > 0 {
        lemma_written_length(heights, log.drop_last());
    }
}

/// Writing one more claim changes the elevation of its cell and no other.
pub proof fn lemma_written_push(heights: Seq<i128>, log: Seq<Claim>, claim: Claim)
    ensures
        written(heights, log.push(claim)) == written_one(written(heights, log), claim),
{
    assert(log.push(claim).drop_last() =~= log);
}

/// A log with one more claim holds the cells it held, and the new one.
pub proof fn lemma_claimed_push(log: Seq<Claim>, claim: Claim)
    ensures
        forall|c: int| claimed(log.push(claim), c) <==> (claimed(log, c) || c == claim.cell),
{
    let longer = log.push(claim);
    assert forall|c: int| claimed(longer, c) <==> (claimed(log, c) || c == claim.cell) by {
        if claimed(longer, c) {
            let k = choose|k: int| 0 <= k < longer.len() && (#[trigger] longer[k]).cell == c;
            if k < log.len() {
                assert(log[k].cell == c);
            }
        }
        if claimed(log, c) {
            let k = choose|k: int| 0 <= k < log.len() && (#[trigger] log[k]).cell == c;
            assert(longer[k].cell == c);
        }
        if c == claim.cell {
            assert(longer[log.len() as int].cell == c);
        }
    }
}

/// A partial fill stays one when it claims a cell that it had not claimed,
/// provided the claim is sound, follows the last one, and was queued; the
/// first claim must be the seed at the seed elevation.
pub proof fn lemma_partial_push(graph: Seq<Seq<usize>>, seed: int, log: Seq<Claim>, claim: Claim)
    requires
        is_partial_fill(graph, seed, log),
        claim.cell < graph.len(),
        !claimed(log, claim.cell as int),
        sound(claim),
        log.len() == 0 ==> claim.cell == seed && claim.height == SEED_HEIGHT,
        log.len() >= 1 ==> follows(log.last(), claim) && sourced(graph, log, claim.cell),
    ensures
        is_partial_fill(graph, seed, log.push(claim)),
{
    let longer = log.push(claim);
    let n = log.len() as int;
    assert forall|k: int| 0 <= k < longer.len() implies (#[trigger] longer[k]).cell
        < graph.len() && sound(longer[k]) by {
        if k < n {
            assert(longer[k] == log[k]);
        }
    }
    assert forall|j: int, k: int| 0 <= j < k < longer.len() implies (#[trigger] longer[j]).cell != (
    #[trigger] longer[k]).cell by {
        assert(longer[j] == log[j]);
        if k < n {
            assert(longer[k] == log[k]);
        } else {
            assert(log[j].cell != claim.cell);
        }
    }
    assert forall|k: int| 1 <= k < longer.len() implies follows(
        longer[k - 1],
        #[trigger] longer[k],
    ) by {
        assert(longer[k - 1] == log[k - 1]);
        if k < n {
            assert(longer[k] == log[k]);
        }
    }
    assert forall|k: int| 1 <= k < longer.len() implies #[trigger] reached(graph, longer, k) by {
        if k < n {
            assert(reached(graph, log, k));
            let j = choose|j: int| 0 <= j < k && #[trigger] queued_by(graph, log, j, log[k].cell);
            assert(longer[j] == log[j]);
            assert(longer[k] == log[k]);
            assert(queued_by(graph, longer, j, longer[k].cell));
        } else {
            let j = choose|j: int| 0 <= j < n && #[trigger] queued_by(graph, log, j, claim.cell);
            assert(longer[j] == log[j]);
            assert(queued_by(graph, longer, j, longer[k].cell));
        }
    }
    if n >= 1 {
        assert(longer[0] == log[0]);
    }
}

/// Whatever dice are thrown for a cell, the claim that they settle is sound.
pub proof fn lemma_thrown_dice_settle_soundly(cell: usize, height: i128, spreading: bool, dice: Dice)
    requires
        thrown(dice),
        height - DECAY_MAX >= i128::MIN,
    ensures
        sound(
            Claim {
                cell,
                height,
                carried: handed_on(height, dice) as i128,
                spread: spreads_on(spreading, height, dice),
            },
        ),
{
}

/// A sound claim is what some throw of the dice settles: the rules of a fill
/// allow every log that they do not forbid.
pub proof fn lemma_sound_claim_has_its_dice(claim: Claim, spreading: bool)
    requires
        sound(claim),
        claim.spread ==> spreading,
    ensures
        exists|dice: Dice| #[trigger]
            thrown(dice) && claim.carried == handed_on(claim.height, dice) && claim.spread
                == spreads_on(spreading, claim.height, dice),
{
    let wear: u64 = (claim.height - claim.carried) as u64;
    let wear_roll: u64 = if wear == 0 {
        (UNIT - 1) as u64
    } else {
        0
    };
    let stop_roll: u64 = if claim.spread {
        (UNIT - 1) as u64
    } else {
        0
    };
    let dice = Dice { wear_roll, wear, stop_roll };
    assert(thrown(dice));
}

/// What a log writes: each claimed cell holds the elevation of its claim, and
/// every other cell holds the elevation it had.
pub proof fn lemma_written_values(heights: Seq<i128>, log: Seq<Claim>)
    requires
        distinct(log),
        forall|k: int| 0 <= k < log.len() ==> (#[trigger] log[k]).cell < heights.len(),
    ensures
        written(heights, log).len() == heights.len(),
        forall|k: int|
            0 <= k < log.len() ==> written(heights, log)[(#[trigger] log[k]).cell as int]
                == log[k].height,
        forall|c: int|
            0 <= c < heights.len() && !claimed(log, c) ==> #[trigger] written(heights, log)[c]
                == heights[c],
    decreases log.len(),
{
    lemma_written_length(heights, log);
    if log.len() > 0 {
        let shorter = log.drop_last();
        let last = log.last();
        assert forall|k: int| 0 <= k < shorter.len() implies (#[trigger] shorter[k]).cell
            < heights.len() by {
            assert(shorter[k] == log[k]);
        }
        assert forall|j: int, k: int| 0 <= j < k < shorter.len() implies (#[trigger] shorter[j]).cell
            != (#[trigger] shorter[k]).cell by {
            assert(shorter[j] == log[j]);
            assert(shorter[k] == log[k]);
        }
        lemma_written_values(heights, shorter);
        lemma_written_length(heights, shorter);
        assert forall|k: int| 0 <= k < log.len() implies written(heights, log)[(
        #[trigger] log[k]).cell as int] == log[k].height by {
            if k < shorter.len() {
                assert(shorter[k] == log[k]);
                assert(log[k].cell != last.cell);
            }
        }
        assert forall|c: int| 0 <= c < heights.len() && !claimed(log, c) implies #[trigger] written(
            heights,
            log,
        )[c] == heights[c] by {
            assert(log[log.len() - 1].cell != c);
            if claimed(shorter, c) {
                let k = choose|k: int| 0 <= k < shorter.len() && (#[trigger] shorter[k]).cell == c;
                assert(log[k].cell == c);
            }
        }
    }
}

/// The elevations that a fill writes never rise from one claim to the next,
/// and fall by less than the largest wear at each claim.
pub proof fn lemma_heights_fall(graph: Seq<Seq<usize>>, seed: int, log: Seq<Claim>, j: int, k: int)
    requires
        is_partial_fill(graph, seed, log),
        0 <= j <= k < log.len(),
    ensures
        log[k].height <= log[j].height,
        log[k].height >= log[j].height - (k - j) * (DECAY_MAX - 1),
    decreases k - j,
{
    if j < k {
        lemma_heights_fall(graph, seed, log, j, k - 1);
        assert(sound(log[k - 1]));
        assert(follows(log[k - 1], log[k]));
        assert((k - j) * (DECAY_MAX - 1) == (k - 1 - j) * (DECAY_MAX - 1) + (DECAY_MAX - 1))
            by (nonlinear_arith);
    }
}

/// A fill claims no more cells than the graph has.
pub proof fn lemma_fill_fits_graph(graph: Seq<Seq<usize>>, seed: int, log: Seq<Claim>)
    requires
        is_partial_fill(graph, seed, log),
    ensures
        log.len() <= graph.len(),
{
    let cells = Seq::new(log.len(), |k: int| log[k].cell as int);
    assert forall|j: int, k: int| 0 <= j < cells.len() && 0 <= k < cells.len() && j != k implies cells[j]
        != cells[k] by {
        if j < k {
            assert(log[j].cell != log[k].cell);
        } else {
            assert(log[k].cell != log[j].cell);
        }
    }
    cells.unique_seq_to_set();
    lemma_int_range(0, graph.len() as int);
    assert forall|c: int| cells.to_set().contains(c) implies set_int_range(
        0,
        graph.len() as int,
    ).contains(c) by {
        let k = choose|k: int| 0 <= k < cells.len() && cells[k] == c;
        assert(log[k].cell < graph.len());
    }
    vstd::set_lib::lemma_len_subset(cells.to_set(), set_int_range(0, graph.len() as int));
}

/// Every elevation that a fill writes lies at or below the seed elevation,
/// and the `k`-th lies less than `k` times the largest wear below it.
pub proof fn lemma_heights_bounded(graph: Seq<Seq<usize>>, seed: int, log: Seq<Claim>, k: int)
    requires
        is_partial_fill(graph, seed, log),
        0 <= k < log.len(),
    ensures
        log[k].height <= SEED_HEIGHT,
        log[k].height >= SEED_HEIGHT - k * (DECAY_MAX - 1),
{
    lemma_heights_fall(graph, seed, log, 0, k);
}

/// While a fill spreads, the elevation it writes has not fallen below the
/// floor: a claim made after a spreading claim writes the floor at least.
pub proof fn lemma_spreading_stays_above_floor(
    graph: Seq<Seq<usize>>,
    seed: int,
    log: Seq<Claim>,
    k: int,
)
    requires
        is_partial_fill(graph, seed, log),
        0 <= k < log.len(),
        k == 0 || log[k - 1].spread,
    ensures
        log[k].height >= HEIGHT_FLOOR,
{
    if k > 0 {
        assert(sound(log[k - 1]));
        assert(follows(log[k - 1], log[k]));
    }
}

/// An elevation that a fill writes lies between zero and the seed elevation
/// if fewer than ten cells were claimed before it, or if the fill was still
/// spreading at one of the two claims before it.  A tenth or later claim that
/// comes more than one claim after the fill has stopped spreading may receive
/// an elevation below zero: cells that were queued in time are claimed, and
/// wear the elevation down, however low it has fallen.
pub proof fn lemma_height_in_range(graph: Seq<Seq<usize>>, seed: int, log: Seq<Claim>, k: int)
    requires
        is_partial_fill(graph, seed, log),
        0 <= k < log.len(),
        k <= 9 || log[k - 1].spread || (k >= 2 && log[k - 2].spread),
    ensures
        0 <= log[k].height <= SEED_HEIGHT,
{
    lemma_heights_bounded(graph, seed, log, k);
    if k <= 9 {
        assert(k * (DECAY_MAX - 1) <= 9 * (DECAY_MAX - 1)) by (nonlinear_arith)
            requires
                k <= 9,
        ;
    } else if log[k - 1].spread {
        lemma_spreading_stays_above_floor(graph, seed, log, k);
    } else {
        lemma_spreading_stays_above_floor(graph, seed, log, k - 1);
        lemma_heights_fall(graph, seed, log, k - 1, k);
    }
}

/// On a graph of no more than ten cells, every elevation that a fill writes
/// lies between zero and the seed elevation.
pub proof fn lemma_small_graph_heights_in_range(graph: Seq<Seq<usize>>, seed: int, log: Seq<Claim>)
    requires
        is_fill(graph, seed, log),
        graph.len() <= 10,
    ensures
        forall|k: int| 0 <= k < log.len() ==> 0 <= (#[trigger] log[k]).height <= SEED_HEIGHT,
{
    lemma_fill_fits_graph(graph, seed, log);
    assert forall|k: int| 0 <= k < log.len() implies 0 <= (#[trigger] log[k]).height
        <= SEED_HEIGHT by {
        lemma_height_in_range(graph, seed, log, k);
    }
}

/// A fill claims its seed and every neighbour of its seed.
pub proof fn lemma_seed_and_neighbours_claimed(graph: Seq<Seq<usize>>, seed: int, log: Seq<Claim>)
    requires
        is_fill(graph, seed, log),
    ensures
        claimed(log, seed),
        forall|m: int| 0 <= m < graph[seed].len() ==> claimed(log, #[trigger] graph[seed][m] as int),
{
    assert(log[0].cell == seed);
    assert forall|m: int| 0 <= m < graph[seed].len() implies claimed(
        log,
        #[trigger] graph[seed][m] as int,
    ) by {
        assert(queued(graph, log, 0)[m] == graph[seed][m]);
    }
}

/// Appends the cells of `cells` to the queue, in their order.
fn enqueue_all(queue: &mut VecDeque<usize>, cells: &Vec<usize>)
    ensures
        final(queue)@ == old(queue)@ + cells@,
{
    let mut j: usize = 0;
    while j < cells.len()
        invariant
            j <= cells.len(),
            queue@ == old(queue)@ + cells@.subrange(0, j as int),
        decreases cells.len() - j,
    {
        queue.push_back(cells[j]);
        j += 1;
    }
    assert(cells@.subrange(0, j as int) =~= cells@);
}

/// Runs one fill from the cell `seed` over the graph `neighbors`, writing
/// elevations into `heights`, and returns the log of what it claimed.
///
/// The seed and its neighbours are queued first.  Each cell taken from the
/// queue that the fill has not yet claimed receives the elevation carried so
/// far; three times in four it then wears that elevation down by an amount
/// drawn between the bounds, and the fill stops spreading for good once a
/// roll in a hundred says so or the elevation has fallen below the floor.
/// While it spreads, the neighbours of each claimed cell join the queue.
/// Cells already queued are claimed even after the fill has stopped
/// spreading, so the elevation may fall below the floor, and below zero.
///
/// The fill ends when the queue is empty, which it must: each cell is claimed
/// once, and only a claim adds to the queue.
pub fn fill_from(
    neighbors: &Vec<Vec<usize>>,
    heights: &mut Vec<i128>,
    seed: usize,
    rng: &mut StdRng,
) -> (log: Vec<Claim>)
    requires
        in_bounds(graph_of(neighbors@)),
        old(heights).len() == neighbors.len(),
        seed < neighbors.len(),
    ensures
        is_fill(graph_of(neighbors@), seed as int, log@),
        final(heights)@ == written(old(heights)@, log@),
{
    let n: usize = neighbors.len();
    let ghost graph = graph_of(neighbors@);
    let ghost before = heights@;
    let mut visited: Vec<bool> = vec![false; n];
    let mut queue: VecDeque<usize> = VecDeque::new();
    queue.push_back(seed);
    enqueue_all(&mut queue, &neighbors[seed]);
    let mut height: i128 = SEED_HEIGHT;
    let mut stopped: bool = false;
    let mut log: Vec<Claim> = Vec::new();
    let ghost mut unclaimed: Set<int> = set_int_range(0, n as int);
    let ghost mut tags: Seq<(int, int)> = first_tags(queue@.len());
    let ghost mut low: (int, int) = (0, 0);
    proof {
        lemma_int_range(0, n as int);
        assert(queue@ =~= seq![seed] + graph[seed as int]);
    }
    while queue.len() > 0
        invariant
            n == neighbors.len(),
            graph == graph_of(neighbors@),
            in_bounds(graph),
            seed < n,
            heights@.len() == n,
            visited@.len() == n,
            is_partial_fill(graph, seed as int, log@),
            forall|c: int| 0 <= c < n ==> (#[trigger] visited@[c] <==> claimed(log@, c)),
            heights@ == written(before, log@),
            log@.len() == 0 ==> queue@ =~= seq![seed] + graph[seed as int] && height == SEED_HEIGHT
                && !stopped,
            log@.len() >= 1 ==> height == log@.last().carried && stopped == !log@.last().spread,
            log@.len() >= 1 ==> in_step(graph, log@, queue@, tags, low),
            in_queue_order(graph, log@),
            forall|i: int| 0 <= i < queue@.len() ==> #[trigger] queue@[i] < n,
            unclaimed.finite(),
            forall|c: int| unclaimed.contains(c) <==> 0 <= c < n && !visited@[c],
            log@.len() + unclaimed.len() == n,
            height >= SEED_HEIGHT - log@.len() * DECAY_MAX,
            !stopped ==> height >= HEIGHT_FLOOR,
        decreases unclaimed.len(), queue@.len(),
    {
        let ghost waiting = queue@;
        let ghost so_far = log@;
        let front = queue.pop_front();
        let cell: usize = front.unwrap();
        if visited[cell] {
            proof {
                if so_far.len() == 0 {
                    assert(waiting[0] == seed);
                    assert(false);
                }
                lemma_skip_keeps_step(graph, so_far, waiting, tags, low);
                low = tags[0];
                tags = tags.subrange(1, tags.len() as int);
            }
        } else {
            visited[cell] = true;
            heights[cell] = height;
            let level: i128 = height;
            let dice: Dice = throw_dice(rng);
            let (carried, spread) = settle(height, !stopped, dice);
            height = carried;
            stopped = !spread;
            let claim = Claim { cell, height: level, carried, spread };
            log.push(claim);
            proof {
                assert(unclaimed.contains(cell as int));
                unclaimed = unclaimed.remove(cell as int);
                if so_far.len() >= 1 {
                    lemma_front_was_queued(graph, so_far, waiting, tags, low);
                    assert(queued_by(graph, so_far, tags[0].0, waiting[0]));
                } else {
                    assert(waiting[0] == seed);
                }
                lemma_partial_push(graph, seed as int, so_far, claim);
                lemma_claimed_push(so_far, claim);
                lemma_written_push(before, so_far, claim);
                lemma_written_length(before, so_far);
                if so_far.len() == 0 {
                    lemma_first_claim_starts_step(graph, seed as int, waiting, claim);
                    assert(so_far.push(claim) =~= seq![claim]);
                    low = (0, 0);
                    tags = first_tags(queue_after(graph, waiting, claim).len());
                } else {
                    lemma_claim_keeps_step(graph, seed as int, so_far, waiting, tags, low, claim);
                    low = tags[0];
                    tags = tags_after(graph, tags, claim, so_far.len() as int);
                }
            }
            if !stopped {
                enqueue_all(&mut queue, &neighbors[cell]);
            }
            proof {
                assert(queue@ =~= queue_after(graph, waiting, claim));
                assert forall|i: int| 0 <= i < queue@.len() implies #[trigger] queue@[i] < n by {
                    if i < waiting.len() - 1 {
                        assert(queue@[i] == waiting[i + 1]);
                    } else {
                        assert(queue@[i] == graph[cell as int][i - (waiting.len() - 1)]);
                    }
                }
            }
        }
    }
    proof {
        lemma_empty_queue_closes(graph, log@, queue@, tags, low);
    }
    log
}

} // verus!
