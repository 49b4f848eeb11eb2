//! The queue of a fill in progress, held against the log.
//!
//! To show that a fill claims cells in the order in which they entered the
//! queue, each waiting cell is tagged with the claim that queued it and with
//! its place among the cells which that claim queued.  The tags rise along
//! the queue, every queued cell has been claimed or waits under its tag, and
//! every claimed cell had entered the queue by the tag that was last taken
//! from the front.

use crate::fill::{
    claimed, in_queue_order, is_closed, is_partial_fill, lemma_claimed_push, no_later, queued,
    queued_at, queued_by, queued_by_then, reached, Claim,
};
use vstd::prelude::*;

verus! {

/// Each waiting cell was queued where its tag says, no tag comes before
/// `low`, and the tags rise along the queue.
pub closed spec fn tagged(
    graph: Seq<Seq<usize>>,
    log: Seq<Claim>,
    queue: Seq<usize>,
    tags: Seq<(int, int)>,
    low: (int, int),
) -> bool {
    &&& tags.len() == queue.len()
    &&& forall|i: int|
        0 <= i < queue.len() ==> {
            let tag = #[trigger] tags[i];
            &&& 0 <= tag.0 < log.len()
            &&& queued_at(graph, log, tag.0, tag.1, queue[i])
            &&& no_later(low.0, low.1, tag.0, tag.1)
        }
    &&& forall|i: int, j: int|
        0 <= i <= j < tags.len() ==> no_later(
            (#[trigger] tags[i]).0,
            tags[i].1,
            (#[trigger] tags[j]).0,
            tags[j].1,
        )
}

/// `cell` waits in the queue under the tag (`j`, `m`).
pub closed spec fn waits(queue: Seq<usize>, tags: Seq<(int, int)>, cell: usize, j: int, m: int) -> bool {
    exists|i: int| 0 <= i < queue.len() && #[trigger] queue[i] == cell && tags[i] == (j, m)
}

/// Every queued cell has been claimed or waits under its tag.
pub closed spec fn none_lost(
    graph: Seq<Seq<usize>>,
    log: Seq<Claim>,
    queue: Seq<usize>,
    tags: Seq<(int, int)>,
) -> bool {
    forall|j: int, m: int|
        0 <= j < log.len() && 0 <= m < queued(graph, log, j).len() ==> {
            let c = #[trigger] queued(graph, log, j)[m];
            claimed(log, c as int) || waits(queue, tags, c, j, m)
        }
}

/// Every cell claimed after the seed had entered the queue by `low`.
pub closed spec fn all_early(graph: Seq<Seq<usize>>, log: Seq<Claim>, low: (int, int)) -> bool {
    forall|a: int|
        1 <= a < log.len() ==> queued_by_then(graph, log, (#[trigger] log[a]).cell, low.0, low.1)
}

/// The queue, its tags and the last tag taken are in step with the log.
pub closed spec fn in_step(
    graph: Seq<Seq<usize>>,
    log: Seq<Claim>,
    queue: Seq<usize>,
    tags: Seq<(int, int)>,
    low: (int, int),
) -> bool {
    &&& 0 <= low.0 < log.len()
    &&& tagged(graph, log, queue, tags, low)
    &&& none_lost(graph, log, queue, tags)
    &&& all_early(graph, log, low)
}

/// The queue as a fill leaves it after taking `claim` from its front: the
/// rest of the queue, and behind it the neighbours of the claimed cell if the
/// fill is still spreading.
pub open spec fn queue_after(graph: Seq<Seq<usize>>, queue: Seq<usize>, claim: Claim) -> Seq<usize> {
    if claim.spread {
        queue.subrange(1, queue.len() as int) + graph[claim.cell as int]
    } else {
        queue.subrange(1, queue.len() as int)
    }
}

/// The tags of the cells that the seed queued: the seed is claim zero, and
/// each cell has its place.
pub open spec fn first_tags(count: nat) -> Seq<(int, int)> {
    Seq::new(count, |m: int| (0int, m))
}

/// The tags that go with [`queue_after`] for a claim after the seed, `claim`
/// being the claim numbered `number`.
pub open spec fn tags_after(
    graph: Seq<Seq<usize>>,
    tags: Seq<(int, int)>,
    claim: Claim,
    number: int,
) -> Seq<(int, int)> {
    if claim.spread {
        tags.subrange(1, tags.len() as int) + Seq::new(
            graph[claim.cell as int].len(),
            |m: int| (number, m),
        )
    } else {
        tags.subrange(1, tags.len() as int)
    }
}

/// What a claim has queued does not change when the log grows.
pub proof fn lemma_queued_push(graph: Seq<Seq<usize>>, log: Seq<Claim>, claim: Claim, j: int)
    requires
        0 <= j < log.len(),
    ensures
        queued(graph, log.push(claim), j) == queued(graph, log, j),
{
    assert(log.push(claim)[j] == log[j]);
}

/// What had entered the queue by some time had entered it by any later time,
/// also when the log has grown.
pub proof fn lemma_queued_by_then_push(
    graph: Seq<Seq<usize>>,
    log: Seq<Claim>,
    claim: Claim,
    cell: usize,
    j: int,
    m: int,
    later: int,
    later_m: int,
)
    requires
        queued_by_then(graph, log, cell, j, m),
        j < log.len(),
        no_later(j, m, later, later_m),
    ensures
        queued_by_then(graph, log.push(claim), cell, later, later_m),
{
    let (i, mi) = choose|i: int, mi: int|
        0 <= i && no_later(i, mi, j, m) && #[trigger] queued_at(graph, log, i, mi, cell);
    lemma_queued_push(graph, log, claim, i);
    assert(queued_at(graph, log.push(claim), i, mi, cell));
}

/// After the seed is claimed, the queue holds what the seed queued.
pub proof fn lemma_first_claim_starts_step(
    graph: Seq<Seq<usize>>,
    seed: int,
    queue: Seq<usize>,
    claim: Claim,
)
    requires
        0 <= seed < graph.len(),
        claim.cell == seed,
        queue =~= seq![seed as usize] + graph[seed],
    ensures
        in_step(
            graph,
            seq![claim],
            queue_after(graph, queue, claim),
            first_tags(queue_after(graph, queue, claim).len()),
            (0, 0),
        ),
        in_queue_order(graph, seq![claim]),
{
    let log = seq![claim];
    let after = queue_after(graph, queue, claim);
    let tags = first_tags(after.len());
    assert(queue.subrange(1, queue.len() as int) =~= graph[seed]);
    assert(after =~= queued(graph, log, 0));
    assert forall|j: int, m: int|
        0 <= j < log.len() && 0 <= m < queued(graph, log, j).len() implies {
        let c = #[trigger] queued(graph, log, j)[m];
        claimed(log, c as int) || waits(after, tags, c, j, m)
    } by {
        assert(after[m] == queued(graph, log, j)[m]);
        assert(tags[m] == (0int, m));
    }
}

/// The cell at the front of the queue was queued by a claim of the log.
pub proof fn lemma_front_was_queued(
    graph: Seq<Seq<usize>>,
    log: Seq<Claim>,
    queue: Seq<usize>,
    tags: Seq<(int, int)>,
    low: (int, int),
)
    requires
        in_step(graph, log, queue, tags, low),
        queue.len() >= 1,
    ensures
        0 <= tags[0].0 < log.len(),
        queued_by(graph, log, tags[0].0, queue[0]),
{
    assert(queued_at(graph, log, tags[0].0, tags[0].1, queue[0]));
}

/// Dropping a claimed cell from the front of the queue keeps the queue in
/// step with the log.
pub proof fn lemma_skip_keeps_step(
    graph: Seq<Seq<usize>>,
    log: Seq<Claim>,
    queue: Seq<usize>,
    tags: Seq<(int, int)>,
    low: (int, int),
)
    requires
        in_step(graph, log, queue, tags, low),
        queue.len() >= 1,
        claimed(log, queue[0] as int),
    ensures
        in_step(
            graph,
            log,
            queue.subrange(1, queue.len() as int),
            tags.subrange(1, tags.len() as int),
            tags[0],
        ),
{
    let rest = queue.subrange(1, queue.len() as int);
    let rest_tags = tags.subrange(1, tags.len() as int);
    let taken = tags[0];
    assert forall|i: int| 0 <= i < rest.len() implies {
        let tag = #[trigger] rest_tags[i];
        &&& 0 <= tag.0 < log.len()
        &&& queued_at(graph, log, tag.0, tag.1, rest[i])
        &&& no_later(taken.0, taken.1, tag.0, tag.1)
    } by {
        assert(rest_tags[i] == tags[i + 1]);
        assert(rest[i] == queue[i + 1]);
    }
    assert forall|i: int, j: int| 0 <= i <= j < rest_tags.len() implies no_later(
        (#[trigger] rest_tags[i]).0,
        rest_tags[i].1,
        (#[trigger] rest_tags[j]).0,
        rest_tags[j].1,
    ) by {
        assert(rest_tags[i] == tags[i + 1]);
        assert(rest_tags[j] == tags[j + 1]);
    }
    assert forall|j: int, m: int|
        0 <= j < log.len() && 0 <= m < queued(graph, log, j).len() implies {
        let c = #[trigger] queued(graph, log, j)[m];
        claimed(log, c as int) || waits(rest, rest_tags, c, j, m)
    } by {
        let c = queued(graph, log, j)[m];
        if !claimed(log, c as int) {
            let i = choose|i: int|
                0 <= i < queue.len() && #[trigger] queue[i] == c && tags[i] == (j, m);
            assert(rest[i - 1] == c);
            assert(rest_tags[i - 1] == (j, m));
        }
    }
    assert forall|a: int| 1 <= a < log.len() implies queued_by_then(
        graph,
        log,
        (#[trigger] log[a]).cell,
        taken.0,
        taken.1,
    ) by {
        let (i, mi) = choose|i: int, mi: int|
            0 <= i && no_later(i, mi, low.0, low.1) && #[trigger] queued_at(
                graph,
                log,
                i,
                mi,
                log[a].cell,
            );
        assert(queued_at(graph, log, i, mi, log[a].cell));
    }
}

/// Claiming the cell at the front keeps the tags true of the waiting cells.
proof fn lemma_claim_keeps_tagged(
    graph: Seq<Seq<usize>>,
    log: Seq<Claim>,
    queue: Seq<usize>,
    tags: Seq<(int, int)>,
    low: (int, int),
    claim: Claim,
)
    requires
        tagged(graph, log, queue, tags, low),
        log.len() >= 1,
        queue.len() >= 1,
    ensures
        tagged(
            graph,
            log.push(claim),
            queue_after(graph, queue, claim),
            tags_after(graph, tags, claim, log.len() as int),
            tags[0],
        ),
{
    let longer = log.push(claim);
    let n = log.len() as int;
    let rest = queue.subrange(1, queue.len() as int);
    let after = queue_after(graph, queue, claim);
    let after_tags = tags_after(graph, tags, claim, n);
    let taken = tags[0];
    assert(longer[n] == claim);
    assert forall|i: int| 0 <= i < after.len() implies {
        let tag = #[trigger] after_tags[i];
        &&& 0 <= tag.0 < longer.len()
        &&& queued_at(graph, longer, tag.0, tag.1, after[i])
        &&& no_later(taken.0, taken.1, tag.0, tag.1)
    } by {
        if i < rest.len() {
            assert(after[i] == queue[i + 1]);
            assert(after_tags[i] == tags[i + 1]);
            assert(no_later(tags[0].0, tags[0].1, tags[i + 1].0, tags[i + 1].1));
            lemma_queued_push(graph, log, claim, tags[i + 1].0);
        } else {
            assert(after[i] == graph[claim.cell as int][i - rest.len()]);
            assert(after_tags[i] == (n, i - rest.len()));
            assert(queued(graph, longer, n) =~= graph[claim.cell as int]);
        }
    }
    assert forall|i: int, j: int| 0 <= i <= j < after_tags.len() implies no_later(
        (#[trigger] after_tags[i]).0,
        after_tags[i].1,
        (#[trigger] after_tags[j]).0,
        after_tags[j].1,
    ) by {
        if i < rest.len() {
            assert(after_tags[i] == tags[i + 1]);
        } else {
            assert(after_tags[i] == (n, i - rest.len()));
        }
        if j < rest.len() {
            assert(after_tags[j] == tags[j + 1]);
        } else {
            assert(after_tags[j] == (n, j - rest.len()));
        }
    }
}

/// Claiming the cell at the front loses no queued cell.
proof fn lemma_claim_keeps_none_lost(
    graph: Seq<Seq<usize>>,
    log: Seq<Claim>,
    queue: Seq<usize>,
    tags: Seq<(int, int)>,
    claim: Claim,
)
    requires
        none_lost(graph, log, queue, tags),
        tags.len() == queue.len(),
        log.len() >= 1,
        queue.len() >= 1,
        queue[0] == claim.cell,
    ensures
        none_lost(
            graph,
            log.push(claim),
            queue_after(graph, queue, claim),
            tags_after(graph, tags, claim, log.len() as int),
        ),
{
    let longer = log.push(claim);
    let n = log.len() as int;
    let rest = queue.subrange(1, queue.len() as int);
    let after = queue_after(graph, queue, claim);
    let after_tags = tags_after(graph, tags, claim, n);
    lemma_claimed_push(log, claim);
    assert(longer[n] == claim);
    assert forall|j: int, m: int|
        0 <= j < longer.len() && 0 <= m < queued(graph, longer, j).len() implies {
        let c = #[trigger] queued(graph, longer, j)[m];
        claimed(longer, c as int) || waits(after, after_tags, c, j, m)
    } by {
        let c = queued(graph, longer, j)[m];
        if j < n {
            lemma_queued_push(graph, log, claim, j);
            assert(queued(graph, log, j)[m] == c);
            if !claimed(log, c as int) {
                assert(waits(queue, tags, c, j, m));
                let i = choose|i: int|
                    0 <= i < queue.len() && #[trigger] queue[i] == c && tags[i] == (j, m);
                if i >= 1 {
                    assert(after[i - 1] == c);
                    assert(after_tags[i - 1] == (j, m));
                }
            }
        } else {
            assert(queued(graph, longer, n) =~= graph[claim.cell as int]);
            assert(after[rest.len() + m] == c);
            assert(after_tags[rest.len() + m] == (n, m));
        }
    }
}

/// Claiming a cell that entered the queue at `taken` keeps every claimed cell
/// in the queue by then.
proof fn lemma_claim_keeps_early(
    graph: Seq<Seq<usize>>,
    log: Seq<Claim>,
    low: (int, int),
    claim: Claim,
    taken: (int, int),
)
    requires
        all_early(graph, log, low),
        0 <= low.0,
        no_later(low.0, low.1, taken.0, taken.1),
        0 <= taken.0 < log.len(),
        low.0 < log.len(),
        queued_at(graph, log, taken.0, taken.1, claim.cell),
    ensures
        all_early(graph, log.push(claim), taken),
{
    let longer = log.push(claim);
    let n = log.len() as int;
    assert forall|a: int| 1 <= a < longer.len() implies queued_by_then(
        graph,
        longer,
        (#[trigger] longer[a]).cell,
        taken.0,
        taken.1,
    ) by {
        if a < n {
            assert(longer[a] == log[a]);
            lemma_queued_by_then_push(
                graph,
                log,
                claim,
                log[a].cell,
                low.0,
                low.1,
                taken.0,
                taken.1,
            );
        } else {
            lemma_queued_push(graph, log, claim, taken.0);
            assert(queued_at(graph, longer, taken.0, taken.1, claim.cell));
        }
    }
}

/// One instance of the order of queueing after a claim: the cell of the
/// `a`-th claim had entered the queue by the time that the `j`-th claim
/// queued, as its `m`-th cell, the cell of the later `b`-th claim.
proof fn lemma_order_after_claim(
    graph: Seq<Seq<usize>>,
    log: Seq<Claim>,
    queue: Seq<usize>,
    tags: Seq<(int, int)>,
    low: (int, int),
    claim: Claim,
    a: int,
    b: int,
    j: int,
    m: int,
)
    requires
        tagged(graph, log, queue, tags, low),
        none_lost(graph, log, queue, tags),
        all_early(graph, log, low),
        in_queue_order(graph, log),
        reached(graph, log, a),
        0 <= low.0 < log.len(),
        queue.len() >= 1,
        queue[0] == claim.cell,
        !claimed(log, claim.cell as int),
        1 <= a < b <= log.len(),
        0 <= j <= log.len(),
        queued_at(graph, log.push(claim), j, m, log.push(claim)[b].cell),
    ensures
        queued_by_then(graph, log.push(claim), log[a].cell, j, m),
{
    let longer = log.push(claim);
    let n = log.len() as int;
    if j >= a {
        let i = choose|i: int| 0 <= i < a && #[trigger] queued_by(graph, log, i, log[a].cell);
        let row = queued(graph, log, i);
        let mi = choose|mi: int| 0 <= mi < row.len() && row[mi] == log[a].cell;
        lemma_queued_push(graph, log, claim, i);
        assert(queued_at(graph, longer, i, mi, log[a].cell));
    } else if b < n {
        assert(longer[b] == log[b]);
        lemma_queued_push(graph, log, claim, j);
        assert(queued_at(graph, log, j, m, log[b].cell));
        assert(queued_by_then(graph, log, log[a].cell, j, m));
        lemma_queued_by_then_push(graph, log, claim, log[a].cell, j, m, j, m);
    } else {
        // The cell now claimed had been queued at (`j`, `m`) and not yet
        // claimed, so it waited under that tag, which comes no earlier than
        // the tag at the front, and that no earlier than `low`.
        assert(longer[b] == claim);
        lemma_queued_push(graph, log, claim, j);
        assert(queued(graph, log, j)[m] == claim.cell);
        assert(waits(queue, tags, claim.cell, j, m));
        let i = choose|i: int|
            0 <= i < queue.len() && #[trigger] queue[i] == claim.cell && tags[i] == (j, m);
        assert(no_later(tags[0].0, tags[0].1, tags[i].0, tags[i].1));
        assert(no_later(low.0, low.1, tags[0].0, tags[0].1));
        lemma_queued_by_then_push(graph, log, claim, log[a].cell, low.0, low.1, j, m);
    }
}

/// Claiming the cell at the front of the queue keeps the queue in step with
/// the log, and the log in the order of queueing.
pub proof fn lemma_claim_keeps_step(
    graph: Seq<Seq<usize>>,
    seed: int,
    log: Seq<Claim>,
    queue: Seq<usize>,
    tags: Seq<(int, int)>,
    low: (int, int),
    claim: Claim,
)
    requires
        in_step(graph, log, queue, tags, low),
        in_queue_order(graph, log),
        is_partial_fill(graph, seed, log),
        log.len() >= 1,
        queue.len() >= 1,
        queue[0] == claim.cell,
        !claimed(log, claim.cell as int),
    ensures
        in_step(
            graph,
            log.push(claim),
            queue_after(graph, queue, claim),
            tags_after(graph, tags, claim, log.len() as int),
            tags[0],
        ),
        in_queue_order(graph, log.push(claim)),
{
    let longer = log.push(claim);
    lemma_claim_keeps_tagged(graph, log, queue, tags, low, claim);
    lemma_claim_keeps_none_lost(graph, log, queue, tags, claim);
    assert(queued_at(graph, log, tags[0].0, tags[0].1, queue[0]));
    lemma_claim_keeps_early(graph, log, low, claim, tags[0]);
    assert forall|a: int, b: int, j: int, m: int|
        #![trigger queued_at(graph, longer, j, m, longer[b].cell), longer[a]]
        1 <= a < b < longer.len() && 0 <= j < longer.len() && queued_at(
            graph,
            longer,
            j,
            m,
            longer[b].cell,
        ) implies queued_by_then(graph, longer, longer[a].cell, j, m) by {
        assert(longer[a] == log[a]);
        assert(reached(graph, log, a));
        lemma_order_after_claim(graph, log, queue, tags, low, claim, a, b, j, m);
    }
}

/// Once the queue is empty, every queued cell is claimed.
pub proof fn lemma_empty_queue_closes(
    graph: Seq<Seq<usize>>,
    log: Seq<Claim>,
    queue: Seq<usize>,
    tags: Seq<(int, int)>,
    low: (int, int),
)
    requires
        log.len() >= 1,
        in_step(graph, log, queue, tags, low),
        queue.len() == 0,
    ensures
        is_closed(graph, log),
{
    assert forall|j: int, m: int|
        0 <= j < log.len() && 0 <= m < queued(graph, log, j).len() implies claimed(
        log,
        #[trigger] queued(graph, log, j)[m] as int,
    ) by {
        let c = queued(graph, log, j)[m];
        assert(claimed(log, c as int) || waits(queue, tags, c, j, m));
    }
}

} // verus!
