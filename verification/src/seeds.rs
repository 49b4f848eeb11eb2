//! Choosing the seed cells of a map.
//!
//! The sites are cut into five bands of equal width by their index, and one
//! site is drawn from each band.  The bands do not overlap, so the five seeds
//! are five different sites.

use crate::point::Point;
use crate::random::draw_between;
use rand::rngs::StdRng;
use vstd::prelude::*;

verus! {

/// The number of seeds that are chosen when none are given.
pub const SEED_COUNT: usize = 5;

/// The width of each band of a list of `count` sites.
pub open spec fn band_width(count: nat) -> nat {
    count / (SEED_COUNT as nat)
}

/// Whether `index` lies in the band numbered `band` of `count` sites.
pub open spec fn in_band(count: nat, band: int, index: int) -> bool {
    band * band_width(count) <= index < (band + 1) * band_width(count)
}

/// The seeds are one site out of each of the five bands, in the order of the
/// bands, at the positions `picks`.
pub open spec fn picked_at(sites: Seq<Point>, seeds: Seq<Point>, picks: Seq<int>) -> bool {
    &&& seeds.len() == SEED_COUNT
    &&& picks.len() == SEED_COUNT
    &&& forall|k: int|
        0 <= k < SEED_COUNT ==> in_band(sites.len(), k, #[trigger] picks[k]) && seeds[k]
            == sites[picks[k]]
}

/// The seeds are one site out of each of the five bands, in the order of the
/// bands.
pub open spec fn banded(sites: Seq<Point>, seeds: Seq<Point>) -> bool {
    exists|picks: Seq<int>| picked_at(sites, seeds, picks)
}

/// Draws one site out of each of the five bands.
pub fn pick_seeds(sites: &Vec<Point>, rng: &mut StdRng) -> (seeds: Vec<Point>)
    requires
        sites.len() >= SEED_COUNT,
    ensures
        banded(sites@, seeds@),
{
    let width: usize = sites.len() / SEED_COUNT;
    let mut seeds: Vec<Point> = Vec::new();
    let ghost mut picks: Seq<int> = Seq::empty();
    let mut band: usize = 0;
    while band < SEED_COUNT
        invariant
            band <= SEED_COUNT,
            width == band_width(sites@.len()),
            width >= 1,
            width * SEED_COUNT <= sites.len(),
            seeds@.len() == band,
            picks.len() == band,
            forall|k: int|
                0 <= k < band ==> in_band(sites@.len(), k, #[trigger] picks[k]) && seeds@[k]
                    == sites@[picks[k]],
        decreases SEED_COUNT - band,
    {
        assert(width * (band + 1) <= width * SEED_COUNT) by (nonlinear_arith)
            requires
                band + 1 <= SEED_COUNT,
        ;
        assert(width * band < width * (band + 1)) by (nonlinear_arith)
            requires
                width >= 1,
        ;
        let low: usize = width * band;
        let high: usize = width * (band + 1);
        let drawn: u64 = draw_between(rng, low as u64, high as u64);
        let index: usize = drawn as usize;
        seeds.push(sites[index]);
        proof {
            assert(band * band_width(sites@.len()) == width * band) by (nonlinear_arith)
                requires
                    width == band_width(sites@.len()),
            ;
            assert((band + 1) * band_width(sites@.len()) == width * (band + 1))
                by (nonlinear_arith)
                requires
                    width == band_width(sites@.len()),
            ;
            picks = picks.push(index as int);
        }
        band += 1;
    }
    proof {
        assert(picked_at(sites@, seeds@, picks));
    }
    seeds
}

/// The bands do not overlap: a place in an earlier band lies before every
/// place in a later band, so the five seeds come from five different places.
pub proof fn lemma_bands_do_not_overlap(count: nat, a: int, b: int, i: int, j: int)
    requires
        0 <= a < b,
        in_band(count, a, i),
        in_band(count, b, j),
    ensures
        i < j,
{
    let width = band_width(count) as int;
    assert((a + 1) * width <= b * width) by (nonlinear_arith)
        requires
            a + 1 <= b,
            width >= 0,
    ;
}

/// Seeds drawn from the bands are sites of the diagram.
pub proof fn lemma_banded_seeds_are_sites(sites: Seq<Point>, seeds: Seq<Point>)
    requires
        banded(sites, seeds),
    ensures
        sites.len() >= SEED_COUNT,
        forall|k: int| 0 <= k < seeds.len() ==> sites.contains(#[trigger] seeds[k]),
{
    let picks = choose|picks: Seq<int>| picked_at(sites, seeds, picks);
    let width = band_width(sites.len()) as int;
    assert(in_band(sites.len(), 0, picks[0]));
    assert(width >= 1);
    assert forall|k: int| 0 <= k < seeds.len() implies sites.contains(#[trigger] seeds[k]) by {
        assert(in_band(sites.len(), k, picks[k]));
        assert(k * width >= 0) by (nonlinear_arith)
            requires
                k >= 0,
                width >= 0,
        ;
        assert((k + 1) * width <= 5 * width) by (nonlinear_arith)
            requires
                k + 1 <= 5,
                width >= 0,
        ;
        assert(sites[picks[k]] == seeds[k]);
    }
}

} // verus!
