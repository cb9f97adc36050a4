//! The two random draws behind a new tile, made with the thread's generator of the
//! `rand` crate. The draws themselves are not proved: their contracts say what `rand`
//! does, whatever number its generator hands out.

use vstd::prelude::*;
use rand::seq::SliceRandom;
use crate::board::TileType;

verus! {

/// The relative likelihood with which a new tile gets `rank`: the lower starting rank,
/// shown as 2, is three times as likely as the next.
pub open spec fn tile_weight_of(rank: TileType) -> u32 {
    if rank == 1 {
        3
    } else {
        1
    }
}

/// The relative likelihood with which a new tile gets `rank`.
pub fn tile_weight(rank: TileType) -> (weight: u32)
    ensures
        weight == tile_weight_of(rank),
{
    if rank == 1 {
        3
    } else {
        1
    }
}

/// Calls `rand::seq::SliceRandom::choose` on `positions` with `rand::thread_rng()`.
/// `choose` answers `None` for an empty slice and otherwise hands out one element of the
/// slice, whichever index the generator gives; the contract claims only that.
#[verifier::external_body]
pub(crate) fn choose_position(positions: &Vec<(usize, usize)>) -> (chosen: Option<(usize, usize)>)
    ensures
        positions@.len() == 0 ==> chosen is None,
        positions@.len() > 0 ==> chosen is Some && positions@.contains(chosen->0),
{
    positions.choose(&mut rand::thread_rng()).copied()
}

/// Calls `rand::seq::SliceRandom::choose_weighted` on `ranks` with `rand::thread_rng()`
/// and `tile_weight` as the weight of each rank. `choose_weighted` fails for an empty
/// slice, for a weight below zero and for weights that are all zero; `tile_weight` is at
/// least 1, so a slice that is not empty yields one of its elements. The weights are
/// summed as `u32`, which the bound on the length keeps from overflowing.
#[verifier::external_body]
pub(crate) fn choose_weighted_rank(ranks: &Vec<TileType>) -> (chosen: Option<TileType>)
    requires
        3 * ranks@.len() <= u32::MAX,
    ensures
        ranks@.len() == 0 ==> chosen is None,
        ranks@.len() > 0 ==> chosen is Some && ranks@.contains(chosen->0),
{
    ranks.choose_weighted(&mut rand::thread_rng(), |rank| tile_weight(*rank)).ok().copied()
}

} // verus!
