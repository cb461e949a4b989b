//! Drawing the places of the mines: each draw picks, uniformly, one of the
//! tiles that no earlier draw has taken.

use vstd::prelude::*;
use rand::Rng;
use crate::grid::valid_extent;

verus! {

/// The number of indices below `bound` that do not occur in `taken`.
pub open spec fn free_below(taken: Seq<u32>, bound: nat) -> nat
    decreases bound,
{
    if bound == 0 {
        0
    } else {
        let rest = free_below(taken, (bound - 1) as nat);
        if taken.contains((bound - 1) as u32) {
            rest
        } else {
            rest + 1
        }
    }
}

/// Taking one more index uses up at most one free index, and none where
/// the index is not below the bound.
pub proof fn lemma_free_push(taken: Seq<u32>, index: u32, bound: nat)
    requires
        bound <= u32::MAX + 1,
    ensures
        free_below(taken.push(index), bound) <= free_below(taken, bound) <= free_below(
            taken.push(index),
            bound,
        ) + 1,
        index >= bound ==> free_below(taken, bound) == free_below(taken.push(index), bound),
    decreases bound,
{
    if bound > 0 {
        let below = (bound - 1) as nat;
        let top = below as u32;
        lemma_free_push(taken, index, below);
        let more = taken.push(index);
        assert(more.contains(top) <==> taken.contains(top) || top == index) by {
            if taken.contains(top) {
                let k = choose|k: int| 0 <= k < taken.len() && taken[k] == top;
                assert(more[k] == top);
            }
            if top == index {
                assert(more[more.len() - 1] == top);
            }
        }
    }
}

/// As long as fewer indices are taken than the bound, one is free.
pub proof fn lemma_free_remains(taken: Seq<u32>, bound: nat)
    requires
        bound <= u32::MAX + 1,
    ensures
        free_below(taken, bound) + taken.len() >= bound,
    decreases taken.len(),
{
    if taken.len() == 0 {
        lemma_free_none_taken(bound);
        assert(taken =~= Seq::<u32>::empty());
    } else {
        let rest = taken.drop_last();
        lemma_free_remains(rest, bound);
        lemma_free_push(rest, taken.last(), bound);
        assert(rest.push(taken.last()) =~= taken);
    }
}

/// With nothing taken, every index is free.
pub proof fn lemma_free_none_taken(bound: nat)
    ensures
        free_below(Seq::<u32>::empty(), bound) == bound,
    decreases bound,
{
    if bound > 0 {
        lemma_free_none_taken((bound - 1) as nat);
    }
}

/// Whether `index` occurs in `taken`.
pub fn is_taken(taken: &Vec<u32>, index: u32) -> (found: bool)
    ensures
        found == taken@.contains(index),
{
    let mut k: usize = 0;
    while k < taken.len()
        invariant
            k <= taken.len(),
            forall|j: int| 0 <= j < k ==> taken@[j] != index,
        decreases taken.len() - k,
    {
        if taken[k] == index {
            return true;
        }
        k += 1;
    }
    false
}

/// The number of indices below `cells` that do not occur in `taken`.
pub fn free_cells(taken: &Vec<u32>, cells: u32) -> (free: u32)
    ensures
        free == free_below(taken@, cells as nat),
{
    let mut free: u32 = 0;
    let mut index: u32 = 0;
    while index < cells
        invariant
            index <= cells,
            free <= index,
            free == free_below(taken@, index as nat),
        decreases cells - index,
    {
        if !is_taken(taken, index) {
            free += 1;
        }
        index += 1;
    }
    free
}

/// The free index with exactly `skip` free indices below it.
pub fn nth_free(taken: &Vec<u32>, cells: u32, skip: u32) -> (index: u32)
    requires
        skip < free_below(taken@, cells as nat),
    ensures
        index < cells,
        !taken@.contains(index),
        free_below(taken@, index as nat) == skip,
{
    let mut seen: u32 = 0;
    let mut index: u32 = 0;
    loop
        invariant
            index <= cells,
            seen <= skip,
            seen == free_below(taken@, index as nat),
            skip < free_below(taken@, cells as nat),
        decreases cells - index,
    {
        if !is_taken(taken, index) {
            if seen == skip {
                return index;
            }
            seen += 1;
        }
        index += 1;
    }
}

/// Calls `Rng::random_range` on `rand::rng()` with the range from zero up
/// to, and without, `bound`. The range is not empty, so the call returns,
/// and what it returns lies in the range. Nothing more is known of it.
#[verifier::external_body]
fn random_below(bound: u32) -> (drawn: u32)
    requires
        bound > 0,
    ensures
        drawn < bound,
{
    rand::rng().random_range(0..bound)
}

/// The index of a tile, drawn at random among those that do not occur in
/// `mine_locations`.
pub fn unique_rand(mine_locations: &Vec<u32>, columns: u32, rows: u32) -> (mine_location: u32)
    requires
        valid_extent(columns, rows),
        mine_locations@.len() < columns * rows,
    ensures
        mine_location < columns * rows,
        !mine_locations@.contains(mine_location),
{
    let cells = columns * rows;
    proof {
        lemma_free_remains(mine_locations@, cells as nat);
    }
    let free = free_cells(mine_locations, cells);
    let skip = random_below(free);
    nth_free(mine_locations, cells, skip)
}

} // verus!
