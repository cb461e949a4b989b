//! What a reveal reaches: facts about walks over spreading tiles, and
//! about the field that a reveal leaves.

use vstd::prelude::*;
use crate::model::MinefieldView;
use crate::tile::MinefieldTile;

verus! {

/// Two fields share their grid, their adjacency and the place and count of
/// their mines, so that they differ in covers and markers only.
pub open spec fn same_mines(a: MinefieldView, b: MinefieldView) -> bool {
    &&& a.map == b.map
    &&& a.adjacency == b.adjacency
    &&& a.tiles.len() == b.tiles.len()
    &&& forall|i: int|
        0 <= i < a.tiles.len() ==> (#[trigger] a.tiles[i]).contains_mine
            == b.tiles[i].contains_mine && a.tiles[i].number_of_neighbor_mines
            == b.tiles[i].number_of_neighbor_mines
}

/// A reveal reaches the tile it starts at.
pub proof fn lemma_reaches_start(field: MinefieldView, start: int)
    requires
        field.has(start),
    ensures
        field.reaches(start, start),
{
    let path = seq![start];
    assert(field.is_path(path));
    assert(path.first() == start && path.last() == start);
}

/// A reveal that reaches a spreading tile reaches each of its neighbours.
pub proof fn lemma_reaches_step(field: MinefieldView, start: int, from: int, to: int)
    requires
        field.reaches(start, from),
        field.spreads(from),
        field.adjacent(from, to),
        field.has(to),
    ensures
        field.reaches(start, to),
{
    let path = choose|path: Seq<int>|
        #![trigger field.is_path(path)]
        field.is_path(path) && path.first() == start && path.last() == from;
    let longer = path.push(to);
    assert forall|k: int| 0 <= k < longer.len() implies field.has(#[trigger] longer[k]) by {
        if k < path.len() {
            assert(longer[k] == path[k]);
        }
    }
    assert forall|k: int| 0 <= k < longer.len() - 1 implies field.spreads(#[trigger] longer[k])
        && field.adjacent(longer[k], longer[k + 1]) by {
        assert(longer[k] == path[k]);
        if k < path.len() - 1 {
            assert(longer[k + 1] == path[k + 1]);
        }
    }
    assert(field.is_path(longer));
    assert(longer.first() == start && longer.last() == to);
}

/// A reveal reaches any other tile through a spreading tile next to it.
pub proof fn lemma_reaches_through(field: MinefieldView, start: int, target: int) -> (from: int)
    requires
        field.reaches(start, target),
        start != target,
    ensures
        field.has(from),
        field.reaches(start, from),
        field.spreads(from),
        field.adjacent(from, target),
{
    let path = choose|path: Seq<int>|
        #![trigger field.is_path(path)]
        field.is_path(path) && path.first() == start && path.last() == target;
    let shorter = path.drop_last();
    let from = shorter.last();
    assert(path.len() > 1);
    assert(from == path[path.len() - 2]);
    assert forall|k: int| 0 <= k < shorter.len() implies field.has(#[trigger] shorter[k]) by {
        assert(shorter[k] == path[k]);
    }
    assert forall|k: int| 0 <= k < shorter.len() - 1 implies field.spreads(
        #[trigger] shorter[k],
    ) && field.adjacent(shorter[k], shorter[k + 1]) by {
        assert(shorter[k] == path[k]);
        assert(shorter[k + 1] == path[k + 1]);
    }
    assert(field.is_path(shorter));
    assert(shorter.first() == start);
    from
}

/// Fields that differ in covers and markers only have the same walks.
pub proof fn lemma_same_reach(a: MinefieldView, b: MinefieldView, start: int, target: int)
    requires
        same_mines(a, b),
        a.tiles.len() == a.map.cells(),
        a.reaches(start, target),
    ensures
        b.reaches(start, target),
{
    let path = choose|path: Seq<int>|
        #![trigger a.is_path(path)]
        a.is_path(path) && path.first() == start && path.last() == target;
    assert forall|k: int| 0 <= k < path.len() - 1 implies b.spreads(#[trigger] path[k])
        && b.adjacent(path[k], path[k + 1]) by {
        assert(a.spreads(path[k]) && a.adjacent(path[k], path[k + 1]));
        assert(a.has(path[k]));
        let w = choose|w: int|
            0 <= w < a.adjacency[path[k]].len() && a.map.contains(
                #[trigger] a.adjacency[path[k]][w],
            ) && a.map.index_of(a.adjacency[path[k]][w]) == path[k + 1];
        assert(b.map.contains(b.adjacency[path[k]][w]));
    }
    assert(b.is_path(path));
}

/// In a settled field, a walk that starts on an uncovered tile ends on
/// one.
pub proof fn lemma_settled_walk(field: MinefieldView, path: Seq<int>)
    requires
        field.settled(),
        field.is_path(path),
        !field.tiles[path.first()].hidden,
    ensures
        !field.tiles[path.last()].hidden,
    decreases path.len(),
{
    if path.len() > 1 {
        let shorter = path.drop_last();
        assert forall|k: int| 0 <= k < shorter.len() implies field.has(#[trigger] shorter[k]) by {
            assert(shorter[k] == path[k]);
        }
        assert forall|k: int| 0 <= k < shorter.len() - 1 implies field.spreads(
            #[trigger] shorter[k],
        ) && field.adjacent(shorter[k], shorter[k + 1]) by {
            assert(shorter[k] == path[k]);
            assert(shorter[k + 1] == path[k + 1]);
        }
        assert(shorter.first() == path.first());
        lemma_settled_walk(field, shorter);
        let from = path[path.len() - 2];
        assert(from == shorter.last());
        assert(field.has(from) && field.spreads(from) && field.adjacent(from, path.last()));
        let w = choose|w: int|
            0 <= w < field.adjacency[from].len() && field.map.contains(
                #[trigger] field.adjacency[from][w],
            ) && field.map.index_of(field.adjacency[from][w]) == path.last();
        assert(!field.tiles[field.map.index_of(field.adjacency[from][w])].hidden);
    }
}

/// In a settled field, a reveal from an uncovered tile reaches uncovered
/// tiles only.
pub proof fn lemma_settled_reach(field: MinefieldView, start: int, target: int)
    requires
        field.settled(),
        !field.tiles[start].hidden,
        field.reaches(start, target),
    ensures
        !field.tiles[target].hidden,
{
    let path = choose|path: Seq<int>|
        #![trigger field.is_path(path)]
        field.is_path(path) && path.first() == start && path.last() == target;
    lemma_settled_walk(field, path);
}

/// Fields that differ in covers and markers only have the same mined
/// tiles, and count the same mined neighbours.
pub proof fn lemma_same_counts(a: MinefieldView, b: MinefieldView)
    requires
        same_mines(a, b),
        a.tiles.len() == a.map.cells(),
        a.counted(),
    ensures
        a.mines() == b.mines(),
        b.counted(),
{
    assert(a.mines() =~= b.mines());
    assert forall|i: int| b.has(i) implies (#[trigger] b.tiles[i]).number_of_neighbor_mines
        == Some(b.mined_neighbors(i) as u32) by {
        assert(a.tiles[i].number_of_neighbor_mines == Some(a.mined_neighbors(i) as u32));
    }
}

/// A reveal keeps a field well formed.
pub proof fn lemma_reveal_wf(field: MinefieldView, start: int)
    requires
        field.wf(),
        field.has(start),
    ensures
        field.reveal_from(start).wf(),
        same_mines(field, field.reveal_from(start)),
        !field.reveal_from(start).tiles[start].hidden,
{
    let after = field.reveal_from(start);
    lemma_reaches_start(field, start);
    assert(same_mines(field, after));
    lemma_same_counts(field, after);
    assert forall|i: int| after.has(i) implies (#[trigger] after.tiles[i]).wf() by {
        assert(field.tiles[i].wf());
    }
    assert forall|i: int, k: int|
        #![trigger after.adjacency[i][k]]
        after.has(i) && !after.tiles[i].hidden && after.spreads(i) && 0 <= k
            < after.adjacency[i].len() && after.map.contains(
            after.adjacency[i][k],
        ) implies !after.tiles[after.map.index_of(after.adjacency[i][k])].hidden by {
        let to = field.map.index_of(field.adjacency[i][k]);
        field.map.lemma_index_of(field.adjacency[i][k]);
        assert(field.spreads(i));
        if field.tiles[i].hidden {
            assert(field.reaches(start, i));
            assert(field.adjacent(i, to));
            lemma_reaches_step(field, start, i, to);
        } else {
            assert(!field.tiles[to].hidden);
        }
    }
}

/// Replacing one tile keeps a field well formed, as long as the mine and
/// the count stay, no uncovered tile is covered again, and no spreading
/// tile is uncovered.
pub proof fn lemma_with_tile_wf(field: MinefieldView, index: int, tile: MinefieldTile)
    requires
        field.wf(),
        field.has(index),
        tile.wf(),
        tile.contains_mine == field.tiles[index].contains_mine,
        tile.number_of_neighbor_mines == field.tiles[index].number_of_neighbor_mines,
        !field.tiles[index].hidden ==> !tile.hidden,
        !tile.hidden && field.tiles[index].hidden ==> tile.contains_mine,
    ensures
        field.with_tile(index, tile).wf(),
        same_mines(field, field.with_tile(index, tile)),
{
    let after = field.with_tile(index, tile);
    assert(same_mines(field, after));
    lemma_same_counts(field, after);
    assert forall|i: int| after.has(i) implies (#[trigger] after.tiles[i]).wf() by {
        assert(field.tiles[i].wf());
    }
    assert forall|i: int, k: int|
        #![trigger after.adjacency[i][k]]
        after.has(i) && !after.tiles[i].hidden && after.spreads(i) && 0 <= k
            < after.adjacency[i].len() && after.map.contains(
            after.adjacency[i][k],
        ) implies !after.tiles[after.map.index_of(after.adjacency[i][k])].hidden by {
        let to = field.map.index_of(field.adjacency[i][k]);
        field.map.lemma_index_of(field.adjacency[i][k]);
        assert(field.spreads(i));
        assert(!field.tiles[i].hidden);
        assert(!field.tiles[to].hidden);
    }
}

/// A second reveal from the same tile changes nothing: after a reveal
/// from a tile, every tile that a reveal from it reaches is uncovered.
pub proof fn lemma_reveal_stable(field: MinefieldView, start: int)
    requires
        field.wf(),
        field.has(start),
        !field.tiles[start].hidden,
    ensures
        field.reveal_from(start) == field,
{
    assert forall|i: int| 0 <= i < field.tiles.len() implies !(field.tiles[i].hidden
        && field.reaches(start, i)) by {
        if field.reaches(start, i) {
            lemma_settled_reach(field, start, i);
        }
    }
    assert(field.reveal_from(start).tiles =~= field.tiles);
}

} // verus!
