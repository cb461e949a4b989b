//! Laws of the game: what holds of every field, every click and every
//! series of clicks.

use vstd::prelude::*;
use crate::grid::TileMap;
use crate::model::lemma_count_bound;
use crate::model::lemma_count_none;
use crate::model::lemma_count_zero;
use crate::model::MinefieldView;
use crate::model::PointerButton;
use crate::reach::lemma_reaches_start;
use crate::reach::lemma_reaches_step;
use crate::reach::lemma_reaches_through;
use crate::reach::lemma_reveal_stable;
use crate::reach::lemma_reveal_wf;
use crate::reach::lemma_with_tile_wf;
use crate::reach::same_mines;
use crate::tile::MinefieldTileMarker;

verus! {

/// No two tiles share a coordinate: tiles of the grid with the same index
/// lie at the same coordinate.
pub proof fn lemma_coordinates_distinct(map: TileMap, a: (u32, u32), b: (u32, u32))
    requires
        map.wf(),
        map.contains(a),
        map.contains(b),
        map.index_of(a) == map.index_of(b),
    ensures
        a == b,
{
    map.lemma_index_of(a);
    map.lemma_index_of(b);
}

/// A click keeps a field well formed, and moves no mine.
pub proof fn lemma_click_wf(field: MinefieldView, coord: (u32, u32), button: PointerButton)
    requires
        field.wf(),
    ensures
        field.click(coord, button).wf(),
        same_mines(field, field.click(coord, button)),
{
    if field.map.contains(coord) {
        field.map.lemma_index_of(coord);
        let index = field.map.index_of(coord);
        let tile = field.tiles[index];
        assert(tile.wf());
        match button {
            PointerButton::Primary => {
                if tile.marked == Some(MinefieldTileMarker::Flag) || !tile.hidden {
                } else if tile.contains_mine {
                    lemma_with_tile_wf(field, index, tile.uncovered());
                } else {
                    lemma_reveal_wf(field, index);
                }
            },
            PointerButton::Secondary => {
                lemma_with_tile_wf(field, index, tile.remarked());
            },
            PointerButton::Middle => {},
        }
    }
}

/// The opening move keeps a field well formed, and moves no mine.
pub proof fn lemma_opened_wf(field: MinefieldView)
    requires
        field.wf(),
    ensures
        field.opened().wf(),
        same_mines(field, field.opened()),
{
    if exists|i: int| field.first_clear(i) {
        lemma_click_wf(
            field,
            field.map.coord_of(choose|i: int| field.first_clear(i)),
            PointerButton::Primary,
        );
    }
}

/// A series of clicks keeps a field well formed, and moves no mine.
pub proof fn lemma_play_wf(field: MinefieldView, clicks: Seq<((u32, u32), PointerButton)>)
    requires
        field.wf(),
    ensures
        field.play(clicks).wf(),
        same_mines(field, field.play(clicks)),
    decreases clicks.len(),
{
    if clicks.len() > 0 {
        lemma_play_wf(field, clicks.drop_last());
        lemma_click_wf(field.play(clicks.drop_last()), clicks.last().0, clicks.last().1);
    }
}

/// A reveal is idempotent: a second reveal from the same tile changes
/// nothing.
pub proof fn lemma_reveal_idempotent(field: MinefieldView, start: int)
    requires
        field.wf(),
        field.has(start),
    ensures
        field.reveal_from(start).reveal_from(start) == field.reveal_from(start),
{
    lemma_reveal_wf(field, start);
    lemma_reveal_stable(field.reveal_from(start), start);
}

/// A primary click is idempotent: the same click again changes nothing.
pub proof fn lemma_primary_click_idempotent(field: MinefieldView, coord: (u32, u32))
    requires
        field.wf(),
    ensures
        field.click(coord, PointerButton::Primary).click(coord, PointerButton::Primary)
            == field.click(coord, PointerButton::Primary),
{
    if field.map.contains(coord) {
        field.map.lemma_index_of(coord);
        let index = field.map.index_of(coord);
        let tile = field.tiles[index];
        if tile.marked == Some(MinefieldTileMarker::Flag) || !tile.hidden {
        } else if tile.contains_mine {
        } else {
            lemma_reaches_start(field, index);
        }
    }
}

/// No click covers a tile again.
pub proof fn lemma_click_monotone(
    field: MinefieldView,
    coord: (u32, u32),
    button: PointerButton,
    index: int,
)
    requires
        field.wf(),
        field.has(index),
        !field.tiles[index].hidden,
    ensures
        field.click(coord, button).tiles[index] == field.tiles[index],
{
    if field.map.contains(coord) {
        field.map.lemma_index_of(coord);
    }
}

/// Once a tile is uncovered, no series of clicks covers it again.
pub proof fn lemma_play_monotone(
    field: MinefieldView,
    clicks: Seq<((u32, u32), PointerButton)>,
    index: int,
)
    requires
        field.wf(),
        field.has(index),
        !field.tiles[index].hidden,
    ensures
        !field.play(clicks).tiles[index].hidden,
        field.play(clicks).tiles[index] == field.tiles[index],
    decreases clicks.len(),
{
    if clicks.len() > 0 {
        let earlier = field.play(clicks.drop_last());
        lemma_play_monotone(field, clicks.drop_last(), index);
        lemma_play_wf(field, clicks.drop_last());
        lemma_click_monotone(earlier, clicks.last().0, clicks.last().1, index);
    }
}

/// A reveal uncovers exactly the tile it starts at and the neighbours of
/// the spreading tiles it reaches: the region of tiles without mined
/// neighbours around the start, and the border of that region.
pub proof fn lemma_cascade_exact(field: MinefieldView, start: int, index: int)
    requires
        field.wf(),
        field.has(start),
        field.has(index),
        field.tiles[index].hidden,
    ensures
        !field.reveal_from(start).tiles[index].hidden <==> index == start || exists|from: int|
            field.has(from) && field.reaches(start, from) && field.spreads(from)
                && #[trigger] field.adjacent(from, index),
{
    if !field.reveal_from(start).tiles[index].hidden && index != start {
        let from = lemma_reaches_through(field, start, index);
    }
    if index == start {
        lemma_reaches_start(field, start);
    }
    if exists|from: int|
        field.has(from) && field.reaches(start, from) && field.spreads(from)
            && #[trigger] field.adjacent(from, index) {
        let from = choose|from: int|
            field.has(from) && field.reaches(start, from) && field.spreads(from)
                && #[trigger] field.adjacent(from, index);
        lemma_reaches_step(field, start, from, index);
    }
}

/// A reveal leaves every tile that it does not reach as it was.
pub proof fn lemma_cascade_stops(field: MinefieldView, start: int, index: int)
    requires
        field.wf(),
        field.has(start),
        field.has(index),
        !field.reaches(start, index),
    ensures
        field.reveal_from(start).tiles[index] == field.tiles[index],
{
}

/// No tile that a reveal reaches, but for the one it starts at, holds a
/// mine.
pub proof fn lemma_cascade_spares_mines(field: MinefieldView, start: int, index: int)
    requires
        field.wf(),
        field.reaches(start, index),
        index != start,
    ensures
        !field.tiles[index].contains_mine,
{
    let from = lemma_reaches_through(field, start, index);
    let w = choose|w: int|
        0 <= w < field.adjacency[from].len() && field.map.contains(
            #[trigger] field.adjacency[from][w],
        ) && field.map.index_of(field.adjacency[from][w]) == index;
    lemma_count_bound(field.adjacency[from], field.map, field.mines());
    assert(field.tiles[from].number_of_neighbor_mines == Some(
        field.mined_neighbors(from) as u32,
    ));
    lemma_count_zero(field.adjacency[from], field.map, field.mines(), w);
    field.map.lemma_index_of(field.adjacency[from][w]);
}

/// A primary click on a flagged tile changes nothing.
pub proof fn lemma_flag_protects(field: MinefieldView, coord: (u32, u32))
    requires
        field.map.contains(coord),
        field.tiles[field.map.index_of(coord)].marked == Some(MinefieldTileMarker::Flag),
    ensures
        field.click(coord, PointerButton::Primary) == field,
{
}

/// Three secondary clicks on the same tile lead back to the field they
/// started from.
pub proof fn lemma_marking_cycle(field: MinefieldView, coord: (u32, u32))
    requires
        field.wf(),
    ensures
        field.click(coord, PointerButton::Secondary).click(coord, PointerButton::Secondary).click(
            coord,
            PointerButton::Secondary,
        ) == field,
{
    if field.map.contains(coord) {
        field.map.lemma_index_of(coord);
        let index = field.map.index_of(coord);
        let once = field.click(coord, PointerButton::Secondary);
        let twice = once.click(coord, PointerButton::Secondary);
        let thrice = twice.click(coord, PointerButton::Secondary);
        assert(thrice.tiles =~= field.tiles);
    }
}

/// On a covered, unmarked tile, the first secondary click sets a flag, the
/// second a question mark, and the third clears the marker.
pub proof fn lemma_marking_order(field: MinefieldView, coord: (u32, u32))
    requires
        field.wf(),
        field.map.contains(coord),
        field.tiles[field.map.index_of(coord)].hidden,
        field.tiles[field.map.index_of(coord)].marked is None,
    ensures
        ({
            let index = field.map.index_of(coord);
            let once = field.click(coord, PointerButton::Secondary);
            let twice = once.click(coord, PointerButton::Secondary);
            let thrice = twice.click(coord, PointerButton::Secondary);
            &&& once.tiles[index].marked == Some(MinefieldTileMarker::Flag)
            &&& twice.tiles[index].marked == Some(MinefieldTileMarker::QuestionMark)
            &&& thrice.tiles[index].marked is None
        }),
{
    field.map.lemma_index_of(coord);
}

/// A primary click on a covered mine without a flag uncovers that tile
/// alone, and loses the game.
pub proof fn lemma_mine_click(field: MinefieldView, coord: (u32, u32))
    requires
        field.wf(),
        field.map.contains(coord),
        field.tiles[field.map.index_of(coord)].hidden,
        field.tiles[field.map.index_of(coord)].marked != Some(MinefieldTileMarker::Flag),
        field.tiles[field.map.index_of(coord)].contains_mine,
    ensures
        field.click(coord, PointerButton::Primary).lost(),
        field.click(coord, PointerButton::Primary).tiles[field.map.index_of(coord)].exploded(),
        forall|j: int|
            field.has(j) && j != field.map.index_of(coord) ==> field.click(
                coord,
                PointerButton::Primary,
            ).tiles[j] == field.tiles[j],
{
    field.map.lemma_index_of(coord);
    let index = field.map.index_of(coord);
    let after = field.click(coord, PointerButton::Primary);
    assert(after.has(index) && after.tiles[index].exploded());
}

/// A lost game stays lost, whatever is clicked.
pub proof fn lemma_lost_stays(field: MinefieldView, clicks: Seq<((u32, u32), PointerButton)>)
    requires
        field.wf(),
        field.lost(),
    ensures
        field.play(clicks).lost(),
{
    let index = choose|i: int| field.has(i) && (#[trigger] field.tiles[i]).exploded();
    lemma_play_monotone(field, clicks, index);
    lemma_play_wf(field, clicks);
    assert(field.play(clicks).has(index) && field.play(clicks).tiles[index].exploded());
}

/// On a field without mines, every tile spreads: a reveal uncovers
/// whatever the adjacency joins to the tile it starts at.
pub proof fn lemma_clear_field_spreads(field: MinefieldView, index: int)
    requires
        field.wf(),
        forall|i: int| field.has(i) ==> !(#[trigger] field.tiles[i]).contains_mine,
        field.has(index),
    ensures
        field.spreads(index),
{
    assert(field.mines() =~= Set::<int>::empty());
    lemma_count_none(field.adjacency[index], field.map);
    assert(field.tiles[index].number_of_neighbor_mines == Some(
        field.mined_neighbors(index) as u32,
    ));
}

} // verus!
