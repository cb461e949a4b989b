//! The mathematical model of a minefield: which tiles hold mines, how
//! many mined neighbours a tile has, which tiles a reveal reaches, and
//! what a click does.

use vstd::prelude::*;
use crate::grid::TileMap;
use crate::tile::MinefieldTile;
use crate::tile::MinefieldTileMarker;

verus! {

/// The pointer button of a click.
#[derive(Clone, Copy, Debug, PartialEq, Eq, Structural)]
pub enum PointerButton {
    /// Uncovers a tile.
    Primary,
    /// Cycles a tile's marker.
    Secondary,
    /// Does nothing.
    Middle,
}

/// How many entries of `neighbors` name a tile of the grid whose index is
/// in `mines`. An entry that occurs twice counts twice.
pub open spec fn count_mined(neighbors: Seq<(u32, u32)>, map: TileMap, mines: Set<int>) -> nat
    decreases neighbors.len(),
{
    if neighbors.len() == 0 {
        0
    } else {
        let rest = count_mined(neighbors.drop_last(), map, mines);
        if map.contains(neighbors.last()) && mines.contains(map.index_of(neighbors.last())) {
            rest + 1
        } else {
            rest
        }
    }
}

/// No list holds more mined neighbours than it has entries.
pub proof fn lemma_count_bound(neighbors: Seq<(u32, u32)>, map: TileMap, mines: Set<int>)
    ensures
        count_mined(neighbors, map, mines) <= neighbors.len(),
    decreases neighbors.len(),
{
    if neighbors.len() > 0 {
        lemma_count_bound(neighbors.drop_last(), map, mines);
    }
}

/// A list without mined neighbours names no mined tile of the grid.
pub proof fn lemma_count_zero(neighbors: Seq<(u32, u32)>, map: TileMap, mines: Set<int>, k: int)
    requires
        count_mined(neighbors, map, mines) == 0,
        0 <= k < neighbors.len(),
    ensures
        !(map.contains(neighbors[k]) && mines.contains(map.index_of(neighbors[k]))),
    decreases neighbors.len(),
{
    if k < neighbors.len() - 1 {
        lemma_count_zero(neighbors.drop_last(), map, mines, k);
    }
}

/// Without mines, no list has a mined neighbour.
pub proof fn lemma_count_none(neighbors: Seq<(u32, u32)>, map: TileMap)
    ensures
        count_mined(neighbors, map, Set::<int>::empty()) == 0,
    decreases neighbors.len(),
{
    if neighbors.len() > 0 {
        lemma_count_none(neighbors.drop_last(), map);
    }
}

/// A minefield as a value: the grid, the state of each tile by index, and
/// for each tile the coordinates that the grid geometry gives as its
/// neighbours. A neighbour coordinate outside the grid names no tile.
pub struct MinefieldView {
    pub map: TileMap,
    pub tiles: Seq<MinefieldTile>,
    pub adjacency: Seq<Seq<(u32, u32)>>,
}

impl MinefieldView {
    /// Whether `index` is the index of a tile.
    pub open spec fn has(self, index: int) -> bool {
        0 <= index < self.map.cells()
    }

    /// The indices of the tiles that hold a mine.
    pub open spec fn mines(self) -> Set<int> {
        Set::new(|i: int| self.has(i) && self.tiles[i].contains_mine)
    }

    /// The number of neighbours of tile `index` that hold a mine.
    pub open spec fn mined_neighbors(self, index: int) -> nat {
        count_mined(self.adjacency[index], self.map, self.mines())
    }

    /// Tile `to` is a neighbour of tile `from`.
    pub open spec fn adjacent(self, from: int, to: int) -> bool {
        exists|k: int|
            0 <= k < self.adjacency[from].len() && self.map.contains(
                #[trigger] self.adjacency[from][k],
            ) && self.map.index_of(self.adjacency[from][k]) == to
    }

    /// A tile through which a reveal spreads: it holds no mine and none of
    /// its neighbours does.
    pub open spec fn spreads(self, index: int) -> bool {
        !self.tiles[index].contains_mine && self.tiles[index].number_of_neighbor_mines == Some(
            0u32,
        )
    }

    /// A walk over tiles in which every step leaves a spreading tile for
    /// one of its neighbours.
    pub open spec fn is_path(self, path: Seq<int>) -> bool {
        &&& path.len() > 0
        &&& forall|k: int| 0 <= k < path.len() ==> self.has(#[trigger] path[k])
        &&& forall|k: int|
            0 <= k < path.len() - 1 ==> self.spreads(#[trigger] path[k]) && self.adjacent(
                path[k],
                path[k + 1],
            )
    }

    /// A reveal that starts at `start` reaches `target`: the two are joined
    /// by a walk whose tiles, but for the last, all spread.
    pub open spec fn reaches(self, start: int, target: int) -> bool {
        exists|path: Seq<int>|
            #![trigger self.is_path(path)]
            self.is_path(path) && path.first() == start && path.last() == target
    }

    /// Every tile knows the number of its mined neighbours.
    pub open spec fn counted(self) -> bool {
        forall|i: int|
            self.has(i) ==> (#[trigger] self.tiles[i]).number_of_neighbor_mines == Some(
                self.mined_neighbors(i) as u32,
            )
    }

    /// Every neighbour of an uncovered spreading tile is uncovered too.
    pub open spec fn settled(self) -> bool {
        forall|i: int, k: int|
            #![trigger self.adjacency[i][k]]
            self.has(i) && !self.tiles[i].hidden && self.spreads(i) && 0 <= k
                < self.adjacency[i].len() && self.map.contains(self.adjacency[i][k])
                ==> !self.tiles[self.map.index_of(self.adjacency[i][k])].hidden
    }

    /// The invariant of a minefield in play.
    pub open spec fn wf(self) -> bool {
        &&& self.map.wf()
        &&& self.tiles.len() == self.map.cells()
        &&& self.adjacency.len() == self.map.cells()
        &&& forall|i: int| self.has(i) ==> (#[trigger] self.adjacency[i]).len() <= u32::MAX
        &&& forall|i: int| self.has(i) ==> (#[trigger] self.tiles[i]).wf()
        &&& self.counted()
        &&& self.settled()
    }

    /// The field with tile `index` replaced by `tile`.
    pub open spec fn with_tile(self, index: int, tile: MinefieldTile) -> MinefieldView {
        MinefieldView { tiles: self.tiles.update(index, tile), ..self }
    }

    /// The field after a reveal from tile `start`: every covered tile that
    /// the reveal reaches is uncovered, and nothing else changes.
    pub open spec fn reveal_from(self, start: int) -> MinefieldView {
        MinefieldView {
            tiles: Seq::new(
                self.tiles.len(),
                |i: int|
                    if self.tiles[i].hidden && self.reaches(start, i) {
                        self.tiles[i].uncovered()
                    } else {
                        self.tiles[i]
                    },
            ),
            ..self
        }
    }

    /// The field after a click on `coord`.
    ///
    /// A click outside the grid does nothing. A primary click does nothing
    /// to a flagged or an uncovered tile; it uncovers a mined tile alone,
    /// and starts a reveal from any other. A secondary click moves a covered
    /// tile to its next marker.
    pub open spec fn click(self, coord: (u32, u32), button: PointerButton) -> MinefieldView {
        if !self.map.contains(coord) {
            self
        } else {
            let index = self.map.index_of(coord);
            let tile = self.tiles[index];
            match button {
                PointerButton::Primary => {
                    if tile.marked == Some(MinefieldTileMarker::Flag) || !tile.hidden {
                        self
                    } else if tile.contains_mine {
                        self.with_tile(index, tile.uncovered())
                    } else {
                        self.reveal_from(index)
                    }
                },
                PointerButton::Secondary => self.with_tile(index, tile.remarked()),
                PointerButton::Middle => self,
            }
        }
    }

    /// The field after a series of clicks, first to last.
    pub open spec fn play(self, clicks: Seq<((u32, u32), PointerButton)>) -> MinefieldView
        decreases clicks.len(),
    {
        if clicks.len() == 0 {
            self
        } else {
            self.play(clicks.drop_last()).click(clicks.last().0, clicks.last().1)
        }
    }

    /// The tile at `coord` is not what it is in `other`.
    pub open spec fn differs_at(self, other: MinefieldView, coord: (u32, u32)) -> bool {
        self.map.contains(coord) && self.tiles[self.map.index_of(coord)]
            != other.tiles[self.map.index_of(coord)]
    }

    /// Tile `index` is the first, in the order of the indices, that has no
    /// mined neighbour.
    pub open spec fn first_clear(self, index: int) -> bool {
        &&& self.has(index)
        &&& self.tiles[index].number_of_neighbor_mines == Some(0u32)
        &&& forall|j: int|
            0 <= j < index ==> (#[trigger] self.tiles[j]).number_of_neighbor_mines != Some(0u32)
    }

    /// The field after the opening move: a primary click on the first tile
    /// that has no mined neighbour. A field without such a tile stays as it
    /// is.
    pub open spec fn opened(self) -> MinefieldView {
        if exists|i: int| self.first_clear(i) {
            self.click(
                self.map.coord_of(choose|i: int| self.first_clear(i)),
                PointerButton::Primary,
            )
        } else {
            self
        }
    }

    /// Every tile is covered and unmarked.
    pub open spec fn untouched(self) -> bool {
        forall|i: int|
            self.has(i) ==> (#[trigger] self.tiles[i]).hidden && self.tiles[i].marked is None
    }

    /// The game is won: every tile without a mine is uncovered.
    pub open spec fn won(self) -> bool {
        forall|i: int|
            self.has(i) && !(#[trigger] self.tiles[i]).contains_mine ==> !self.tiles[i].hidden
    }

    /// The game is lost: a mined tile is uncovered.
    pub open spec fn lost(self) -> bool {
        exists|i: int| self.has(i) && (#[trigger] self.tiles[i]).exploded()
    }
}

} // verus!
