//! The minefield in play: its tiles, and the queries on them.

use vstd::prelude::*;
use crate::grid::MinefieldError;
use crate::grid::TileMap;
use crate::model::MinefieldView;
use crate::tile::MinefieldTile;

verus! {

/// The neighbour lists of an adjacency table, one list per tile.
pub open spec fn adjacency_view(table: Seq<Vec<(u32, u32)>>) -> Seq<Seq<(u32, u32)>> {
    Seq::new(table.len(), |i: int| table[i]@)
}

/// All tiles of one game, with the map from coordinates to tiles and the
/// neighbours that the grid geometry gave for each tile.
pub struct Minefield {
    pub(crate) tile_map: TileMap,
    pub(crate) tiles: Vec<MinefieldTile>,
    pub(crate) adjacency: Vec<Vec<(u32, u32)>>,
}

impl View for Minefield {
    type V = MinefieldView;

    closed spec fn view(&self) -> MinefieldView {
        MinefieldView {
            map: self.tile_map,
            tiles: self.tiles@,
            adjacency: adjacency_view(self.adjacency@),
        }
    }
}

impl Minefield {
    /// The invariant that setting a field up establishes and every
    /// operation keeps.
    pub open spec fn wf(&self) -> bool {
        self@.wf()
    }

    /// How the parts of the field make up its model.
    pub(crate) proof fn lemma_view(&self)
        ensures
            self@.map == self.tile_map,
            self@.tiles == self.tiles@,
            self@.adjacency == adjacency_view(self.adjacency@),
    {
    }

    /// The map from coordinates to tile indices.
    pub fn tile_map(&self) -> (map: TileMap)
        ensures
            map == self@.map,
    {
        self.tile_map
    }

    /// The index of the tile at `coord`.
    pub fn locate(&self, coord: (u32, u32)) -> (index: Result<usize, MinefieldError>)
        requires
            self.wf(),
        ensures
            index is Ok <==> self@.map.contains(coord),
            index is Ok ==> index->Ok_0 == self@.map.index_of(coord) && self@.has(
                index->Ok_0 as int,
            ),
            index is Err ==> index->Err_0 == MinefieldError::MissingCell,
    {
        match self.tile_map.get(coord) {
            Some(index) => Ok(index),
            None => Err(MinefieldError::MissingCell),
        }
    }

    /// The tile at `coord`, or `None` where the grid has no such tile.
    pub fn tile(&self, coord: (u32, u32)) -> (tile: Option<MinefieldTile>)
        requires
            self.wf(),
        ensures
            tile == (if self@.map.contains(coord) {
                Some(self@.tiles[self@.map.index_of(coord)])
            } else {
                None
            }),
    {
        match self.locate(coord) {
            Ok(index) => Some(self.tiles[index]),
            Err(_) => None,
        }
    }

    /// Whether every tile without a mine has been uncovered.
    pub fn is_won(&self) -> (won: bool)
        requires
            self.wf(),
        ensures
            won == self@.won(),
    {
        let mut index: usize = 0;
        while index < self.tiles.len()
            invariant
                index <= self.tiles.len(),
                self.tiles@.len() == self@.map.cells(),
                self@.tiles == self.tiles@,
                forall|i: int|
                    0 <= i < index && !(#[trigger] self.tiles@[i]).contains_mine
                        ==> !self.tiles@[i].hidden,
            decreases self.tiles.len() - index,
        {
            if !self.tiles[index].contains_mine && self.tiles[index].hidden {
                return false;
            }
            index += 1;
        }
        true
    }

    /// Whether a mined tile has been uncovered.
    pub fn is_lost(&self) -> (lost: bool)
        requires
            self.wf(),
        ensures
            lost == self@.lost(),
    {
        let mut index: usize = 0;
        while index < self.tiles.len()
            invariant
                index <= self.tiles.len(),
                self.tiles@.len() == self@.map.cells(),
                self@.tiles == self.tiles@,
                forall|i: int| 0 <= i < index ==> !(#[trigger] self.tiles@[i]).exploded(),
            decreases self.tiles.len() - index,
        {
            if !self.tiles[index].hidden && self.tiles[index].contains_mine {
                return true;
            }
            index += 1;
        }
        false
    }
}

} // verus!
