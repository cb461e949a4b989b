//! A single tile of the minefield and its marking state machine.

use vstd::prelude::*;

verus! {

/// The annotation a player may leave on a covered tile.
#[derive(Clone, Copy, Debug, PartialEq, Eq, Structural)]
pub enum MinefieldTileMarker {
    Flag,
    QuestionMark,
}

/// What a tile shows to the player.
#[derive(Clone, Copy, Debug, PartialEq, Eq, Structural)]
pub enum TileTexture {
    /// A covered tile without a marker.
    Covered,
    /// A covered tile carrying a flag.
    Flag,
    /// A covered tile carrying a question mark.
    QuestionMark,
    /// An uncovered tile that held a mine.
    Exploded,
    /// An uncovered, mine-free tile with the number of mined neighbours.
    Number(u32),
}

/// The state of one tile.
#[derive(Clone, Copy, Debug, PartialEq, Eq)]
pub struct MinefieldTile {
    pub hidden: bool,
    pub contains_mine: bool,
    pub marked: Option<MinefieldTileMarker>,
    /// `None` only before the count is calculated; a tile without mined
    /// neighbours holds `Some(0)`.
    pub number_of_neighbor_mines: Option<u32>,
}

/// The marker that follows `marked` in the cycle none, flag, question mark.
pub open spec fn next_marker(marked: Option<MinefieldTileMarker>) -> Option<MinefieldTileMarker> {
    match marked {
        None => Some(MinefieldTileMarker::Flag),
        Some(MinefieldTileMarker::Flag) => Some(MinefieldTileMarker::QuestionMark),
        Some(MinefieldTileMarker::QuestionMark) => None,
    }
}

impl MinefieldTile {
    /// A marker is only ever present on a covered tile.
    pub open spec fn wf(self) -> bool {
        !self.hidden ==> self.marked is None
    }

    /// The tile after it has been uncovered: shown, with any marker cleared.
    pub open spec fn uncovered(self) -> MinefieldTile {
        MinefieldTile { hidden: false, marked: None, ..self }
    }

    /// The tile after a marking request: a covered tile moves to the next
    /// marker, an uncovered tile stays as it is.
    pub open spec fn remarked(self) -> MinefieldTile {
        if self.hidden {
            MinefieldTile { marked: next_marker(self.marked), ..self }
        } else {
            self
        }
    }

    /// An uncovered tile that held a mine.
    pub open spec fn exploded(self) -> bool {
        !self.hidden && self.contains_mine
    }

    /// What the tile shows.
    pub open spec fn shown(self) -> TileTexture {
        if self.hidden {
            match self.marked {
                None => TileTexture::Covered,
                Some(MinefieldTileMarker::Flag) => TileTexture::Flag,
                Some(MinefieldTileMarker::QuestionMark) => TileTexture::QuestionMark,
            }
        } else if self.contains_mine {
            TileTexture::Exploded
        } else {
            match self.number_of_neighbor_mines {
                Some(n) => TileTexture::Number(n),
                None => TileTexture::Covered,
            }
        }
    }

    /// A covered, unmarked tile with a known number of mined neighbours.
    pub fn new(contains_mine: bool, mines: u32) -> (tile: Self)
        ensures
            tile == (MinefieldTile {
                hidden: true,
                contains_mine,
                marked: None,
                number_of_neighbor_mines: Some(mines),
            }),
    {
        MinefieldTile {
            hidden: true,
            contains_mine,
            marked: None,
            number_of_neighbor_mines: Some(mines),
        }
    }

    /// Uncovers the tile and clears its marker.
    pub fn unhide(&mut self)
        ensures
            *final(self) == old(self).uncovered(),
    {
        self.hidden = false;
        self.marked = None;
    }

    /// Moves a covered tile to its next marker; an uncovered tile is left
    /// untouched.
    pub fn cycle_marker(&mut self)
        ensures
            *final(self) == old(self).remarked(),
    {
        if self.hidden {
            self.marked = match self.marked {
                None => Some(MinefieldTileMarker::Flag),
                Some(MinefieldTileMarker::Flag) => Some(MinefieldTileMarker::QuestionMark),
                Some(MinefieldTileMarker::QuestionMark) => None,
            };
        }
    }

    /// What the tile shows to the player.
    pub fn texture(&self) -> (shown: TileTexture)
        ensures
            shown == self.shown(),
    {
        if self.hidden {
            match self.marked {
                None => TileTexture::Covered,
                Some(MinefieldTileMarker::Flag) => TileTexture::Flag,
                Some(MinefieldTileMarker::QuestionMark) => TileTexture::QuestionMark,
            }
        } else if self.contains_mine {
            TileTexture::Exploded
        } else {
            match self.number_of_neighbor_mines {
                Some(n) => TileTexture::Number(n),
                None => TileTexture::Covered,
            }
        }
    }
}

} // verus!
