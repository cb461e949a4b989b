//! Clicks: what a pointer button does to the tile under it.

use vstd::prelude::*;
use crate::field::Minefield;
use crate::model::PointerButton;
use crate::reach::lemma_with_tile_wf;
use crate::tile::MinefieldTileMarker;

verus! {

impl Minefield {
    /// Applies a click of `button` on the tile at `target`.
    ///
    /// A target outside the grid is ignored. The primary button leaves a
    /// flagged or an uncovered tile alone, uncovers a mined tile, and
    /// otherwise starts a reveal. The secondary button moves a covered tile
    /// to its next marker.
    ///
    /// Returns the coordinates of the tiles that changed, each once.
    pub fn apply_click_to_tile(&mut self, target: (u32, u32), button: PointerButton) -> (changed:
        Vec<(u32, u32)>)
        requires
            old(self).wf(),
        ensures
            final(self).wf(),
            final(self)@ == old(self)@.click(target, button),
            changed@.no_duplicates(),
            forall|c: (u32, u32)| changed@.contains(c) <==> old(self)@.differs_at(final(self)@, c),
    {
        let ghost before = self@;
        proof {
            self.lemma_view();
        }
        let mut changed: Vec<(u32, u32)> = Vec::new();
        let index = match self.locate(target) {
            Ok(index) => index,
            Err(_) => {
                return changed;
            },
        };
        let mut tile = self.tiles[index];
        proof {
            assert(before.tiles.update(index as int, tile) =~= before.tiles);
            assert(tile.wf());
        }
        match button {
            PointerButton::Primary => {
                let flagged = match tile.marked {
                    Some(MinefieldTileMarker::Flag) => true,
                    _ => false,
                };
                if flagged || !tile.hidden {
                    return changed;
                }
                if !tile.contains_mine {
                    return self.reveal_tile_floodfill(target);
                }
                tile.unhide();
            },
            PointerButton::Secondary => {
                if !tile.hidden {
                    return changed;
                }
                tile.cycle_marker();
            },
            PointerButton::Middle => {
                return changed;
            },
        }
        self.tiles[index] = tile;
        changed.push(target);
        proof {
            self.lemma_view();
            lemma_with_tile_wf(before, index as int, tile);
            assert(self@.tiles =~= before.with_tile(index as int, tile).tiles);
            assert(changed@ =~= seq![target]);
            assert forall|c: (u32, u32)| changed@.contains(c) <==> before.differs_at(self@, c) by {
                if before.map.contains(c) {
                    before.map.lemma_index_of(c);
                    before.map.lemma_index_of(target);
                }
                if c == target {
                    assert(changed@[0] == c);
                }
            }
        }
        changed
    }

    /// Makes the opening move: a primary click on the first tile, in the
    /// order of the indices, that has no mined neighbour. Where every tile
    /// has one, nothing happens.
    ///
    /// Returns the coordinates of the tiles that changed, each once.
    pub fn reveal_one_init(&mut self) -> (changed: Vec<(u32, u32)>)
        requires
            old(self).wf(),
        ensures
            final(self).wf(),
            final(self)@ == old(self)@.opened(),
            changed@.no_duplicates(),
            forall|c: (u32, u32)| changed@.contains(c) <==> old(self)@.differs_at(final(self)@, c),
    {
        let ghost before = self@;
        proof {
            self.lemma_view();
        }
        let mut index: usize = 0;
        while index < self.tiles.len()
            invariant
                self@ == before,
                before == old(self)@,
                self.tiles@ == before.tiles,
                self.tile_map == before.map,
                before.wf(),
                index <= self.tiles@.len(),
                forall|j: int|
                    0 <= j < index ==> (#[trigger] before.tiles[j]).number_of_neighbor_mines
                        != Some(0u32),
            decreases self.tiles@.len() - index,
        {
            let clear = match self.tiles[index].number_of_neighbor_mines {
                Some(n) => n == 0,
                None => false,
            };
            if clear {
                let target = self.tile_map.coord(index);
                proof {
                    assert(before.first_clear(index as int));
                    let chosen = choose|i: int| before.first_clear(i);
                    assert(chosen == index) by {
                        if chosen < index {
                            assert(before.tiles[chosen].number_of_neighbor_mines != Some(0u32));
                        }
                        if index < chosen {
                            assert(before.tiles[index as int].number_of_neighbor_mines != Some(
                                0u32,
                            ));
                        }
                    }
                }
                return self.apply_click_to_tile(target, PointerButton::Primary);
            }
            index += 1;
        }
        proof {
            assert forall|i: int| !before.first_clear(i) by {
                if before.has(i) {
                    assert(before.tiles[i].number_of_neighbor_mines != Some(0u32));
                }
            }
        }
        Vec::new()
    }
}

} // verus!
