//! The one game in progress: the handle that the application keeps from
//! one new game to the next.

use vstd::prelude::*;
use crate::field::adjacency_view;
use crate::field::Minefield;
use crate::grid::MinefieldError;
use crate::model::MinefieldView;
use crate::model::PointerButton;
use crate::setup::fresh_field;
use crate::setup::hexgrid_init;
use crate::setup::valid_adjacency;
use crate::state::GridSettings;
use crate::tile::MinefieldTile;

verus! {

/// At most one minefield at a time. Before the first game is set up, and
/// after a game is torn down, there is none, and clicks are ignored.
pub struct Game {
    field: Option<Minefield>,
}

impl View for Game {
    type V = Option<MinefieldView>;

    closed spec fn view(&self) -> Option<MinefieldView> {
        match self.field {
            Some(field) => Some(field@),
            None => None,
        }
    }
}

impl Game {
    #[verifier::type_invariant]
    spec fn inv(self) -> bool {
        self.field is Some ==> self.field->Some_0.wf()
    }

    /// A handle without a game.
    pub fn new() -> (game: Game)
        ensures
            game@ is None,
    {
        Game { field: None }
    }

    /// Sets up a new game in place of the one in progress, if any.
    /// `adjacency` gives for each tile index the coordinates of the tile's
    /// neighbours. Where the settings or the table are unusable, the handle
    /// stays as it was.
    ///
    /// Which tiles hold the mines is not fixed; everything else is.
    pub fn initialize(&mut self, grid_settings: &GridSettings, adjacency: Vec<Vec<(u32, u32)>>) -> (done:
        Result<(), MinefieldError>)
        ensures
            done is Ok <==> grid_settings.grid.wf() && valid_adjacency(
                adjacency_view(adjacency@),
                grid_settings.grid.cells(),
            ),
            done is Err ==> final(self)@ == old(self)@,
            done is Ok ==> final(self)@ is Some && final(self)@->Some_0.wf(),
            done is Ok ==> final(self)@->Some_0.mines().len()
                == grid_settings.difficulty.mines_for(grid_settings.grid.cells()),
            done is Ok ==> final(self)@->Some_0 == fresh_field(
                grid_settings.grid,
                final(self)@->Some_0.mines(),
                adjacency_view(adjacency@),
            ).opened(),
    {
        match hexgrid_init(grid_settings, adjacency) {
            Ok(field) => {
                self.field = Some(field);
                Ok(())
            },
            Err(error) => Err(error),
        }
    }

    /// Tears the game in progress down.
    pub fn clear(&mut self)
        ensures
            final(self)@ is None,
    {
        self.field = None;
    }

    /// Applies a click of `button` on the tile at `coord` to the game in
    /// progress. Without a game, and for a coordinate outside the grid,
    /// nothing happens.
    ///
    /// Returns the coordinates of the tiles that changed, each once.
    pub fn handle_click(&mut self, coord: (u32, u32), button: PointerButton) -> (changed: Vec<
        (u32, u32),
    >)
        ensures
            final(self)@ == (match old(self)@ {
                Some(field) => Some(field.click(coord, button)),
                None => None,
            }),
            changed@.no_duplicates(),
            forall|c: (u32, u32)|
                changed@.contains(c) <==> old(self)@ is Some && old(self)@->Some_0.differs_at(
                    final(self)@->Some_0,
                    c,
                ),
    {
        proof {
            use_type_invariant(&*self);
        }
        let mut taken: Option<Minefield> = None;
        core::mem::swap(&mut self.field, &mut taken);
        match taken {
            Some(mut field) => {
                let changed = field.apply_click_to_tile(coord, button);
                self.field = Some(field);
                changed
            },
            None => Vec::new(),
        }
    }

    /// The tile at `coord` of the game in progress.
    pub fn tile(&self, coord: (u32, u32)) -> (tile: Option<MinefieldTile>)
        ensures
            tile == (match self@ {
                Some(field) => if field.map.contains(coord) {
                    Some(field.tiles[field.map.index_of(coord)])
                } else {
                    None
                },
                None => None,
            }),
    {
        proof {
            use_type_invariant(self);
        }
        match &self.field {
            Some(field) => field.tile(coord),
            None => None,
        }
    }

    /// Whether a game is in progress and every tile without a mine has
    /// been uncovered.
    pub fn is_won(&self) -> (won: bool)
        ensures
            won == (self@ is Some && self@->Some_0.won()),
    {
        proof {
            use_type_invariant(self);
        }
        match &self.field {
            Some(field) => field.is_won(),
            None => false,
        }
    }

    /// Whether a game is in progress and a mined tile has been uncovered.
    pub fn is_lost(&self) -> (lost: bool)
        ensures
            lost == (self@ is Some && self@->Some_0.lost()),
    {
        proof {
            use_type_invariant(self);
        }
        match &self.field {
            Some(field) => field.is_lost(),
            None => false,
        }
    }
}

} // verus!
