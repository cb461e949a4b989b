//! Setting a minefield up: placing the mines and counting, for every
//! tile, the neighbours that hold one.

use vstd::prelude::*;
use crate::field::adjacency_view;
use crate::field::Minefield;
use crate::grid::valid_extent;
use crate::grid::MinefieldError;
use crate::grid::TileMap;
use crate::laws::lemma_opened_wf;
use crate::model::count_mined;
use crate::model::lemma_count_bound;
use crate::model::MinefieldView;
use crate::reach::lemma_same_counts;
use crate::sample::is_taken;
use crate::sample::unique_rand;
use crate::state::GridSettings;
use crate::tile::MinefieldTile;

verus! {

/// The tile indices that occur in `mine_locations`.
pub open spec fn mine_set(mine_locations: Seq<u32>) -> Set<int> {
    Set::new(|i: int| 0 <= i <= u32::MAX && mine_locations.contains(i as u32))
}

/// Mine locations fit a grid of `cells` tiles when they are distinct tile
/// indices and leave at least one tile free.
pub open spec fn valid_mines(mine_locations: Seq<u32>, cells: nat) -> bool {
    &&& mine_locations.len() < cells
    &&& mine_locations.no_duplicates()
    &&& forall|k: int| 0 <= k < mine_locations.len() ==> mine_locations[k] < cells
}

/// An adjacency table fits a grid of `cells` tiles when it has one list
/// per tile, none too long for its mines to be counted in a `u32`.
pub open spec fn valid_adjacency(adjacency: Seq<Seq<(u32, u32)>>, cells: nat) -> bool {
    &&& adjacency.len() == cells
    &&& forall|i: int| 0 <= i < adjacency.len() ==> (#[trigger] adjacency[i]).len() <= u32::MAX
}

/// The field before the first click: every tile covered and unmarked,
/// mined where `mines` says, and holding the number of its mined
/// neighbours.
pub open spec fn fresh_field(
    map: TileMap,
    mines: Set<int>,
    adjacency: Seq<Seq<(u32, u32)>>,
) -> MinefieldView {
    MinefieldView {
        map,
        tiles: Seq::new(
            map.cells(),
            |i: int|
                MinefieldTile {
                    hidden: true,
                    contains_mine: mines.contains(i),
                    marked: None,
                    number_of_neighbor_mines: Some(count_mined(adjacency[i], map, mines) as u32),
                },
        ),
        adjacency,
    }
}

/// Distinct mine locations make as many mined tiles as there are
/// locations.
pub proof fn lemma_mine_set_len(mine_locations: Seq<u32>)
    requires
        mine_locations.no_duplicates(),
    ensures
        mine_set(mine_locations).finite(),
        mine_set(mine_locations).len() == mine_locations.len(),
    decreases mine_locations.len(),
{
    if mine_locations.len() == 0 {
        assert(mine_set(mine_locations) =~= Set::<int>::empty());
    } else {
        let rest = mine_locations.drop_last();
        let last = mine_locations.last();
        lemma_mine_set_len(rest);
        assert(!rest.contains(last)) by {
            if rest.contains(last) {
                let k = choose|k: int| 0 <= k < rest.len() && rest[k] == last;
                assert(mine_locations[k] == mine_locations[mine_locations.len() - 1]);
            }
        }
        assert(mine_set(mine_locations) =~= mine_set(rest).insert(last as int)) by {
            assert forall|i: int| mine_set(mine_locations).contains(i) implies mine_set(
                rest,
            ).insert(last as int).contains(i) by {
                let k = choose|k: int|
                    0 <= k < mine_locations.len() && mine_locations[k] == i as u32;
                if k < rest.len() {
                    assert(rest[k] == i as u32);
                }
            }
            assert forall|i: int| mine_set(rest).insert(last as int).contains(
                i,
            ) implies mine_set(mine_locations).contains(i) by {
                if i == last as int {
                    assert(mine_locations[mine_locations.len() - 1] == i as u32);
                } else {
                    let k = choose|k: int| 0 <= k < rest.len() && rest[k] == i as u32;
                    assert(mine_locations[k] == i as u32);
                }
            }
        }
        assert(!mine_set(rest).contains(last as int));
    }
}

/// A fresh field over fitting mines and a fitting table is well formed,
/// and its mined tiles are exactly the given ones.
pub proof fn lemma_fresh_field(map: TileMap, mines: Set<int>, adjacency: Seq<Seq<(u32, u32)>>)
    requires
        map.wf(),
        valid_adjacency(adjacency, map.cells()),
        forall|i: int| mines.contains(i) ==> 0 <= i < map.cells(),
    ensures
        fresh_field(map, mines, adjacency).wf(),
        fresh_field(map, mines, adjacency).untouched(),
        fresh_field(map, mines, adjacency).mines() == mines,
{
    let field = fresh_field(map, mines, adjacency);
    assert(field.mines() =~= mines);
    assert forall|i: int| field.has(i) implies (#[trigger] field.tiles[i]).number_of_neighbor_mines
        == Some(field.mined_neighbors(i) as u32) by {
        lemma_count_bound(adjacency[i], map, mines);
    }
}

/// Whether `mine_locations` fits a grid of `cells` tiles.
pub fn valid_mine_locations(mine_locations: &Vec<u32>, cells: u32) -> (valid: bool)
    ensures
        valid == valid_mines(mine_locations@, cells as nat),
{
    if mine_locations.len() >= cells as usize {
        return false;
    }
    let mut k: usize = 0;
    while k < mine_locations.len()
        invariant
            k <= mine_locations.len(),
            forall|a: int| 0 <= a < k ==> mine_locations@[a] < cells,
            forall|a: int, b: int| 0 <= a < b < k ==> mine_locations@[a] != mine_locations@[b],
        decreases mine_locations.len() - k,
    {
        if mine_locations[k] >= cells {
            return false;
        }
        let mut j: usize = 0;
        while j < k
            invariant
                j <= k < mine_locations.len(),
                forall|a: int| 0 <= a < j ==> mine_locations@[a] != mine_locations@[k as int],
            decreases k - j,
        {
            if mine_locations[j] == mine_locations[k] {
                return false;
            }
            j += 1;
        }
        k += 1;
    }
    true
}

/// Whether `adjacency` fits a grid of `cells` tiles.
pub fn valid_adjacency_table(adjacency: &Vec<Vec<(u32, u32)>>, cells: u32) -> (valid: bool)
    ensures
        valid == valid_adjacency(adjacency_view(adjacency@), cells as nat),
{
    if adjacency.len() != cells as usize {
        return false;
    }
    let mut i: usize = 0;
    while i < adjacency.len()
        invariant
            i <= adjacency.len(),
            forall|a: int| 0 <= a < i ==> (#[trigger] adjacency@[a])@.len() <= u32::MAX,
        decreases adjacency.len() - i,
    {
        if adjacency[i].len() > u32::MAX as usize {
            assert(adjacency_view(adjacency@)[i as int].len() > u32::MAX);
            return false;
        }
        i += 1;
    }
    assert forall|a: int| 0 <= a < adjacency@.len() implies (#[trigger] adjacency_view(
        adjacency@,
    )[a]).len() <= u32::MAX by {
        assert(adjacency@[a]@.len() <= u32::MAX);
    }
    true
}

/// The number of entries of `neighbors` that name a mined tile of the
/// grid.
pub fn count_mined_neighbors(
    map: &TileMap,
    mine_locations: &Vec<u32>,
    neighbors: &Vec<(u32, u32)>,
) -> (count: u32)
    requires
        map.wf(),
        neighbors@.len() <= u32::MAX,
    ensures
        count == count_mined(neighbors@, *map, mine_set(mine_locations@)),
{
    let mut count: u32 = 0;
    let mut k: usize = 0;
    while k < neighbors.len()
        invariant
            k <= neighbors.len(),
            neighbors@.len() <= u32::MAX,
            map.wf(),
            count <= k,
            count == count_mined(neighbors@.take(k as int), *map, mine_set(mine_locations@)),
        decreases neighbors.len() - k,
    {
        let neighbor = neighbors[k];
        assert(neighbors@.take(k + 1).drop_last() == neighbors@.take(k as int));
        assert(neighbors@.take(k + 1).last() == neighbor);
        match map.get(neighbor) {
            Some(index) => {
                if is_taken(mine_locations, index as u32) {
                    count += 1;
                }
            },
            None => {},
        }
        k += 1;
    }
    assert(neighbors@.take(k as int) == neighbors@);
    count
}

impl Minefield {
    /// The field, before the first click, of a grid of `columns` by `rows`
    /// tiles with a mine on each tile index of `mine_locations`;
    /// `adjacency` gives for each tile index the coordinates of the tile's
    /// neighbours.
    pub fn from_mines(
        columns: u32,
        rows: u32,
        mine_locations: &Vec<u32>,
        adjacency: Vec<Vec<(u32, u32)>>,
    ) -> (made: Result<Minefield, MinefieldError>)
        ensures
            made is Ok <==> valid_extent(columns, rows) && valid_mines(
                mine_locations@,
                (columns * rows) as nat,
            ) && valid_adjacency(adjacency_view(adjacency@), (columns * rows) as nat),
            made is Ok ==> made->Ok_0.wf() && made->Ok_0@ == fresh_field(
                TileMap { columns, rows },
                mine_set(mine_locations@),
                adjacency_view(adjacency@),
            ) && made->Ok_0@.mines().len() == mine_locations@.len(),
    {
        let tile_map = match TileMap::new(columns, rows) {
            Ok(tile_map) => tile_map,
            Err(error) => {
                return Err(error);
            },
        };
        let cells = tile_map.len();
        if !valid_mine_locations(mine_locations, cells) {
            return Err(MinefieldError::InvalidConfiguration);
        }
        if !valid_adjacency_table(&adjacency, cells) {
            return Err(MinefieldError::InvalidConfiguration);
        }
        let ghost mines = mine_set(mine_locations@);
        let ghost table = adjacency_view(adjacency@);
        let mut tiles: Vec<MinefieldTile> = Vec::new();
        let mut index: u32 = 0;
        while index < cells
            invariant
                index <= cells,
                cells == tile_map.cells(),
                tile_map.wf(),
                mines == mine_set(mine_locations@),
                table == adjacency_view(adjacency@),
                valid_adjacency(table, cells as nat),
                tiles@.len() == index,
                forall|i: int|
                    0 <= i < index ==> #[trigger] tiles@[i] == fresh_field(
                        tile_map,
                        mines,
                        table,
                    ).tiles[i],
            decreases cells - index,
        {
            let contains_mine = is_taken(mine_locations, index);
            assert(table[index as int] == adjacency@[index as int]@);
            let count = count_mined_neighbors(
                &tile_map,
                mine_locations,
                &adjacency[index as usize],
            );
            tiles.push(MinefieldTile::new(contains_mine, count));
            index += 1;
        }
        let made = Minefield { tile_map, tiles, adjacency };
        proof {
            made.lemma_view();
            assert(made@.tiles =~= fresh_field(tile_map, mines, table).tiles);
            lemma_fresh_field(tile_map, mines, table);
            lemma_mine_set_len(mine_locations@);
        }
        Ok(made)
    }
}

/// The field, before the first click, of a grid of `columns` by `rows`
/// tiles with `amount_of_mines` mines on tiles drawn at random; `adjacency`
/// gives for each tile index the coordinates of the tile's neighbours.
///
/// Which tiles hold the mines is not fixed; everything else is.
pub fn build_insert_new_minefieldtile_components_system(
    amount_of_mines: u32,
    columns: u32,
    rows: u32,
    adjacency: Vec<Vec<(u32, u32)>>,
) -> (made: Result<Minefield, MinefieldError>)
    ensures
        made is Ok <==> valid_extent(columns, rows) && amount_of_mines < columns * rows
            && valid_adjacency(adjacency_view(adjacency@), (columns * rows) as nat),
        made is Ok ==> made->Ok_0.wf() && made->Ok_0@.mines().len() == amount_of_mines
            && made->Ok_0@ == fresh_field(
            TileMap { columns, rows },
            made->Ok_0@.mines(),
            adjacency_view(adjacency@),
        ),
{
    let tile_map = match TileMap::new(columns, rows) {
        Ok(tile_map) => tile_map,
        Err(error) => {
            return Err(error);
        },
    };
    if amount_of_mines >= tile_map.len() {
        return Err(MinefieldError::InvalidConfiguration);
    }
    let mut mine_locations: Vec<u32> = Vec::new();
    let mut placed: u32 = 0;
    while placed < amount_of_mines
        invariant
            placed <= amount_of_mines < columns * rows,
            valid_extent(columns, rows),
            mine_locations@.len() == placed,
            mine_locations@.no_duplicates(),
            forall|k: int| 0 <= k < mine_locations@.len() ==> mine_locations@[k] < columns * rows,
        decreases amount_of_mines - placed,
    {
        let mine_location = unique_rand(&mine_locations, columns, rows);
        mine_locations.push(mine_location);
        placed += 1;
    }
    let made = Minefield::from_mines(columns, rows, &mine_locations, adjacency);
    proof {
        if made is Ok {
            lemma_fresh_field(
                TileMap { columns, rows },
                mine_set(mine_locations@),
                adjacency_view(adjacency@),
            );
        }
    }
    made
}

/// Sets up the game that `grid_settings` asks for: a field with the
/// difficulty's share of mines, on which the opening move has been made.
/// `adjacency` gives for each tile index the coordinates of the tile's
/// neighbours.
///
/// Which tiles hold the mines is not fixed; everything else is.
pub fn hexgrid_init(grid_settings: &GridSettings, adjacency: Vec<Vec<(u32, u32)>>) -> (made:
    Result<Minefield, MinefieldError>)
    ensures
        made is Ok <==> grid_settings.grid.wf() && valid_adjacency(
            adjacency_view(adjacency@),
            grid_settings.grid.cells(),
        ),
        made is Ok ==> made->Ok_0.wf() && made->Ok_0@.mines().len()
            == grid_settings.difficulty.mines_for(grid_settings.grid.cells()) && made->Ok_0@
            == fresh_field(
            grid_settings.grid,
            made->Ok_0@.mines(),
            adjacency_view(adjacency@),
        ).opened(),
{
    let grid = grid_settings.grid;
    let number_of_tiles = match grid.columns.checked_mul(grid.rows) {
        Some(number_of_tiles) => number_of_tiles,
        None => {
            return Err(MinefieldError::InvalidConfiguration);
        },
    };
    let amount_of_mines = grid_settings.difficulty.amount_of_mines(number_of_tiles);
    let mut field = match build_insert_new_minefieldtile_components_system(
        amount_of_mines,
        grid.columns,
        grid.rows,
        adjacency,
    ) {
        Ok(field) => field,
        Err(error) => {
            return Err(error);
        },
    };
    let ghost fresh = field@;
    field.reveal_one_init();
    proof {
        lemma_opened_wf(fresh);
        lemma_same_counts(fresh, fresh.opened());
    }
    Ok(field)
}

} // verus!
