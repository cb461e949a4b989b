use hex_minesweeper::field::Minefield;
use hex_minesweeper::grid::MinefieldError;
use hex_minesweeper::grid::TileMap;
use hex_minesweeper::model::PointerButton;
use hex_minesweeper::setup::build_insert_new_minefieldtile_components_system;
use hex_minesweeper::setup::count_mined_neighbors;
use hex_minesweeper::setup::hexgrid_init;
use hex_minesweeper::setup::valid_adjacency_table;
use hex_minesweeper::setup::valid_mine_locations;
use hex_minesweeper::state::GameDifficulty;
use hex_minesweeper::state::GridSettings;
use hex_minesweeper::tile::MinefieldTile;
use hex_minesweeper::tile::MinefieldTileMarker;
use hex_minesweeper::tile::TileTexture;

/// The neighbours of a hexagonal tile in a grid whose odd rows are shifted
/// half a tile to the right.
fn hex_neighbors(x: u32, y: u32, columns: u32, rows: u32) -> Vec<(u32, u32)> {
    let shifts: [(i64, i64); 6] = if y % 2 == 0 {
        [(-1, 0), (1, 0), (-1, -1), (0, -1), (-1, 1), (0, 1)]
    } else {
        [(-1, 0), (1, 0), (0, -1), (1, -1), (0, 1), (1, 1)]
    };
    let mut neighbors = Vec::new();
    for (dx, dy) in shifts {
        let nx = i64::from(x) + dx;
        let ny = i64::from(y) + dy;
        if nx >= 0 && ny >= 0 && nx < i64::from(columns) && ny < i64::from(rows) {
            neighbors.push((nx as u32, ny as u32));
        }
    }
    neighbors
}

fn hex_table(columns: u32, rows: u32) -> Vec<Vec<(u32, u32)>> {
    let mut table = Vec::new();
    for y in 0..rows {
        for x in 0..columns {
            table.push(hex_neighbors(x, y, columns, rows));
        }
    }
    table
}

fn field_4x4_one_mine() -> Minefield {
    Minefield::from_mines(4, 4, &vec![4], hex_table(4, 4)).unwrap()
}

fn sorted(mut coords: Vec<(u32, u32)>) -> Vec<(u32, u32)> {
    coords.sort();
    coords
}

fn all_coords(columns: u32, rows: u32) -> Vec<(u32, u32)> {
    let mut coords = Vec::new();
    for x in 0..columns {
        for y in 0..rows {
            coords.push((x, y));
        }
    }
    coords
}

fn mined_tiles(field: &Minefield, columns: u32, rows: u32) -> Vec<(u32, u32)> {
    all_coords(columns, rows)
        .into_iter()
        .filter(|c| field.tile(*c).unwrap().contains_mine)
        .collect()
}

#[test]
fn from_mines_places_the_mine_and_counts_neighbors() {
    let field = field_4x4_one_mine();
    for coord in all_coords(4, 4) {
        let tile = field.tile(coord).unwrap();
        let expected_count = match coord {
            (0, 0) | (1, 0) | (1, 1) | (0, 2) | (1, 2) => 1,
            _ => 0,
        };
        assert_eq!(
            tile,
            MinefieldTile {
                hidden: true,
                contains_mine: coord == (0, 1),
                marked: None,
                number_of_neighbor_mines: Some(expected_count),
            }
        );
    }
}

#[test]
fn from_mines_counts_several_mines() {
    let field = Minefield::from_mines(3, 3, &vec![0, 2, 4], hex_table(3, 3)).unwrap();
    // Mines at (0,0), (2,0) and (1,1).
    assert_eq!(field.tile((1, 0)).unwrap().number_of_neighbor_mines, Some(3));
    assert_eq!(field.tile((0, 1)).unwrap().number_of_neighbor_mines, Some(2));
    assert_eq!(field.tile((2, 1)).unwrap().number_of_neighbor_mines, Some(2));
    assert_eq!(field.tile((1, 1)).unwrap().number_of_neighbor_mines, Some(1));
    assert_eq!(field.tile((0, 0)).unwrap().number_of_neighbor_mines, Some(0));
    assert_eq!(field.tile((2, 0)).unwrap().number_of_neighbor_mines, Some(1));
    assert_eq!(field.tile((0, 2)).unwrap().number_of_neighbor_mines, Some(0));
    assert_eq!(field.tile((1, 2)).unwrap().number_of_neighbor_mines, Some(1));
    assert_eq!(field.tile((2, 2)).unwrap().number_of_neighbor_mines, Some(1));
}

#[test]
fn neighbor_outside_the_grid_is_skipped() {
    let table = vec![vec![(1, 0), (7, 7), (0, 9)], vec![(0, 0), (2, 0)]];
    let field = Minefield::from_mines(2, 1, &vec![1], table).unwrap();
    assert_eq!(field.tile((0, 0)).unwrap().number_of_neighbor_mines, Some(1));
    assert_eq!(field.tile((1, 0)).unwrap().number_of_neighbor_mines, Some(0));
    let mut field = field;
    assert_eq!(field.apply_click_to_tile((0, 0), PointerButton::Primary), vec![(0, 0)]);
}

#[test]
fn repeated_neighbor_counts_each_time() {
    let table = vec![vec![(1, 0), (1, 0)], vec![]];
    let field = Minefield::from_mines(2, 1, &vec![1], table).unwrap();
    assert_eq!(field.tile((0, 0)).unwrap().number_of_neighbor_mines, Some(2));
}

#[test]
fn count_mined_neighbors_counts_listed_mines() {
    let map = TileMap::new(4, 4).unwrap();
    let mines = vec![4, 5, 15];
    assert_eq!(count_mined_neighbors(&map, &mines, &vec![(0, 1), (1, 1), (2, 1), (3, 3)]), 3);
    assert_eq!(count_mined_neighbors(&map, &mines, &vec![(0, 0), (4, 1), (0, 4)]), 0);
    assert_eq!(count_mined_neighbors(&map, &mines, &vec![]), 0);
}

#[test]
fn from_mines_rejects_bad_configurations() {
    assert_eq!(
        Minefield::from_mines(0, 4, &vec![], vec![]).err(),
        Some(MinefieldError::InvalidConfiguration)
    );
    assert!(matches!(
        Minefield::from_mines(4, 0, &vec![], vec![]),
        Err(MinefieldError::InvalidConfiguration)
    ));
    assert!(matches!(
        Minefield::from_mines(65536, 65536, &vec![], vec![]),
        Err(MinefieldError::InvalidConfiguration)
    ));
    // A mine twice.
    assert!(matches!(
        Minefield::from_mines(2, 2, &vec![1, 1], hex_table(2, 2)),
        Err(MinefieldError::InvalidConfiguration)
    ));
    // A mine outside the grid.
    assert!(matches!(
        Minefield::from_mines(2, 2, &vec![4], hex_table(2, 2)),
        Err(MinefieldError::InvalidConfiguration)
    ));
    // As many mines as tiles.
    assert!(matches!(
        Minefield::from_mines(2, 2, &vec![0, 1, 2, 3], hex_table(2, 2)),
        Err(MinefieldError::InvalidConfiguration)
    ));
    // A table for another grid.
    assert!(matches!(
        Minefield::from_mines(2, 2, &vec![0], hex_table(2, 3)),
        Err(MinefieldError::InvalidConfiguration)
    ));
    assert!(Minefield::from_mines(2, 2, &vec![0, 1, 2], hex_table(2, 2)).is_ok());
}

#[test]
fn validity_checks_agree_with_from_mines() {
    assert!(valid_mine_locations(&vec![3, 0, 2], 4));
    assert!(valid_mine_locations(&vec![], 1));
    assert!(!valid_mine_locations(&vec![], 0));
    assert!(!valid_mine_locations(&vec![0, 1, 2, 3], 4));
    assert!(!valid_mine_locations(&vec![0, 2, 0], 4));
    assert!(!valid_mine_locations(&vec![4], 4));
    assert!(valid_adjacency_table(&hex_table(3, 2), 6));
    assert!(!valid_adjacency_table(&hex_table(3, 2), 5));
}

#[test]
fn generate_places_exactly_the_requested_mines() {
    for amount in [0u32, 1, 14, 50, 99] {
        let field =
            build_insert_new_minefieldtile_components_system(amount, 10, 10, hex_table(10, 10))
                .unwrap();
        let mines = mined_tiles(&field, 10, 10);
        assert_eq!(mines.len(), amount as usize);
        for coord in all_coords(10, 10) {
            let tile = field.tile(coord).unwrap();
            let expected = hex_neighbors(coord.0, coord.1, 10, 10)
                .into_iter()
                .filter(|n| mines.contains(n))
                .count();
            assert_eq!(tile.number_of_neighbor_mines, Some(expected as u32));
            assert!(tile.hidden);
            assert_eq!(tile.marked, None);
        }
    }
}

#[test]
fn generate_fills_all_but_one_tile() {
    let field =
        build_insert_new_minefieldtile_components_system(15, 4, 4, hex_table(4, 4)).unwrap();
    assert_eq!(mined_tiles(&field, 4, 4).len(), 15);
    let field = build_insert_new_minefieldtile_components_system(0, 1, 1, vec![vec![]]).unwrap();
    assert_eq!(mined_tiles(&field, 1, 1).len(), 0);
}

#[test]
fn generate_rejects_bad_configurations() {
    assert!(matches!(
        build_insert_new_minefieldtile_components_system(16, 4, 4, hex_table(4, 4)),
        Err(MinefieldError::InvalidConfiguration)
    ));
    assert!(matches!(
        build_insert_new_minefieldtile_components_system(0, 0, 0, vec![]),
        Err(MinefieldError::InvalidConfiguration)
    ));
    assert!(matches!(
        build_insert_new_minefieldtile_components_system(3, 4, 4, hex_table(4, 3)),
        Err(MinefieldError::InvalidConfiguration)
    ));
    assert!(matches!(
        build_insert_new_minefieldtile_components_system(3, 4294967295, 2, vec![]),
        Err(MinefieldError::InvalidConfiguration)
    ));
}

#[test]
fn cascade_stops_at_the_tiles_next_to_the_mine() {
    let mut field = field_4x4_one_mine();
    assert_eq!(field.tile((3, 2)).unwrap().number_of_neighbor_mines, Some(0));
    let changed = field.apply_click_to_tile((3, 2), PointerButton::Primary);
    assert_eq!(changed[0], (3, 2));
    let mut expected = all_coords(4, 4);
    expected.retain(|c| *c != (0, 0) && *c != (0, 1));
    assert_eq!(sorted(changed), sorted(expected.clone()));
    for coord in all_coords(4, 4) {
        let tile = field.tile(coord).unwrap();
        assert_eq!(tile.hidden, !expected.contains(&coord));
    }
    // The tiles next to the mine are uncovered and show their count.
    for coord in [(1, 0), (1, 1), (0, 2), (1, 2)] {
        assert_eq!(field.tile(coord).unwrap().texture(), TileTexture::Number(1));
    }
    // The corner behind them has no neighbour without mined neighbours.
    assert_eq!(field.tile((0, 0)).unwrap().texture(), TileTexture::Covered);
    assert!(!field.is_won());
    assert!(!field.is_lost());
}

#[test]
fn click_on_a_numbered_tile_uncovers_it_alone() {
    let mut field = field_4x4_one_mine();
    assert_eq!(field.apply_click_to_tile((1, 1), PointerButton::Primary), vec![(1, 1)]);
    for coord in all_coords(4, 4) {
        assert_eq!(field.tile(coord).unwrap().hidden, coord != (1, 1));
    }
}

#[test]
fn field_without_mines_is_uncovered_by_one_click() {
    let mut field = Minefield::from_mines(5, 6, &vec![], hex_table(5, 6)).unwrap();
    let changed = field.apply_click_to_tile((2, 3), PointerButton::Primary);
    assert_eq!(sorted(changed), sorted(all_coords(5, 6)));
    for coord in all_coords(5, 6) {
        assert_eq!(field.tile(coord).unwrap().texture(), TileTexture::Number(0));
    }
    assert!(field.is_won());
    assert!(!field.is_lost());
}

#[test]
fn reveal_twice_changes_nothing_the_second_time() {
    let mut field = field_4x4_one_mine();
    let first = field.reveal_tile_floodfill((3, 3));
    assert_eq!(first.len(), 14);
    let after_first: Vec<MinefieldTile> =
        all_coords(4, 4).into_iter().map(|c| field.tile(c).unwrap()).collect();
    let second = field.reveal_tile_floodfill((3, 3));
    assert_eq!(second, Vec::new());
    let after_second: Vec<MinefieldTile> =
        all_coords(4, 4).into_iter().map(|c| field.tile(c).unwrap()).collect();
    assert_eq!(after_first, after_second);
}

#[test]
fn reveal_outside_the_grid_does_nothing() {
    let mut field = field_4x4_one_mine();
    assert_eq!(field.reveal_tile_floodfill((4, 0)), Vec::new());
    assert_eq!(field.reveal_tile_floodfill((0, 4)), Vec::new());
    assert!(all_coords(4, 4).into_iter().all(|c| field.tile(c).unwrap().hidden));
}

#[test]
fn reveal_clears_markers_on_the_way() {
    let mut field = field_4x4_one_mine();
    field.apply_click_to_tile((2, 2), PointerButton::Secondary);
    field.apply_click_to_tile((1, 1), PointerButton::Secondary);
    field.apply_click_to_tile((1, 1), PointerButton::Secondary);
    assert_eq!(field.tile((2, 2)).unwrap().marked, Some(MinefieldTileMarker::Flag));
    assert_eq!(field.tile((1, 1)).unwrap().marked, Some(MinefieldTileMarker::QuestionMark));
    field.apply_click_to_tile((3, 3), PointerButton::Primary);
    for coord in [(2, 2), (1, 1)] {
        let tile = field.tile(coord).unwrap();
        assert!(!tile.hidden);
        assert_eq!(tile.marked, None);
    }
}

#[test]
fn uncovered_tiles_stay_uncovered() {
    let mut field = field_4x4_one_mine();
    field.apply_click_to_tile((3, 2), PointerButton::Primary);
    let uncovered: Vec<(u32, u32)> =
        all_coords(4, 4).into_iter().filter(|c| !field.tile(*c).unwrap().hidden).collect();
    assert_eq!(uncovered.len(), 14);
    for coord in all_coords(4, 4) {
        for button in [PointerButton::Secondary, PointerButton::Primary, PointerButton::Middle] {
            field.apply_click_to_tile(coord, button);
            for seen in &uncovered {
                let tile = field.tile(*seen).unwrap();
                assert!(!tile.hidden);
                assert_eq!(tile.marked, None);
            }
        }
    }
}

#[test]
fn flag_protects_a_tile_from_the_primary_button() {
    let mut field = field_4x4_one_mine();
    for coord in [(0, 1), (3, 3)] {
        assert_eq!(field.apply_click_to_tile(coord, PointerButton::Secondary), vec![coord]);
        let flagged = field.tile(coord).unwrap();
        assert_eq!(flagged.marked, Some(MinefieldTileMarker::Flag));
        assert_eq!(field.apply_click_to_tile(coord, PointerButton::Primary), Vec::new());
        assert_eq!(field.tile(coord).unwrap(), flagged);
    }
    assert!(all_coords(4, 4).into_iter().all(|c| field.tile(c).unwrap().hidden));
    assert!(!field.is_lost());
}

#[test]
fn question_mark_does_not_protect_a_tile() {
    let mut field = field_4x4_one_mine();
    field.apply_click_to_tile((0, 1), PointerButton::Secondary);
    field.apply_click_to_tile((0, 1), PointerButton::Secondary);
    assert_eq!(field.tile((0, 1)).unwrap().marked, Some(MinefieldTileMarker::QuestionMark));
    assert_eq!(field.apply_click_to_tile((0, 1), PointerButton::Primary), vec![(0, 1)]);
    assert!(field.is_lost());
}

#[test]
fn three_secondary_clicks_return_to_no_marker() {
    let mut field = field_4x4_one_mine();
    let start = field.tile((2, 1)).unwrap();
    assert_eq!(field.apply_click_to_tile((2, 1), PointerButton::Secondary), vec![(2, 1)]);
    assert_eq!(field.tile((2, 1)).unwrap().marked, Some(MinefieldTileMarker::Flag));
    assert_eq!(field.tile((2, 1)).unwrap().texture(), TileTexture::Flag);
    assert_eq!(field.apply_click_to_tile((2, 1), PointerButton::Secondary), vec![(2, 1)]);
    assert_eq!(field.tile((2, 1)).unwrap().marked, Some(MinefieldTileMarker::QuestionMark));
    assert_eq!(field.tile((2, 1)).unwrap().texture(), TileTexture::QuestionMark);
    assert_eq!(field.apply_click_to_tile((2, 1), PointerButton::Secondary), vec![(2, 1)]);
    assert_eq!(field.tile((2, 1)).unwrap(), start);
    assert_eq!(field.tile((2, 1)).unwrap().texture(), TileTexture::Covered);
}

#[test]
fn secondary_click_on_an_uncovered_tile_does_nothing() {
    let mut field = field_4x4_one_mine();
    field.apply_click_to_tile((1, 1), PointerButton::Primary);
    let tile = field.tile((1, 1)).unwrap();
    assert_eq!(field.apply_click_to_tile((1, 1), PointerButton::Secondary), Vec::new());
    assert_eq!(field.tile((1, 1)).unwrap(), tile);
}

#[test]
fn middle_button_does_nothing() {
    let mut field = field_4x4_one_mine();
    assert_eq!(field.apply_click_to_tile((3, 3), PointerButton::Middle), Vec::new());
    assert!(all_coords(4, 4).into_iter().all(|c| field.tile(c).unwrap().hidden));
}

#[test]
fn click_outside_the_grid_is_ignored() {
    let mut field = field_4x4_one_mine();
    for button in [PointerButton::Primary, PointerButton::Secondary, PointerButton::Middle] {
        assert_eq!(field.apply_click_to_tile((4, 4), button), Vec::new());
        assert_eq!(field.apply_click_to_tile((0, 4), button), Vec::new());
        assert_eq!(field.apply_click_to_tile((4294967295, 0), button), Vec::new());
    }
    assert_eq!(field.tile((4, 0)), None);
    for coord in all_coords(4, 4) {
        let tile = field.tile(coord).unwrap();
        assert!(tile.hidden);
        assert_eq!(tile.marked, None);
    }
}

#[test]
fn locate_reports_a_missing_cell() {
    let field = field_4x4_one_mine();
    assert_eq!(field.locate((0, 0)), Ok(0));
    assert_eq!(field.locate((1, 2)), Ok(9));
    assert_eq!(field.locate((3, 3)), Ok(15));
    assert_eq!(field.locate((4, 0)), Err(MinefieldError::MissingCell));
    assert_eq!(field.locate((0, 4)), Err(MinefieldError::MissingCell));
}

#[test]
fn click_on_a_mine_explodes_it_alone() {
    let mut field = field_4x4_one_mine();
    assert_eq!(field.apply_click_to_tile((0, 1), PointerButton::Primary), vec![(0, 1)]);
    assert!(field.is_lost());
    assert!(!field.is_won());
    assert_eq!(field.tile((0, 1)).unwrap().texture(), TileTexture::Exploded);
    for coord in all_coords(4, 4) {
        assert_eq!(field.tile(coord).unwrap().hidden, coord != (0, 1));
    }
    // The same click again changes nothing.
    assert_eq!(field.apply_click_to_tile((0, 1), PointerButton::Primary), Vec::new());
}

#[test]
fn game_is_won_once_every_safe_tile_is_uncovered() {
    let mut field = field_4x4_one_mine();
    field.apply_click_to_tile((3, 2), PointerButton::Primary);
    assert!(!field.is_won());
    field.apply_click_to_tile((0, 0), PointerButton::Primary);
    assert!(field.is_won());
    assert!(!field.is_lost());
    assert!(field.tile((0, 1)).unwrap().hidden);
}

#[test]
fn opening_move_clicks_the_first_tile_without_mined_neighbors() {
    // Tile (0,0) has a mined neighbour; tile (1,0) has none.
    let table = vec![vec![(2, 0)], vec![(0, 0)], vec![(1, 0)]];
    let mut field = Minefield::from_mines(3, 1, &vec![2], table).unwrap();
    assert_eq!(sorted(field.reveal_one_init()), vec![(0, 0), (1, 0)]);
    assert!(!field.tile((0, 0)).unwrap().hidden);
    assert!(!field.tile((1, 0)).unwrap().hidden);
    assert!(field.tile((2, 0)).unwrap().hidden);
}

#[test]
fn opening_move_may_hit_a_mine_without_mined_neighbors() {
    let table = vec![vec![(1, 0)], vec![(0, 0)]];
    let mut field = Minefield::from_mines(2, 1, &vec![0], table).unwrap();
    assert_eq!(field.reveal_one_init(), vec![(0, 0)]);
    assert!(field.is_lost());
}

#[test]
fn opening_move_does_nothing_without_a_clear_tile() {
    let table = vec![vec![(1, 0)], vec![(1, 0)]];
    let mut field = Minefield::from_mines(2, 1, &vec![1], table).unwrap();
    assert_eq!(field.reveal_one_init(), Vec::new());
    assert!(field.tile((0, 0)).unwrap().hidden);
    assert!(field.tile((1, 0)).unwrap().hidden);
}

#[test]
fn game_setup_places_the_share_of_mines_and_opens() {
    let cases = [
        (GameDifficulty::Easy, 10),
        (GameDifficulty::Medium, 14),
        (GameDifficulty::Hard, 20),
        (GameDifficulty::VeryHard, 25),
        (GameDifficulty::Impossible, 33),
    ];
    for (difficulty, mines) in cases {
        let settings = GridSettings { grid: TileMap { columns: 10, rows: 10 }, difficulty };
        let field = hexgrid_init(&settings, hex_table(10, 10)).unwrap();
        assert_eq!(mined_tiles(&field, 10, 10).len(), mines);
        assert_eq!(field.tile_map(), TileMap { columns: 10, rows: 10 });
        // The first tile without mined neighbours, if there is one, is
        // uncovered; every tile before it is still covered.
        let mut first_clear = None;
        for y in 0..10 {
            for x in 0..10 {
                let tile = field.tile((x, y)).unwrap();
                if first_clear.is_none() && tile.number_of_neighbor_mines == Some(0) {
                    first_clear = Some((x, y));
                }
            }
        }
        match first_clear {
            Some(coord) => assert!(!field.tile(coord).unwrap().hidden),
            None => assert!(all_coords(10, 10).into_iter().all(|c| field.tile(c).unwrap().hidden)),
        }
    }
}

#[test]
fn game_setup_rejects_bad_settings() {
    let settings =
        GridSettings { grid: TileMap { columns: 0, rows: 10 }, difficulty: GameDifficulty::Easy };
    assert!(matches!(hexgrid_init(&settings, vec![]), Err(MinefieldError::InvalidConfiguration)));
    let settings = GridSettings {
        grid: TileMap { columns: 65536, rows: 65536 },
        difficulty: GameDifficulty::Easy,
    };
    assert!(matches!(hexgrid_init(&settings, vec![]), Err(MinefieldError::InvalidConfiguration)));
    let settings =
        GridSettings { grid: TileMap { columns: 3, rows: 3 }, difficulty: GameDifficulty::Hard };
    assert!(matches!(
        hexgrid_init(&settings, hex_table(3, 2)),
        Err(MinefieldError::InvalidConfiguration)
    ));
    assert!(hexgrid_init(&settings, hex_table(3, 3)).is_ok());
}
