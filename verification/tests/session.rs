use hex_minesweeper::grid::MinefieldError;
use hex_minesweeper::grid::TileMap;
use hex_minesweeper::model::PointerButton;
use hex_minesweeper::session::Game;
use hex_minesweeper::state::main_menu_loop;
use hex_minesweeper::state::AppState;
use hex_minesweeper::state::GameDifficulty;
use hex_minesweeper::state::GamePlaySet;
use hex_minesweeper::state::GridSettings;
use hex_minesweeper::state::MainMenuSet;
use hex_minesweeper::state::PauseMenuSet;
use hex_minesweeper::state::PauseMenuState;
use hex_minesweeper::tile::MinefieldTile;
use hex_minesweeper::tile::MinefieldTileMarker;
use hex_minesweeper::tile::TileTexture;

fn line_table(cells: u32) -> Vec<Vec<(u32, u32)>> {
    let mut table = Vec::new();
    for x in 0..cells {
        let mut neighbors = Vec::new();
        if x > 0 {
            neighbors.push((x - 1, 0));
        }
        neighbors.push((x + 1, 0));
        table.push(neighbors);
    }
    table
}

#[test]
fn clicks_before_setup_are_ignored() {
    let mut game = Game::new();
    assert_eq!(game.handle_click((0, 0), PointerButton::Primary), Vec::new());
    assert_eq!(game.handle_click((0, 0), PointerButton::Secondary), Vec::new());
    assert_eq!(game.tile((0, 0)), None);
    assert!(!game.is_won());
    assert!(!game.is_lost());
}

#[test]
fn failed_setup_keeps_the_game_in_progress() {
    let mut game = Game::new();
    let settings =
        GridSettings { grid: TileMap { columns: 2, rows: 1 }, difficulty: GameDifficulty::Easy };
    assert_eq!(game.initialize(&settings, line_table(2)), Ok(()));
    // Two tiles at a tenth of mines: no mine, and the opening move uncovers both.
    assert!(game.is_won());
    let bad = GridSettings { grid: TileMap { columns: 0, rows: 0 }, difficulty: GameDifficulty::Easy };
    assert_eq!(game.initialize(&bad, vec![]), Err(MinefieldError::InvalidConfiguration));
    assert!(game.is_won());
    assert_eq!(game.initialize(&settings, line_table(3)), Err(MinefieldError::InvalidConfiguration));
    assert!(game.tile((1, 0)).is_some());
}

#[test]
fn game_handles_clicks_and_is_torn_down() {
    let mut game = Game::new();
    let settings = GridSettings {
        grid: TileMap { columns: 9, rows: 1 },
        difficulty: GameDifficulty::Impossible,
    };
    game.initialize(&settings, line_table(9)).unwrap();
    let mines = (0..9).filter(|x| game.tile((*x, 0)).unwrap().contains_mine).count();
    assert_eq!(mines, 3);
    let target = (0..9).find(|x| game.tile((*x, 0)).unwrap().hidden).unwrap();
    let before = game.tile((target, 0)).unwrap();
    assert_eq!(game.handle_click((target, 0), PointerButton::Secondary), vec![(target, 0)]);
    assert_eq!(
        game.tile((target, 0)),
        Some(MinefieldTile { marked: Some(MinefieldTileMarker::Flag), ..before })
    );
    assert_eq!(game.handle_click((9, 0), PointerButton::Primary), Vec::new());
    game.clear();
    assert_eq!(game.tile((target, 0)), None);
    assert_eq!(game.handle_click((target, 0), PointerButton::Primary), Vec::new());
}

#[test]
fn system_sets_run_in_their_states() {
    let states = [
        (AppState::MainMenu, PauseMenuState::Running, true, false, false),
        (AppState::MainMenu, PauseMenuState::Paused, true, false, false),
        (AppState::InGame, PauseMenuState::Running, false, false, true),
        (AppState::InGame, PauseMenuState::Paused, false, true, false),
    ];
    for (app, pause, menu, paused, play) in states {
        assert_eq!(MainMenuSet.runs_in(app, pause), menu);
        assert_eq!(PauseMenuSet.runs_in(app, pause), paused);
        assert_eq!(GamePlaySet.runs_in(app, pause), play);
    }
}

#[test]
fn main_menu_starts_a_game_on_the_start_key() {
    assert_eq!(main_menu_loop(true), Some(AppState::InGame));
    assert_eq!(main_menu_loop(false), None);
    assert_eq!(PauseMenuState::default(), PauseMenuState::Running);
}

#[test]
fn difficulty_sets_the_share_of_mines() {
    assert_eq!(GameDifficulty::Easy.amount_of_mines(100), 10);
    assert_eq!(GameDifficulty::Medium.amount_of_mines(100), 14);
    assert_eq!(GameDifficulty::Hard.amount_of_mines(100), 20);
    assert_eq!(GameDifficulty::VeryHard.amount_of_mines(100), 25);
    assert_eq!(GameDifficulty::Impossible.amount_of_mines(100), 33);
    assert_eq!(GameDifficulty::Easy.amount_of_mines(9), 0);
    assert_eq!(GameDifficulty::Impossible.amount_of_mines(2), 0);
    assert_eq!(GameDifficulty::Impossible.amount_of_mines(4294967295), 1431655765);
}

#[test]
fn tile_map_numbers_tiles_row_by_row() {
    let map = TileMap::new(4, 3).unwrap();
    assert_eq!(map.len(), 12);
    assert_eq!(map.get((0, 0)), Some(0));
    assert_eq!(map.get((3, 0)), Some(3));
    assert_eq!(map.get((0, 1)), Some(4));
    assert_eq!(map.get((3, 2)), Some(11));
    assert_eq!(map.get((4, 0)), None);
    assert_eq!(map.get((0, 3)), None);
    for index in 0..12 {
        assert_eq!(map.get(map.coord(index)), Some(index));
    }
    assert_eq!(map.coord(6), (2, 1));
    assert_eq!(TileMap::new(0, 3), Err(MinefieldError::InvalidConfiguration));
    assert_eq!(TileMap::new(3, 0), Err(MinefieldError::InvalidConfiguration));
    assert_eq!(TileMap::new(65536, 65536), Err(MinefieldError::InvalidConfiguration));
    assert_eq!(TileMap::new(65535, 65537), Ok(TileMap { columns: 65535, rows: 65537 }));
}

#[test]
fn tile_state_machine() {
    let mut tile = MinefieldTile::new(true, 2);
    assert_eq!(
        tile,
        MinefieldTile {
            hidden: true,
            contains_mine: true,
            marked: None,
            number_of_neighbor_mines: Some(2),
        }
    );
    assert_eq!(tile.texture(), TileTexture::Covered);
    tile.cycle_marker();
    assert_eq!(tile.marked, Some(MinefieldTileMarker::Flag));
    tile.cycle_marker();
    assert_eq!(tile.marked, Some(MinefieldTileMarker::QuestionMark));
    tile.unhide();
    assert!(!tile.hidden);
    assert_eq!(tile.marked, None);
    assert_eq!(tile.texture(), TileTexture::Exploded);
    tile.cycle_marker();
    assert_eq!(tile.marked, None);
    let mut safe = MinefieldTile::new(false, 3);
    safe.unhide();
    assert_eq!(safe.texture(), TileTexture::Number(3));
}
