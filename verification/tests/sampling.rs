use hex_minesweeper::sample::free_cells;
use hex_minesweeper::sample::is_taken;
use hex_minesweeper::sample::nth_free;
use hex_minesweeper::sample::unique_rand;

#[test]
fn is_taken_finds_listed_indices() {
    let taken = vec![3, 0, 7];
    assert!(is_taken(&taken, 3));
    assert!(is_taken(&taken, 0));
    assert!(is_taken(&taken, 7));
    assert!(!is_taken(&taken, 1));
    assert!(!is_taken(&vec![], 0));
}

#[test]
fn free_cells_counts_indices_not_taken() {
    assert_eq!(free_cells(&vec![], 0), 0);
    assert_eq!(free_cells(&vec![], 9), 9);
    assert_eq!(free_cells(&vec![3, 0, 7], 9), 6);
    // An index taken twice, or outside the bound, uses up nothing more.
    assert_eq!(free_cells(&vec![3, 3, 12], 9), 8);
    assert_eq!(free_cells(&vec![0, 1, 2], 3), 0);
}

#[test]
fn nth_free_skips_taken_indices() {
    let taken = vec![3, 0, 7];
    // Free indices below 9, in order: 1, 2, 4, 5, 6, 8.
    let expected = [1, 2, 4, 5, 6, 8];
    for (skip, index) in expected.into_iter().enumerate() {
        assert_eq!(nth_free(&taken, 9, skip as u32), index);
    }
    assert_eq!(nth_free(&vec![], 5, 4), 4);
}

#[test]
fn unique_rand_finds_the_last_free_tile() {
    let mut taken: Vec<u32> = (0..12).collect();
    taken.retain(|index| *index != 7);
    for _ in 0..20 {
        assert_eq!(unique_rand(&taken, 4, 3), 7);
    }
}

#[test]
fn unique_rand_draws_a_free_tile_of_the_grid() {
    let taken = vec![0, 5, 11, 2];
    for _ in 0..200 {
        let drawn = unique_rand(&taken, 3, 4);
        assert!(drawn < 12);
        assert!(!taken.contains(&drawn));
    }
}

#[test]
fn unique_rand_reaches_every_free_tile() {
    let taken = vec![1];
    let mut seen = [false; 4];
    for _ in 0..400 {
        seen[unique_rand(&taken, 2, 2) as usize] = true;
    }
    assert_eq!(seen, [true, false, true, true]);
}
