use hash_search::error::SearchError;
use hash_search::grid::{Grid, GRID_HEIGHT};

#[test]
fn grid_without_workers_is_rejected() {
    assert!(matches!(Grid::new(0, 4), Err(SearchError::EmptyGrid)));
    assert!(matches!(Grid::new(4, 0), Err(SearchError::EmptyGrid)));
    assert!(matches!(Grid::new(0, 0), Err(SearchError::EmptyGrid)));
}

#[test]
fn grid_keeps_its_dimensions() {
    let grid = Grid::new(65535, GRID_HEIGHT).unwrap();
    assert_eq!(grid.width(), 65535);
    assert_eq!(grid.height(), 4);
    assert_eq!(grid.worker_count(), 262140);
}

#[test]
fn grid_of_the_largest_dimensions_counts_its_workers() {
    let grid = Grid::new(u32::MAX, u32::MAX).unwrap();
    assert_eq!(grid.worker_count(), 18446744065119617025);
    assert_eq!(grid.nonce(u32::MAX - 1, u32::MAX - 1), Some(18446744065119617024));
}

#[test]
fn nonce_is_row_times_width_plus_column() {
    let grid = Grid::new(5, 4).unwrap();
    assert_eq!(grid.nonce(0, 0), Some(0));
    assert_eq!(grid.nonce(4, 0), Some(4));
    assert_eq!(grid.nonce(0, 1), Some(5));
    assert_eq!(grid.nonce(3, 2), Some(13));
    assert_eq!(grid.nonce(4, 3), Some(19));
}

#[test]
fn nonce_of_a_position_outside_the_grid_is_none() {
    let grid = Grid::new(5, 4).unwrap();
    assert_eq!(grid.nonce(5, 0), None);
    assert_eq!(grid.nonce(0, 4), None);
    assert_eq!(grid.nonce(7, 9), None);
}

#[test]
fn worker_is_read_back_from_its_nonce() {
    let grid = Grid::new(5, 4).unwrap();
    assert_eq!(grid.worker(0), Some((0, 0)));
    assert_eq!(grid.worker(13), Some((3, 2)));
    assert_eq!(grid.worker(19), Some((4, 3)));
    assert_eq!(grid.worker(20), None);
}

#[test]
fn workers_and_nonces_correspond_one_to_one() {
    let grid = Grid::new(7, 3).unwrap();
    let mut seen: Vec<bool> = vec![false; 21];
    for y in 0..3u32 {
        for x in 0..7u32 {
            let nonce = grid.nonce(x, y).unwrap();
            assert!(nonce < 21);
            assert!(!seen[nonce as usize]);
            seen[nonce as usize] = true;
            assert_eq!(grid.worker(nonce), Some((x, y)));
        }
    }
    assert!(seen.iter().all(|slot| *slot));
}

#[test]
fn single_worker_grid_has_nonce_zero_only() {
    let grid = Grid::new(1, 1).unwrap();
    assert_eq!(grid.worker_count(), 1);
    assert_eq!(grid.nonce(0, 0), Some(0));
    assert_eq!(grid.worker(0), Some((0, 0)));
    assert_eq!(grid.worker(1), None);
}
