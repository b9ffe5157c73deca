use rs2048::game_backend::{flip, transpose, Backend, ShiftDirection};
use rs2048::game_frontend::{Message, RS2048};

fn count_occupied(grid: &[[usize; 4]; 4]) -> usize {
    let mut n: usize = 0;
    for row in 0..4 {
        for col in 0..4 {
            if grid[row][col] != 0 {
                n += 1;
            }
        }
    }
    n
}

fn sum_tiles(grid: &[[usize; 4]; 4]) -> usize {
    let mut n: usize = 0;
    for row in 0..4 {
        for col in 0..4 {
            n += grid[row][col];
        }
    }
    n
}

#[test]
fn test_shift_left() {
    assert_eq!(Backend::compress(&[0, 2, 0, 2]), [2, 2, 0, 0]);
    assert_eq!(Backend::compress(&[4, 2, 0, 2]), [4, 2, 2, 0]);
}

#[test]
fn test_merge() {
    assert_eq!(Backend::merge_row(&[0, 2, 0, 2], &mut 0), [4, 0, 0, 0]);
    assert_eq!(Backend::merge_row(&[4, 2, 0, 2], &mut 0), [8, 0, 0, 0]);
}

#[test]
fn test_transpose() {
    assert_eq!(
        transpose(&[[1, 1, 0, 0]; 4]),
        [[1; 4], [1; 4], [0; 4], [0; 4]]
    )
}

#[test]
fn test_array_flip() {
    assert_eq!(flip(&[0, 2, 0, 4]), [4, 0, 2, 0])
}

#[test]
fn test_shifts() {
    let base = [[2, 0, 2, 2], [4, 0, 0, 2], [0, 2, 4, 2], [2, 2, 4, 2]];

    {
        // Left
        let mut b = Backend::load_grid(base);
        b.merge(ShiftDirection::Left);
        assert_eq!(
            b.grid(),
            [[4, 2, 0, 0], [4, 2, 0, 0], [2, 4, 2, 0], [8, 2, 0, 0]],
            "shift left failed"
        )
    }
    {
        // Right
        let mut b = Backend::load_grid(base);
        b.merge(ShiftDirection::Right);
        assert_eq!(
            b.grid(),
            [[0, 0, 2, 4], [0, 0, 4, 2], [0, 2, 4, 2], [0, 0, 8, 2]],
            "shift right failed"
        )
    }
    {
        // Up
        let mut b = Backend::load_grid(base);
        b.merge(ShiftDirection::Up);
        assert_eq!(
            b.grid(),
            [[2, 4, 2, 8], [4, 0, 8, 0], [2, 0, 0, 0], [0, 0, 0, 0]],
            "shift up failed"
        )
    }
    {
        // Down
        let mut b = Backend::load_grid(base);
        b.merge(ShiftDirection::Down);
        assert_eq!(
            b.grid(),
            [[0, 0, 0, 0], [2, 0, 0, 0], [4, 0, 2, 0], [2, 4, 8, 8]],
            "shift down failed"
        )
    }
}

#[test]
fn test_compress_idempotent() {
    let rows = [
        [0, 2, 0, 2],
        [4, 0, 0, 2],
        [0, 0, 0, 0],
        [2, 4, 8, 16],
        [0, 0, 0, 8],
    ];
    for row in rows.iter() {
        let once = Backend::compress(row);
        assert_eq!(Backend::compress(&once), once);
    }
}

#[test]
fn test_compress_keeps_order() {
    // Only the zeros go; the non-zero values keep their relative order.
    assert_eq!(Backend::compress(&[0, 8, 0, 2]), [8, 2, 0, 0]);
    assert_eq!(Backend::compress(&[16, 0, 4, 0]), [16, 4, 0, 0]);
    assert_eq!(Backend::compress(&[0, 0, 0, 0]), [0, 0, 0, 0]);
}

#[test]
fn test_merge_row_scores() {
    let mut score: usize = 0;
    assert_eq!(Backend::merge_row(&[0, 2, 0, 2], &mut score), [4, 0, 0, 0]);
    assert_eq!(score, 4);

    let mut score: usize = 100;
    assert_eq!(Backend::merge_row(&[4, 2, 0, 2], &mut score), [8, 0, 0, 0]);
    assert_eq!(score, 112);
}

#[test]
fn test_merge_row_restarts() {
    // A row of four equal tiles collapses all the way: [2,2,2,2] becomes
    // [4,0,4,0] after the first merge, is recompressed, and merges again.
    let mut score: usize = 0;
    assert_eq!(Backend::merge_row(&[2, 2, 2, 2], &mut score), [8, 0, 0, 0]);
    assert_eq!(score, 16);
}

#[test]
fn test_merge_row_empty() {
    let mut score: usize = 0;
    assert_eq!(Backend::merge_row(&[0, 0, 0, 0], &mut score), [0, 0, 0, 0]);
    assert_eq!(score, 0);
}

#[test]
fn test_transpose_involutive() {
    let g = [[2, 0, 2, 2], [4, 0, 0, 2], [0, 2, 4, 2], [2, 2, 4, 2]];
    assert_eq!(transpose(&transpose(&g)), g);
}

#[test]
fn test_flip_involutive() {
    let rows = [[0, 2, 0, 4], [2, 2, 2, 2], [0, 0, 0, 0], [2, 4, 8, 16]];
    for row in rows.iter() {
        assert_eq!(flip(&flip(row)), *row);
    }
}

#[test]
fn test_initialize() {
    for _ in 0..50 {
        let b = Backend::new();
        let grid = b.grid();
        assert_eq!(b.score(), 0);
        assert_eq!(count_occupied(&grid), 2);
        for row in 0..4 {
            for col in 0..4 {
                let v: usize = grid[row][col];
                assert!(v == 0 || v == 2 || v == 4);
            }
        }
    }
}

#[test]
fn test_load() {
    let base = [[2, 0, 2, 2], [4, 0, 0, 2], [0, 2, 4, 2], [2, 2, 4, 2]];
    let b = Backend::load(base, 42);
    assert_eq!(b.grid(), base);
    assert_eq!(*b.grid_ref(), base);
    assert_eq!(b.score(), 42);
    let b = Backend::load_grid(base);
    assert_eq!(b.score(), 0);
}

#[test]
fn test_shift_spawns_one_tile() {
    let mut b = Backend::load_grid([
        [2, 2, 0, 0],
        [0, 0, 0, 0],
        [0, 0, 0, 0],
        [0, 0, 0, 0],
    ]);
    b.shift(ShiftDirection::Left);
    let grid = b.grid();
    // The pair merged into one tile and exactly one new tile spawned.
    assert_eq!(count_occupied(&grid), 2);
    assert_eq!(grid[0][0], 4);
    assert_eq!(b.score(), 4);
    let total: usize = sum_tiles(&grid);
    assert!(total == 6 || total == 8);
}

#[test]
fn test_noop_shift_spawns_nothing() {
    // Fully packed distinct rows: shifting left can move and merge nothing.
    let full = [
        [2, 4, 8, 16],
        [32, 64, 128, 256],
        [2, 4, 8, 16],
        [512, 1024, 2048, 4096],
    ];
    let mut b = Backend::load(full, 7);
    b.shift(ShiftDirection::Left);
    assert_eq!(b.grid(), full);
    assert_eq!(b.score(), 7);
}

#[test]
fn test_shift_occupancy_and_score_monotone() {
    let mut b = Backend::new();
    let directions = [
        ShiftDirection::Left,
        ShiftDirection::Down,
        ShiftDirection::Right,
        ShiftDirection::Up,
        ShiftDirection::Left,
        ShiftDirection::Down,
        ShiftDirection::Right,
        ShiftDirection::Up,
    ];
    for direction in directions.iter() {
        let occupied_before: usize = count_occupied(b.grid_ref());
        let score_before: usize = b.score();
        b.shift(direction.clone());
        let occupied_after: usize = count_occupied(b.grid_ref());
        assert!(occupied_after <= occupied_before + 1);
        assert!(b.score() >= score_before);
    }
}

#[test]
fn test_session_update() {
    let base = [[2, 0, 2, 2], [4, 0, 0, 2], [0, 2, 4, 2], [2, 2, 4, 2]];
    let mut session = RS2048::from_backend(Backend::load_grid(base));
    session.update(Message::Shift(ShiftDirection::Left));
    let grid = session.backend().grid();
    // The merged part matches a plain left merge; one extra tile spawned.
    assert_eq!(grid[0][0], 4);
    assert_eq!(grid[0][1], 2);
    assert_eq!(grid[3][0], 8);
    assert_eq!(session.backend().score(), 4 + 4 + 8);
}

#[test]
fn test_session_default() {
    let session = RS2048::default();
    assert_eq!(session.backend().score(), 0);
    assert_eq!(count_occupied(session.backend().grid_ref()), 2);
}
