use conway_rle::frame::render_row;
use conway_rle::life::{copy_buffer, process_generation};
use conway_rle::rle::{parse, RLEParseEntity};

fn entity(grid: Vec<Vec<u8>>) -> RLEParseEntity {
    RLEParseEntity { width: grid.first().map_or(0, |r| r.len()), height: grid.len(), grid }
}

/// Runs `n` generations on a copy of the grid, as the driving loop does.
fn advance(grid: &Vec<Vec<u8>>, n: usize) -> Vec<Vec<u8>> {
    let rpe = entity(grid.clone());
    let mut back = Vec::new();
    let mut front = Vec::new();
    copy_buffer(grid, &mut back);
    copy_buffer(grid, &mut front);
    for _ in 0..n {
        process_generation(&mut back, &mut front, &rpe);
        assert_eq!(back, front);
    }
    front
}

#[test]
fn dead_grid_stays_dead() {
    let g = vec![vec![0u8; 5]; 4];
    assert_eq!(advance(&g, 1), g);
    assert_eq!(advance(&g, 7), g);
}

#[test]
fn isolated_cell_dies() {
    let g = vec![vec![0, 0, 0], vec![0, 1, 0], vec![0, 0, 0]];
    assert_eq!(advance(&g, 1), vec![vec![0u8; 3]; 3]);
}

#[test]
fn full_block_center_dies() {
    let g = vec![vec![1u8; 3]; 3];
    let next = advance(&g, 1);
    assert_eq!(next[1][1], 0);
    assert_eq!(next, vec![vec![1, 0, 1], vec![0, 0, 0], vec![1, 0, 1]]);
}

#[test]
fn block_is_still_life() {
    let g = vec![vec![0, 0, 0, 0], vec![0, 1, 1, 0], vec![0, 1, 1, 0], vec![0, 0, 0, 0]];
    for n in 1..6 {
        assert_eq!(advance(&g, n), g);
    }
}

#[test]
fn block_in_corner_is_still_life() {
    let g = vec![vec![1, 1, 0], vec![1, 1, 0], vec![0, 0, 0]];
    assert_eq!(advance(&g, 3), g);
}

#[test]
fn blinker_has_period_two() {
    let across = vec![
        vec![0, 0, 0, 0, 0],
        vec![0, 0, 0, 0, 0],
        vec![0, 1, 1, 1, 0],
        vec![0, 0, 0, 0, 0],
        vec![0, 0, 0, 0, 0],
    ];
    let down = vec![
        vec![0, 0, 0, 0, 0],
        vec![0, 0, 1, 0, 0],
        vec![0, 0, 1, 0, 0],
        vec![0, 0, 1, 0, 0],
        vec![0, 0, 0, 0, 0],
    ];
    assert_eq!(advance(&across, 1), down);
    assert_eq!(advance(&across, 2), across);
    assert_eq!(advance(&down, 1), across);
    assert_eq!(advance(&across, 10), across);
}

#[test]
fn blinker_on_border_is_clipped() {
    let g = vec![vec![1, 1, 1], vec![0, 0, 0], vec![0, 0, 0]];
    assert_eq!(advance(&g, 1), vec![vec![0, 1, 0], vec![0, 1, 0], vec![0, 0, 0]]);
}

#[test]
fn dead_cell_with_three_neighbors_is_born() {
    let g = vec![vec![1, 0], vec![1, 1]];
    assert_eq!(advance(&g, 1), vec![vec![1, 1], vec![1, 1]]);
}

#[test]
fn decoded_glider_moves() {
    let e = parse("x = 5, y = 5, rule = B3/S23\nbo$2bo$3o!".to_string()).unwrap();
    let after = advance(&e.grid, 4);
    let moved = vec![
        vec![0, 0, 0, 0, 0],
        vec![0, 0, 1, 0, 0],
        vec![0, 0, 0, 1, 0],
        vec![0, 1, 1, 1, 0],
        vec![0, 0, 0, 0, 0],
    ];
    assert_eq!(after, moved);
}

#[test]
fn copy_buffer_appends_rows() {
    let mut target = vec![vec![9u8]];
    copy_buffer(&vec![vec![1, 0], vec![0, 1]], &mut target);
    assert_eq!(target, vec![vec![9], vec![1, 0], vec![0, 1]]);
}

#[test]
fn render_row_draws_cells() {
    assert_eq!(render_row(&vec![1, 0, 1]), b"|*   * |".to_vec());
    assert_eq!(render_row(&vec![]), b"||".to_vec());
}
