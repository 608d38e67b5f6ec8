use game_of_life::board::{BoardError, GameBoard, INITIAL_SPEED, MAX_SPEED, MIN_SPEED};
use game_of_life::rect::CellRect;

fn board(columns: u32, rows: u32) -> GameBoard {
    GameBoard::create((columns * 10, rows * 10), 10).unwrap()
}

fn set_alive(b: &mut GameBoard, cells: &[(u32, u32)]) {
    for &(x, y) in cells {
        b.set_cell(x, y, true);
    }
}

fn alive_cells(b: &GameBoard) -> Vec<(u32, u32)> {
    let mut out = Vec::new();
    for y in 0..b.row_count() {
        for x in 0..b.column_count() {
            if b.is_cell_alive(x, y) {
                out.push((x, y));
            }
        }
    }
    out
}

fn sorted(mut v: Vec<(u32, u32)>) -> Vec<(u32, u32)> {
    v.sort_by_key(|&(x, y)| (y, x));
    v
}

#[test]
fn create_derives_dimensions() {
    let b = GameBoard::create((1920, 1080), 20).unwrap();
    assert_eq!(b.column_count(), 96);
    assert_eq!(b.row_count(), 54);
    assert_eq!(b.total_squares(), 96 * 54);
    assert_eq!(b.cell_size(), 20);
    assert!(!b.is_running());
    assert!(!b.is_painting());
    assert_eq!(b.speed_level(), INITIAL_SPEED);
    assert!(alive_cells(&b).is_empty());
}

#[test]
fn create_rounds_down() {
    let b = GameBoard::create((109, 45), 10).unwrap();
    assert_eq!(b.column_count(), 10);
    assert_eq!(b.row_count(), 4);
}

#[test]
fn create_rejects_zero_cell_size() {
    assert!(matches!(GameBoard::create((100, 100), 0), Err(BoardError::InvalidDimensions)));
}

#[test]
fn create_rejects_canvas_smaller_than_cell() {
    assert!(matches!(GameBoard::create((19, 100), 20), Err(BoardError::InvalidDimensions)));
    assert!(matches!(GameBoard::create((100, 19), 20), Err(BoardError::InvalidDimensions)));
    assert!(matches!(GameBoard::create((0, 0), 1), Err(BoardError::InvalidDimensions)));
}

#[test]
fn create_rejects_grid_too_large_to_index() {
    assert!(matches!(
        GameBoard::create((u32::MAX, u32::MAX), 1),
        Err(BoardError::InvalidDimensions)
    ));
}

#[test]
fn create_single_cell_board() {
    let b = GameBoard::create((20, 20), 20).unwrap();
    assert_eq!(b.total_squares(), 1);
    assert_eq!(b.get_neighbor_cells(0), Vec::<u32>::new());
    assert_eq!(b.alive_neighbors(0), 0);
}

#[test]
fn neighbors_of_center_cell() {
    let b = board(3, 3);
    assert_eq!(b.get_neighbor_cells(4), vec![3, 5, 1, 0, 2, 7, 6, 8]);
}

#[test]
fn neighbors_of_corners() {
    let b = board(3, 3);
    assert_eq!(b.get_neighbor_cells(0), vec![1, 3, 4]);
    assert_eq!(b.get_neighbor_cells(2), vec![1, 5, 4]);
    assert_eq!(b.get_neighbor_cells(6), vec![7, 3, 4]);
    assert_eq!(b.get_neighbor_cells(8), vec![7, 5, 4]);
}

#[test]
fn neighbors_of_edges() {
    let b = board(4, 3);
    assert_eq!(b.get_neighbor_cells(1), vec![0, 2, 5, 4, 6]);
    assert_eq!(b.get_neighbor_cells(4), vec![5, 0, 1, 8, 9]);
    assert_eq!(b.get_neighbor_cells(7), vec![6, 3, 2, 11, 10]);
    assert_eq!(b.get_neighbor_cells(9), vec![8, 10, 5, 4, 6]);
}

#[test]
fn neighbors_on_single_column_board() {
    let b = GameBoard::create((1, 5), 1).unwrap();
    assert_eq!(b.column_count(), 1);
    assert_eq!(b.get_neighbor_cells(0), vec![1]);
    assert_eq!(b.get_neighbor_cells(2), vec![1, 3]);
    assert_eq!(b.get_neighbor_cells(4), vec![3]);
}

#[test]
fn neighbors_on_single_row_board() {
    let b = GameBoard::create((5, 1), 1).unwrap();
    assert_eq!(b.row_count(), 1);
    assert_eq!(b.get_neighbor_cells(0), vec![1]);
    assert_eq!(b.get_neighbor_cells(2), vec![1, 3]);
    assert_eq!(b.get_neighbor_cells(4), vec![3]);
}

#[test]
fn neighbors_stay_on_thin_boards() {
    for (w, h) in [(1u32, 1u32), (1, 7), (7, 1), (1, 2), (2, 1)] {
        let b = GameBoard::create((w, h), 1).unwrap();
        let total = b.total_squares();
        for i in 0..total {
            for n in b.get_neighbor_cells(i) {
                assert!(n < total);
                assert_ne!(n, i);
            }
        }
    }
}

#[test]
fn alive_neighbors_counts_live_cells() {
    let mut b = board(3, 3);
    assert_eq!(b.alive_neighbors(4), 0);
    set_alive(&mut b, &[(0, 0), (1, 0), (2, 2), (1, 1)]);
    assert_eq!(b.alive_neighbors(4), 3);
    assert_eq!(b.alive_neighbors(0), 2);
    assert_eq!(b.alive_neighbors(8), 1);
    let mut full = board(3, 3);
    for y in 0..3 {
        for x in 0..3 {
            full.set_cell(x, y, true);
        }
    }
    assert_eq!(full.alive_neighbors(4), 8);
}

#[test]
fn advance_while_paused_changes_nothing() {
    let mut b = board(5, 5);
    set_alive(&mut b, &[(1, 2), (2, 2), (3, 2), (0, 0)]);
    let before = alive_cells(&b);
    b.step_simulation();
    assert_eq!(alive_cells(&b), before);
    assert!(!b.is_running());
}

#[test]
fn glider_advances_one_generation() {
    let mut b = board(5, 5);
    set_alive(&mut b, &[(1, 0), (2, 1), (0, 2), (1, 2), (2, 2)]);
    b.toggle_pause();
    assert!(b.is_running());
    b.step_simulation();
    assert_eq!(
        sorted(alive_cells(&b)),
        sorted(vec![(0, 1), (2, 1), (1, 2), (2, 2), (1, 3)])
    );
}

#[test]
fn block_is_still_life() {
    for size in [4u32, 6] {
        let mut b = board(size, size);
        set_alive(&mut b, &[(1, 1), (2, 1), (1, 2), (2, 2)]);
        let before = alive_cells(&b);
        b.toggle_pause();
        for _ in 0..10 {
            b.step_simulation();
            assert_eq!(alive_cells(&b), before);
        }
    }
}

#[test]
fn blinker_oscillates() {
    let mut b = board(5, 5);
    let horizontal = vec![(1, 2), (2, 2), (3, 2)];
    let vertical = vec![(2, 1), (2, 2), (2, 3)];
    set_alive(&mut b, &horizontal);
    b.toggle_pause();
    b.step_simulation();
    assert_eq!(sorted(alive_cells(&b)), sorted(vertical));
    b.step_simulation();
    assert_eq!(sorted(alive_cells(&b)), sorted(horizontal));
}

#[test]
fn lonely_and_crowded_cells_die() {
    let mut b = board(3, 3);
    b.set_cell(1, 1, true);
    b.toggle_pause();
    b.step_simulation();
    assert!(alive_cells(&b).is_empty());

    let mut c = board(3, 3);
    set_alive(&mut c, &[(0, 0), (1, 0), (2, 0), (0, 1), (1, 1)]);
    c.toggle_pause();
    c.step_simulation();
    assert!(!c.is_cell_alive(1, 1));
    assert!(!c.is_cell_alive(1, 0));
    assert!(c.is_cell_alive(0, 0));
    assert!(c.is_cell_alive(2, 0));
    assert!(c.is_cell_alive(0, 1));
}

#[test]
fn reset_clears_everything() {
    let mut b = board(5, 5);
    set_alive(&mut b, &[(1, 2), (2, 2), (3, 2)]);
    b.pointer_down();
    b.toggle_pause();
    b.increase_speed();
    assert!(b.is_running());
    assert!(b.is_painting());
    b.reset();
    assert!(alive_cells(&b).is_empty());
    assert!(!b.is_running());
    assert!(!b.is_painting());
    assert_eq!(b.speed_level(), INITIAL_SPEED + 1);
    assert_eq!(b.total_squares(), 25);
}

#[test]
fn speed_clamps_at_maximum() {
    let mut b = board(2, 2);
    for _ in 0..300 {
        b.increase_speed();
    }
    assert_eq!(b.speed_level(), MAX_SPEED);
    b.increase_speed();
    b.increase_speed();
    assert_eq!(b.speed_level(), MAX_SPEED);
}

#[test]
fn speed_clamps_at_minimum() {
    let mut b = board(2, 2);
    for _ in 0..300 {
        b.decrease_speed();
    }
    assert_eq!(b.speed_level(), MIN_SPEED);
    b.decrease_speed();
    b.decrease_speed();
    assert_eq!(b.speed_level(), MIN_SPEED);
    b.toggle_pause();
    assert_eq!(b.frame_delay(), 1_000_000_000);
}

#[test]
fn speed_steps_by_one() {
    let mut b = board(2, 2);
    b.increase_speed();
    assert_eq!(b.speed_level(), INITIAL_SPEED + 1);
    b.decrease_speed();
    b.decrease_speed();
    assert_eq!(b.speed_level(), INITIAL_SPEED - 1);
}

#[test]
fn frame_delay_depends_on_pause_and_speed() {
    let mut b = board(2, 2);
    assert_eq!(b.frame_delay(), 1_000_000_000 / 60);
    b.increase_speed();
    assert_eq!(b.frame_delay(), 1_000_000_000 / 60);
    b.toggle_pause();
    assert_eq!(b.frame_delay(), 1_000_000_000 / 21);
    b.decrease_speed();
    assert_eq!(b.frame_delay(), 50_000_000);
}

#[test]
fn pointer_down_ignored_while_running() {
    let mut b = board(3, 3);
    b.toggle_pause();
    b.pointer_down();
    assert!(!b.is_painting());
    b.toggle_pause();
    b.pointer_down();
    assert!(b.is_painting());
    b.toggle_pause();
    b.pointer_up();
    assert!(!b.is_painting());
}

#[test]
fn cell_rectangle_places_cells() {
    let b = GameBoard::create((100, 100), 20).unwrap();
    assert_eq!(b.cell_rectangle(2, 3), CellRect { x: 40, y: 60, width: 20, height: 20 });
    assert_eq!(b.cell_rectangle(0, 0), CellRect { x: 0, y: 0, width: 20, height: 20 });
}

#[test]
fn rect_contains_is_half_open() {
    let r = CellRect { x: 20, y: 40, width: 20, height: 20 };
    assert!(r.contains_point(20, 40));
    assert!(r.contains_point(39, 59));
    assert!(!r.contains_point(40, 50));
    assert!(!r.contains_point(30, 60));
    assert!(!r.contains_point(19, 50));
    assert!(!r.contains_point(-5, -5));
}

#[test]
fn render_pass_lists_every_cell_in_row_major_order() {
    let mut b = GameBoard::create((60, 40), 20).unwrap();
    b.set_cell(2, 1, true);
    let frame = b.render_pass(-1, -1);
    assert_eq!(frame.len(), 6);
    assert_eq!(frame[0], (CellRect { x: 0, y: 0, width: 20, height: 20 }, false));
    assert_eq!(frame[4], (CellRect { x: 20, y: 20, width: 20, height: 20 }, false));
    assert_eq!(frame[5], (CellRect { x: 40, y: 20, width: 20, height: 20 }, true));
}

#[test]
fn render_pass_paints_three_cells() {
    let mut b = GameBoard::create((100, 100), 20).unwrap();
    b.pointer_down();
    assert!(b.is_painting());
    b.render_pass(5, 5);
    b.render_pass(25, 45);
    let frame = b.render_pass(99, 99);
    assert_eq!(frame[24].1, false);
    b.pointer_up();
    b.render_pass(50, 50);
    assert_eq!(sorted(alive_cells(&b)), sorted(vec![(0, 0), (1, 2), (4, 4)]));
    assert!(!b.is_cell_alive(2, 2));
}

#[test]
fn render_pass_without_gesture_does_not_paint() {
    let mut b = GameBoard::create((100, 100), 20).unwrap();
    b.render_pass(50, 50);
    assert!(alive_cells(&b).is_empty());
}

#[test]
fn painting_never_erases() {
    let mut b = GameBoard::create((100, 100), 20).unwrap();
    b.set_cell(1, 1, true);
    b.pointer_down();
    b.render_pass(30, 30);
    b.render_pass(30, 30);
    assert_eq!(alive_cells(&b), vec![(1, 1)]);
}
