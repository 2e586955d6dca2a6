use tetris::board::{Board, HEIGHT, WIDTH};
use tetris::cell::{Cell, PieceColor};
use tetris::game::{Game, Input, FADING_TIME, SPAWN_X};
use tetris::piece::Piece;

fn idle() -> Input {
    Input {
        left_pressed: false,
        left_held: false,
        right_pressed: false,
        right_held: false,
        rotate_pressed: false,
        rotate_held: false,
        soft_drop_held: false,
        restart_pressed: false,
        pause_pressed: false,
    }
}

fn moving_cells(b: &Board) -> Vec<(usize, usize)> {
    let mut v = Vec::new();
    for y in 0..HEIGHT {
        for x in 0..WIDTH {
            if b.cell(x, y) == Cell::Moving {
                v.push((x, y));
            }
        }
    }
    v
}

fn count(b: &Board, c: Cell) -> usize {
    let mut n = 0;
    for y in 0..HEIGHT {
        for x in 0..WIDTH {
            if b.cell(x, y) == c {
                n += 1;
            }
        }
    }
    n
}

fn border_intact(b: &Board) -> bool {
    for y in 0..HEIGHT {
        for x in 0..WIDTH {
            let border = x == 0 || x == WIDTH - 1 || y == HEIGHT - 1;
            if border != (b.cell(x, y) == Cell::Block) {
                return false;
            }
        }
    }
    true
}

fn local_moving(p: &Piece) -> Vec<(usize, usize)> {
    let mut v = Vec::new();
    for x in 0..4 {
        for y in 0..4 {
            if p.cells[x * 4 + y] == Cell::Moving {
                v.push((x, y));
            }
        }
    }
    v
}

/// A game with a square in flight at the spawn anchor.
fn game_with_square() -> Game {
    let mut g = Game::new();
    assert!(g.create_piece_from(0, 3));
    g
}

#[test]
fn new_board_is_framed_and_empty() {
    let b = Board::new();
    assert!(border_intact(&b));
    assert_eq!(count(&b, Cell::Empty), 10 * 19);
    assert_eq!(count(&b, Cell::Block), 20 + 20 + 10);
}

#[test]
fn square_spawn_cells() {
    let g = game_with_square();
    assert_eq!(g.piece_position_x, 4);
    assert_eq!(g.piece_position_y, 0);
    assert_eq!(SPAWN_X, ((WIDTH - 4) / 2) as i32);
    assert_eq!(moving_cells(&g.board), vec![(5, 1), (6, 1), (5, 2), (6, 2)]);
    assert_eq!(g.piece.color, PieceColor::Yellow);
    assert_eq!(g.incoming_piece.color, PieceColor::SkyBlue);
    assert!(g.piece_active);
    assert!(!g.begin_play);
}

#[test]
fn first_spawn_uses_seed_then_next() {
    let mut g = Game::new();
    g.create_piece_from(4, 6);
    assert_eq!(g.piece.color, PieceColor::Purple);
    assert_eq!(local_moving(&g.piece), vec![(1, 0), (1, 1), (1, 2), (2, 1)]);
    assert_eq!(g.incoming_piece.color, PieceColor::Red);
    // Land the piece, then spawn again: the incoming piece is promoted and
    // the seed is ignored.
    let mut guard = 0;
    while g.piece_active && guard < 100 {
        g.check_detection();
        g.resolve_falling_movement();
        guard += 1;
    }
    assert!(!g.piece_active);
    g.create_piece_from(0, 1);
    assert_eq!(g.piece.color, PieceColor::Red);
    assert_eq!(g.incoming_piece.color, PieceColor::Blue);
    assert_eq!(count(&g.board, Cell::Moving), 4);
}

#[test]
fn catalog_shapes_have_four_cells() {
    let expected: [(&[(usize, usize)], PieceColor); 7] = [
        (&[(1, 1), (1, 2), (2, 1), (2, 2)], PieceColor::Yellow),
        (&[(1, 0), (1, 1), (1, 2), (2, 2)], PieceColor::Blue),
        (&[(1, 2), (2, 0), (2, 1), (2, 2)], PieceColor::Brown),
        (&[(0, 1), (1, 1), (2, 1), (3, 1)], PieceColor::SkyBlue),
        (&[(1, 0), (1, 1), (1, 2), (2, 1)], PieceColor::Purple),
        (&[(1, 1), (2, 1), (2, 2), (3, 2)], PieceColor::Green),
        (&[(1, 2), (2, 1), (2, 2), (3, 1)], PieceColor::Red),
    ];
    for (k, (cells, color)) in expected.iter().enumerate() {
        let p = Piece::from_shape(k);
        assert_eq!(local_moving(&p), cells.to_vec());
        assert_eq!(p.color, *color);
    }
}

#[test]
fn gravity_moves_piece_down_one_row() {
    let mut g = game_with_square();
    let before = count(&g.board, Cell::Full);
    g.check_detection();
    assert!(!g.detection);
    g.resolve_falling_movement();
    assert_eq!(g.piece_position_y, 1);
    assert_eq!(moving_cells(&g.board), vec![(5, 2), (6, 2), (5, 3), (6, 3)]);
    assert_eq!(count(&g.board, Cell::Full), before);
    assert!(border_intact(&g.board));
}

#[test]
fn landed_piece_becomes_full() {
    let mut g = game_with_square();
    for _ in 0..16 {
        g.check_detection();
        assert!(!g.detection);
        g.resolve_falling_movement();
    }
    assert_eq!(moving_cells(&g.board), vec![(5, 17), (6, 17), (5, 18), (6, 18)]);
    g.check_detection();
    assert!(g.detection);
    g.resolve_falling_movement();
    assert!(!g.piece_active);
    assert!(!g.detection);
    assert_eq!(count(&g.board, Cell::Moving), 0);
    assert_eq!(count(&g.board, Cell::Full), 4);
    assert_eq!(g.board.cell(5, 18), Cell::Full);
    assert_eq!(g.board.cell(6, 17), Cell::Full);
    assert!(border_intact(&g.board));
}

#[test]
fn wall_blocks_lateral_move() {
    let mut g = game_with_square();
    let mut left = idle();
    left.left_held = true;
    for _ in 0..4 {
        assert!(!g.resolve_lateral_movement(&left));
    }
    assert_eq!(g.piece_position_x, 0);
    assert_eq!(moving_cells(&g.board), vec![(1, 1), (2, 1), (1, 2), (2, 2)]);
    let cells = g.board.cells.clone();
    assert!(g.resolve_lateral_movement(&left));
    assert_eq!(g.board.cells, cells);
    assert_eq!(g.piece_position_x, 0);
}

#[test]
fn full_cell_blocks_lateral_move() {
    let mut g = game_with_square();
    g.board.set_cell(7, 2, Cell::Full);
    let mut right = idle();
    right.right_held = true;
    let cells = g.board.cells.clone();
    assert!(g.resolve_lateral_movement(&right));
    assert_eq!(g.board.cells, cells);
    assert_eq!(g.piece_position_x, 4);
}

#[test]
fn right_move_and_no_direction() {
    let mut g = game_with_square();
    let mut right = idle();
    right.right_held = true;
    right.left_held = false;
    assert!(!g.resolve_lateral_movement(&right));
    assert_eq!(g.piece_position_x, 5);
    assert_eq!(moving_cells(&g.board), vec![(6, 1), (7, 1), (6, 2), (7, 2)]);
    let cells = g.board.cells.clone();
    assert!(!g.resolve_lateral_movement(&idle()));
    assert_eq!(g.board.cells, cells);
    assert_eq!(g.piece_position_x, 5);
}

#[test]
fn left_wins_when_both_held() {
    let mut g = game_with_square();
    let mut both = idle();
    both.left_held = true;
    both.right_held = true;
    g.resolve_lateral_movement(&both);
    assert_eq!(g.piece_position_x, 3);
}

#[test]
fn rotating_line_piece() {
    let p = Piece::from_shape(3);
    let r = p.rotated();
    assert_eq!(local_moving(&r), vec![(1, 0), (1, 1), (1, 2), (1, 3)]);
    assert_eq!(r.color, PieceColor::SkyBlue);
    let r4 = r.rotated().rotated().rotated();
    assert_eq!(r4.cells, p.cells);
}

#[test]
fn square_is_unchanged_by_rotation() {
    let p = Piece::from_shape(0);
    assert_eq!(p.rotated().cells, p.cells);
}

#[test]
fn four_rotations_restore_every_shape() {
    for k in 0..7 {
        let p = Piece::from_shape(k);
        let r = p.rotated().rotated().rotated().rotated();
        assert_eq!(r.cells, p.cells);
    }
}

#[test]
fn rotation_on_board() {
    let mut g = Game::new();
    g.create_piece_from(3, 0);
    assert_eq!(moving_cells(&g.board), vec![(4, 1), (5, 1), (6, 1), (7, 1)]);
    let mut turn = idle();
    turn.rotate_held = true;
    assert!(g.resolve_turn_movement(&turn));
    assert_eq!(moving_cells(&g.board), vec![(5, 0), (5, 1), (5, 2), (5, 3)]);
    assert_eq!(g.piece_position_x, 4);
    assert!(!g.resolve_turn_movement(&idle()));
}

#[test]
fn blocked_rotation_changes_nothing() {
    let mut g = Game::new();
    g.create_piece_from(3, 0);
    g.board.set_cell(5, 3, Cell::Full);
    let cells = g.board.cells.clone();
    let piece = g.piece.cells.clone();
    let mut turn = idle();
    turn.rotate_held = true;
    assert!(g.resolve_turn_movement(&turn));
    assert_eq!(g.board.cells, cells);
    assert_eq!(g.piece.cells, piece);
}

#[test]
fn rotation_against_wall_is_refused() {
    let mut g = Game::new();
    g.create_piece_from(3, 0);
    let mut turn = idle();
    turn.rotate_held = true;
    g.resolve_turn_movement(&turn);
    let mut left = idle();
    left.left_held = true;
    for _ in 0..4 {
        assert!(!g.resolve_lateral_movement(&left));
    }
    assert_eq!(g.piece_position_x, 0);
    assert_eq!(moving_cells(&g.board), vec![(1, 0), (1, 1), (1, 2), (1, 3)]);
    // Turning back would put a cell on the left frame column.
    let cells = g.board.cells.clone();
    g.resolve_turn_movement(&turn);
    assert_eq!(g.board.cells, cells);
    assert!(border_intact(&g.board));
}

#[test]
fn line_fill_fades_then_clears() {
    let mut g = Game::new();
    for x in 1..=10 {
        g.board.set_cell(x, 18, Cell::Full);
    }
    g.board.set_cell(3, 17, Cell::Full);
    g.check_completion();
    assert!(g.line_to_delete);
    for x in 1..=10 {
        assert_eq!(g.board.cell(x, 18), Cell::Fading);
    }
    let lines = g.lines;
    for _ in 0..FADING_TIME - 1 {
        g.tick(&idle(), 0, 0);
        assert!(g.line_to_delete);
        assert_eq!(g.board.cell(1, 18), Cell::Fading);
    }
    g.tick(&idle(), 0, 0);
    assert!(!g.line_to_delete);
    assert_eq!(g.lines, lines + 1);
    for x in 1..=10 {
        if x == 3 {
            assert_eq!(g.board.cell(x, 18), Cell::Full);
        } else {
            assert_eq!(g.board.cell(x, 18), Cell::Empty);
        }
    }
    assert_eq!(count(&g.board, Cell::Full), 1);
    assert_eq!(count(&g.board, Cell::Fading), 0);
    assert!(border_intact(&g.board));
}

#[test]
fn line_fill_scenario_thirty_three_ticks() {
    let mut g = Game::new();
    for x in 1..=10 {
        g.board.set_cell(x, 18, Cell::Full);
    }
    g.check_completion();
    for x in 1..=10 {
        assert_eq!(g.board.cell(x, 18), Cell::Fading);
    }
    for _ in 0..33 {
        g.tick(&idle(), 0, 0);
    }
    for x in 1..=10 {
        assert_eq!(g.board.cell(x, 18), Cell::Empty);
    }
    assert_eq!(g.lines, 1);
}

#[test]
fn fading_colour_alternates() {
    let mut g = Game::new();
    for x in 1..=10 {
        g.board.set_cell(x, 18, Cell::Full);
    }
    g.check_completion();
    g.tick(&idle(), 0, 0);
    assert_eq!(g.fading_colour, PieceColor::Maroon);
    for _ in 0..4 {
        g.tick(&idle(), 0, 0);
    }
    assert_eq!(g.fading_colour, PieceColor::Gray);
}

#[test]
fn two_stacked_rows_clear_together() {
    let mut g = Game::new();
    for x in 1..=10 {
        g.board.set_cell(x, 18, Cell::Full);
        g.board.set_cell(x, 17, Cell::Full);
    }
    g.board.set_cell(2, 16, Cell::Full);
    g.board.set_cell(9, 15, Cell::Full);
    g.check_completion();
    assert_eq!(count(&g.board, Cell::Fading), 20);
    g.delete_complete_lines();
    assert_eq!(count(&g.board, Cell::Fading), 0);
    assert_eq!(count(&g.board, Cell::Full), 2);
    assert_eq!(g.board.cell(2, 18), Cell::Full);
    assert_eq!(g.board.cell(9, 17), Cell::Full);
    assert!(border_intact(&g.board));
}

#[test]
fn clearing_top_row_is_no_underflow() {
    let mut g = Game::new();
    for x in 1..=10 {
        g.board.set_cell(x, 0, Cell::Full);
    }
    g.check_completion();
    g.delete_complete_lines();
    assert_eq!(count(&g.board, Cell::Empty), 10 * 19);
}

#[test]
fn spawn_tick_then_gravity_ticks() {
    let mut g = Game::new();
    g.tick(&idle(), 0, 2);
    assert!(g.piece_active);
    assert_eq!(moving_cells(&g.board), vec![(5, 1), (6, 1), (5, 2), (6, 2)]);
    assert_eq!(g.incoming_piece.color, PieceColor::Brown);
    for _ in 0..29 {
        g.tick(&idle(), 0, 0);
    }
    assert_eq!(g.piece_position_y, 0);
    g.tick(&idle(), 0, 0);
    assert_eq!(g.piece_position_y, 1);
    assert_eq!(g.gravity_movement_counter, 0);
}

#[test]
fn soft_drop_after_grace_window() {
    let mut g = Game::new();
    g.tick(&idle(), 0, 0);
    let mut drop = idle();
    drop.soft_drop_held = true;
    for _ in 0..29 {
        g.tick(&drop, 0, 0);
    }
    // The gravity counter fired once on its own at tick 30.
    g.tick(&drop, 0, 0);
    assert_eq!(g.piece_position_y, 1);
    g.tick(&drop, 0, 0);
    assert_eq!(g.piece_position_y, 2);
}

#[test]
fn fresh_lateral_press_moves_at_once() {
    let mut g = Game::new();
    g.tick(&idle(), 0, 0);
    let mut press = idle();
    press.left_pressed = true;
    press.left_held = true;
    g.tick(&press, 0, 0);
    assert_eq!(g.piece_position_x, 3);
}

#[test]
fn full_cell_in_top_rows_ends_game() {
    let mut g = Game::new();
    g.board.set_cell(4, 1, Cell::Full);
    g.tick(&idle(), 0, 0);
    assert!(g.game_over);
    let cells = g.board.cells.clone();
    g.tick(&idle(), 0, 0);
    assert_eq!(g.board.cells, cells);
    let mut restart = idle();
    restart.restart_pressed = true;
    g.tick(&restart, 0, 0);
    assert!(!g.game_over);
    assert!(g.begin_play);
    assert_eq!(count(&g.board, Cell::Full), 0);
}

#[test]
fn full_cell_in_third_row_does_not_end_game() {
    let mut g = Game::new();
    g.board.set_cell(1, 2, Cell::Full);
    g.tick(&idle(), 0, 0);
    assert!(!g.game_over);
}

#[test]
fn no_game_over_check_while_clearing() {
    let mut g = Game::new();
    for x in 1..=10 {
        g.board.set_cell(x, 18, Cell::Full);
    }
    g.check_completion();
    g.board.set_cell(4, 0, Cell::Full);
    g.tick(&idle(), 0, 0);
    assert!(!g.game_over);
}

#[test]
fn pause_freezes_everything() {
    let mut g = Game::new();
    g.tick(&idle(), 0, 0);
    let mut toggle = idle();
    toggle.pause_pressed = true;
    g.tick(&toggle, 0, 0);
    assert!(g.pause);
    let counter = g.gravity_movement_counter;
    let cells = g.board.cells.clone();
    for _ in 0..100 {
        g.tick(&idle(), 0, 0);
    }
    assert_eq!(g.gravity_movement_counter, counter);
    assert_eq!(g.board.cells, cells);
    g.tick(&toggle, 0, 0);
    assert!(!g.pause);
    assert_eq!(g.gravity_movement_counter, counter + 1);
}

#[test]
fn random_spawn_puts_four_cells_on_board() {
    let mut g = Game::new();
    g.update(&idle());
    assert!(g.piece_active);
    assert_eq!(count(&g.board, Cell::Moving), 4);
    assert_eq!(local_moving(&g.incoming_piece).len(), 4);
    assert!(border_intact(&g.board));
}

#[test]
fn create_piece_draws_shapes() {
    let mut g = Game::new();
    assert!(g.create_piece());
    assert_eq!(count(&g.board, Cell::Moving), 4);
    assert_eq!(local_moving(&g.piece).len(), 4);
    assert_ne!(g.incoming_piece.color, PieceColor::Gray);
}

#[test]
fn long_random_game_keeps_frame() {
    let mut g = Game::new();
    let mut drop = idle();
    drop.soft_drop_held = true;
    for i in 0..20000 {
        let mut input = drop;
        input.left_held = i % 97 < 20;
        input.right_held = i % 89 < 15;
        input.rotate_pressed = i % 41 == 0;
        input.rotate_held = i % 41 < 3;
        g.update(&input);
        assert!(border_intact(&g.board));
        let moving = count(&g.board, Cell::Moving);
        assert!(moving == 0 || moving == 4);
        if g.game_over {
            let mut restart = idle();
            restart.restart_pressed = true;
            g.update(&restart);
        }
    }
}

#[test]
fn separated_rows_clear_and_rest_keeps_order() {
    let mut g = Game::new();
    for x in 1..=10 {
        g.board.set_cell(x, 18, Cell::Full);
        g.board.set_cell(x, 16, Cell::Full);
    }
    g.board.set_cell(4, 17, Cell::Full);
    g.board.set_cell(7, 15, Cell::Full);
    g.board.set_cell(8, 14, Cell::Full);
    g.check_completion();
    assert_eq!(count(&g.board, Cell::Fading), 20);
    g.delete_complete_lines();
    assert_eq!(count(&g.board, Cell::Fading), 0);
    assert_eq!(count(&g.board, Cell::Full), 3);
    assert_eq!(g.board.cell(4, 18), Cell::Full);
    assert_eq!(g.board.cell(7, 17), Cell::Full);
    assert_eq!(g.board.cell(8, 16), Cell::Full);
    assert!(border_intact(&g.board));
}
