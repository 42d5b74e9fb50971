use tetris::field::{clear_lines, clear_row, create_field, does_it_fit, lock_piece, row_is_complete};
use tetris::game::{lock_score, GameState, KeyCommand};
use tetris::rotation::rotate;
use tetris::shapes::get_shapes;

fn fresh_state(piece: u8, rotation: u8, x: i16, y: i16) -> GameState {
    let mut s = GameState::new();
    s.current_piece = piece;
    s.current_rotation = rotation;
    s.current_x = x;
    s.current_y = y;
    s
}

#[test]
fn rotation_has_order_four() {
    for px in 0..4u8 {
        for py in 0..4u8 {
            for r in 0..4u8 {
                assert_eq!(rotate(px, py, r), rotate(px, py, r + 4));
                assert!(rotate(px, py, r) < 16);
            }
        }
    }
}

#[test]
fn rotation_matches_quarter_turns() {
    assert_eq!(rotate(1, 2, 0), 9);
    assert_eq!(rotate(0, 0, 1), 12);
    assert_eq!(rotate(3, 3, 2), 0);
    assert_eq!(rotate(2, 1, 3), 10);
    assert_eq!(rotate(0, 0, 0), 0);
    assert_eq!(rotate(3, 0, 1), 0);
}

#[test]
fn rotation_is_a_bijection_per_state() {
    for r in 0..4u8 {
        let mut seen = [false; 16];
        for px in 0..4u8 {
            for py in 0..4u8 {
                let i = rotate(px, py, r) as usize;
                assert!(!seen[i]);
                seen[i] = true;
            }
        }
        assert!(seen.iter().all(|&s| s));
    }
}

#[test]
fn catalogue_has_seven_masks_of_four_cells() {
    let shapes = get_shapes();
    assert_eq!(shapes.len(), 7);
    for t in &shapes {
        assert_eq!(t.shape().len(), 16);
        let occupied = t.shape().iter().filter(|&&c| c != 10).count();
        assert_eq!(occupied, 4);
    }
    // The I piece is the vertical bar in the third column.
    assert_eq!(
        shapes[0].shape(),
        &vec![10, 10, 2, 10, 10, 10, 2, 10, 10, 10, 2, 10, 10, 10, 2, 10]
    );
}

#[test]
fn every_variant_fits_the_spawn_pose_on_a_fresh_field() {
    let field = create_field();
    for v in 0..7u8 {
        assert!(does_it_fit(v, 0, 6, 0, &field));
    }
}

#[test]
fn fit_fails_on_overlap_with_locked_cell() {
    let mut field = create_field();
    // A locked block under the I piece's column.
    field[2][8] = 3;
    assert!(!does_it_fit(0, 0, 6, 0, &field));
}

#[test]
fn fit_fails_on_borders_and_past_edges() {
    let field = create_field();
    // The I piece's column over the left border column.
    assert!(!does_it_fit(0, 0, -2, 0, &field));
    // One further: the column is past the edge; no wrapping.
    assert!(!does_it_fit(0, 0, -3, 0, &field));
    // Hanging over the edge is fine while the occupied column is interior.
    assert!(does_it_fit(0, 0, -1, 0, &field));
    // Below the bottom border row.
    assert!(!does_it_fit(0, 0, 6, 14, &field));
    // Projecting above the top row is not a bounds failure.
    assert!(does_it_fit(0, 0, 6, -3, &field));
}

#[test]
fn locking_blocks_the_same_pose() {
    let mut field = create_field();
    assert!(does_it_fit(4, 0, 6, 0, &field));
    lock_piece(&mut field, 4, 0, 6, 0);
    assert!(!does_it_fit(4, 0, 6, 0, &field));
}

#[test]
fn locking_stamps_only_the_piece_cells() {
    let mut field = create_field();
    lock_piece(&mut field, 0, 0, 6, 0);
    // The I piece's column, stamped with its variant value plus one.
    for y in 0..4 {
        assert_eq!(field[y][8], 1);
    }
    // Everything else as freshly created.
    let fresh = create_field();
    for y in 0..18 {
        for x in 0..12 {
            if x != 8 || y >= 4 {
                assert_eq!(field[y][x], fresh[y][x]);
            }
        }
    }
}

#[test]
fn complete_row_is_detected() {
    let mut field = create_field();
    assert!(!row_is_complete(&field, 16));
    for x in 1..11 {
        field[16][x] = 5;
    }
    assert!(row_is_complete(&field, 16));
    field[16][4] = 0;
    assert!(!row_is_complete(&field, 16));
}

#[test]
fn clearing_a_row_shifts_rows_above_down_by_one() {
    let mut field = create_field();
    for x in 1..11 {
        field[16][x] = 5;
    }
    field[3][5] = 2; // a marker above the cleared row
    field[17][0] = 8; // border, stays
    let before = field.clone();
    clear_row(&mut field, 16);
    // Every row above the cleared one shifted down by exactly one.
    for y in 1..17 {
        assert_eq!(field[y], before[y - 1]);
    }
    assert_eq!(field[4][5], 2);
    // The vacated top row is empty and bordered.
    assert_eq!(field[0][0], 8);
    assert_eq!(field[0][11], 8);
    for x in 1..11 {
        assert_eq!(field[0][x], 0);
    }
    // The row below the cleared one (the border row) is unchanged.
    assert_eq!(field[17], before[17]);
    // Border columns unchanged everywhere.
    for y in 0..18 {
        assert_eq!(field[y][0], 8);
        assert_eq!(field[y][11], 8);
    }
}

#[test]
fn clearing_two_rows_uses_the_buffered_indices_in_order() {
    let mut field = create_field();
    for x in 1..11 {
        field[14][x] = 3;
        field[16][x] = 3;
    }
    field[10][7] = 6; // a marker that must end two rows lower
    clear_lines(&mut field, &vec![14, 16]);
    assert_eq!(field[12][7], 6);
    for y in 0..18 {
        for x in 1..11 {
            if y == 17 {
                assert_eq!(field[y][x], 8);
            } else if y == 12 && x == 7 {
                assert_eq!(field[y][x], 6);
            } else {
                assert_eq!(field[y][x], 0);
            }
        }
    }
}

#[test]
fn lock_score_follows_the_bonus_formula() {
    assert_eq!(lock_score(0), 25);
    assert_eq!(lock_score(1), 25 + 200);
    assert_eq!(lock_score(2), 425);
    assert_eq!(lock_score(3), 25 + 800);
    assert_eq!(lock_score(4), 25 + 1600);
    // The considered line count is capped at ten.
    assert_eq!(lock_score(10), 25 + 1024 * 100);
    assert_eq!(lock_score(11), 25 + 1024 * 100);
}

#[test]
fn locking_with_no_lines_scores_exactly_25() {
    let mut s = fresh_state(0, 0, 6, 13);
    s.force_down_with(1);
    assert_eq!(s.score, 25);
    assert_eq!(s.piece_count, 1);
    assert!(!s.game_over);
}

#[test]
fn locking_with_two_lines_scores_exactly_425() {
    let mut s = fresh_state(1, 0, 4, 14);
    // Fill the two bottom interior rows except where the O piece will land.
    for x in 1..11 {
        if x != 5 && x != 6 {
            s.field[15][x] = 1;
            s.field[16][x] = 1;
        }
    }
    s.force_down_with(0);
    assert_eq!(s.score, 425);
    // Both completed rows were cleared: the interior is empty again.
    for y in 0..17 {
        for x in 1..11 {
            assert_eq!(s.field[y][x], 0);
        }
    }
    assert!(!s.game_over);
}

#[test]
fn speed_drops_by_one_on_every_fiftieth_lock() {
    let mut s = fresh_state(0, 0, 6, 13);
    s.piece_count = 49;
    assert_eq!(s.speed, 20);
    s.force_down_with(1);
    assert_eq!(s.piece_count, 50);
    assert_eq!(s.speed, 19);

    let mut t = fresh_state(0, 0, 6, 13);
    t.piece_count = 48;
    t.force_down_with(1);
    assert_eq!(t.piece_count, 49);
    assert_eq!(t.speed, 20);
}

#[test]
fn speed_never_drops_below_ten() {
    let mut s = fresh_state(0, 0, 6, 13);
    s.piece_count = 49;
    s.speed = 10;
    s.force_down_with(1);
    assert_eq!(s.piece_count, 50);
    assert_eq!(s.speed, 10);
}

#[test]
fn i_piece_forced_down_locks_at_the_bottom() {
    let mut s = GameState::new();
    assert_eq!(s.current_piece, 0);
    assert_eq!((s.current_x, s.current_y), (6, 0));
    // Descends one row per gravity step until it cannot.
    for step in 1..=13 {
        s.force_down_with(1);
        assert_eq!(s.current_y, step);
        assert_eq!(s.current_piece, 0);
    }
    // The next step cannot descend: the piece locks just above the border.
    s.force_down_with(1);
    for y in 13..17 {
        assert_eq!(s.field[y][8], 1);
    }
    assert_eq!(s.score, 25);
    assert_eq!(s.piece_count, 1);
    assert_eq!(s.current_piece, 1);
    assert_eq!((s.current_x, s.current_y), (6, 0));
    assert!(!s.game_over);
}

#[test]
fn moves_apply_only_when_the_new_pose_fits() {
    // The I piece lying flat in its third row, against the left border.
    let mut s = fresh_state(0, 1, 1, 0);
    s.handle_key(KeyCommand::MoveLeft);
    assert_eq!(s.current_x, 1);
    s.handle_key(KeyCommand::MoveRight);
    assert_eq!(s.current_x, 2);
    s.handle_key(KeyCommand::SoftDrop);
    assert_eq!(s.current_y, 1);
}

#[test]
fn rotate_latch_allows_one_turn_until_rearmed() {
    let mut s = GameState::new();
    assert!(s.rotate_armed);
    s.handle_key(KeyCommand::Rotate);
    assert_eq!(s.current_rotation, 1);
    assert!(!s.rotate_armed);
    // Latched: a second rotate re-arms instead of turning.
    s.handle_key(KeyCommand::Rotate);
    assert_eq!(s.current_rotation, 1);
    assert!(s.rotate_armed);
    s.handle_key(KeyCommand::Rotate);
    assert_eq!(s.current_rotation, 2);
}

#[test]
fn quit_raises_the_terminal_flag() {
    let mut s = GameState::new();
    s.handle_key(KeyCommand::Quit);
    assert!(s.game_over);
}

#[test]
fn tick_counter_fires_at_the_speed_threshold_and_resets() {
    let mut s = GameState::new();
    assert_eq!(s.speed, 20);
    for _ in 0..19 {
        assert!(!s.timing_tick());
    }
    assert!(s.timing_tick());
    assert_eq!(s.speed_count, 0);
    assert!(!s.timing_tick());
}

#[test]
fn random_spawn_always_picks_a_catalogue_piece() {
    let mut s = GameState::new();
    // Thirteen descents and one lock; the spawned piece is drawn by the
    // library itself.
    for _ in 0..14 {
        s.force_down();
    }
    assert_eq!(s.score, 25);
    assert_eq!(s.piece_count, 1);
    assert!(s.current_piece < 7);
    assert!(!s.game_over);
}

#[test]
fn blocked_spawn_ends_the_game() {
    let mut s = fresh_state(0, 0, 6, 13);
    // A locked cell inside the I piece's spawn column.
    s.field[2][8] = 5;
    s.force_down_with(0);
    assert!(s.game_over);
    assert_eq!(s.score, 25);
}

#[test]
fn tick_counter_wraps_at_its_ceiling() {
    let mut s = GameState::new();
    s.speed_count = 255;
    assert!(!s.timing_tick());
    assert_eq!(s.speed_count, 0);
}

#[test]
fn render_shows_borders_field_and_active_piece() {
    let mut s = GameState::new();
    s.field[16][3] = 4; // a locked cell
    let screen = s.render();
    assert_eq!(screen.len(), 18);
    assert_eq!(screen[0].len(), 12);
    // Borders as hashes.
    assert_eq!(screen[17][0], '#');
    assert_eq!(screen[0][0], '#');
    assert_eq!(screen[5][11], '#');
    // The locked cell through the symbol table.
    assert_eq!(screen[16][3], 'D');
    // The active I piece overlaid with its own letter.
    for y in 0..4 {
        assert_eq!(screen[y][8], 'A');
    }
    // An empty interior cell.
    assert_eq!(screen[9][5], ' ');
}
