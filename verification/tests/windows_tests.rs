use tetris::windows::{create_empty_window, Window, WindowError};

fn window_5_by_8() -> Window {
    Window { origin: (1, 1), height: 5, width: 8, contents: create_empty_window(5, 8) }
}

#[test]
fn empty_window_is_framed() {
    let contents = create_empty_window(5, 8);
    assert_eq!(contents.len(), 5);
    for row in &contents {
        assert_eq!(row.len(), 8);
    }
    assert_eq!(contents[0][0], '#');
    assert_eq!(contents[0][7], '#');
    assert_eq!(contents[4][0], '#');
    assert_eq!(contents[4][7], '#');
    for x in 1..7 {
        assert_eq!(contents[0][x], '-');
        assert_eq!(contents[4][x], '-');
    }
    for y in 1..4 {
        assert_eq!(contents[y][0], '|');
        assert_eq!(contents[y][7], '|');
        for x in 1..7 {
            assert_eq!(contents[y][x], ' ');
        }
    }
}

#[test]
fn smallest_window_is_one_corner() {
    let contents = create_empty_window(1, 1);
    assert_eq!(contents, vec![vec!['#']]);
}

#[test]
fn update_copies_the_block_in_place() {
    let mut w = window_5_by_8();
    let block = vec![vec!['a', 'b'], vec!['c', 'd']];
    let result = w.update(1, 2, &block);
    assert!(result.is_ok());
    assert_eq!(w.contents[1][2], 'a');
    assert_eq!(w.contents[1][3], 'b');
    assert_eq!(w.contents[2][2], 'c');
    assert_eq!(w.contents[2][3], 'd');
    // A cell beside the block is untouched.
    assert_eq!(w.contents[1][1], ' ');
    assert_eq!(w.contents[0][0], '#');
}

#[test]
fn update_out_of_bounds_is_refused_and_changes_nothing() {
    let mut w = window_5_by_8();
    let before = w.contents.clone();
    let tall = vec![vec!['x']; 6];
    assert_eq!(w.update(0, 0, &tall), Err(WindowError::OutOfBounds));
    assert_eq!(w.contents, before);
    let wide = vec![vec!['x'; 9]];
    assert_eq!(w.update(0, 0, &wide), Err(WindowError::OutOfBounds));
    assert_eq!(w.contents, before);
    // In bounds only until the offset pushes it out.
    let block = vec![vec!['x'; 3]];
    assert_eq!(w.update(4, 6, &block), Err(WindowError::OutOfBounds));
    assert_eq!(w.contents, before);
    assert!(w.update(4, 5, &block).is_ok());
}

#[test]
fn update_with_an_empty_block_changes_nothing() {
    let mut w = window_5_by_8();
    let before = w.contents.clone();
    let empty: Vec<Vec<char>> = Vec::new();
    assert!(w.update(3, 3, &empty).is_ok());
    assert_eq!(w.contents, before);
}

#[test]
fn update_accepts_ragged_blocks_that_stay_inside() {
    let mut w = window_5_by_8();
    let block = vec![vec!['a', 'b', 'c'], vec!['d']];
    assert!(w.update(2, 4, &block).is_ok());
    assert_eq!(w.contents[2][4], 'a');
    assert_eq!(w.contents[2][5], 'b');
    assert_eq!(w.contents[2][6], 'c');
    assert_eq!(w.contents[3][4], 'd');
    assert_eq!(w.contents[3][5], ' ');
}
