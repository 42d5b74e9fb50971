//! The rotation indexer: maps a local cell (px, py) of a piece's 4x4 mask,
//! together with a rotation state, to the index into the canonical
//! (unrotated) mask that supplies that cell's contents.

use vstd::prelude::*;

verus! {

/// One quarter-turn of a local 4x4 coordinate pair, as the x coordinate
/// of the source cell: the cell shown at (px, py) after one turn is read
/// from (py, 3 - px) in the unrotated mask.
pub open spec fn turn_x(px: int, py: int) -> int {
    py
}

/// One quarter-turn of a local 4x4 coordinate pair, y coordinate of the
/// source cell.
pub open spec fn turn_y(px: int, py: int) -> int {
    3 - px
}

/// The source cell of (px, py) after n quarter-turns, x coordinate.
pub open spec fn turn_n_x(px: int, py: int, n: nat) -> int
    decreases n,
{
    if n == 0 {
        px
    } else {
        turn_x(turn_n_x(px, py, (n - 1) as nat), turn_n_y(px, py, (n - 1) as nat))
    }
}

/// The source cell of (px, py) after n quarter-turns, y coordinate.
pub open spec fn turn_n_y(px: int, py: int, n: nat) -> int
    decreases n,
{
    if n == 0 {
        py
    } else {
        turn_y(turn_n_x(px, py, (n - 1) as nat), turn_n_y(px, py, (n - 1) as nat))
    }
}

/// Row-major index of a local cell in a 4x4 mask.
pub open spec fn mask_index(x: int, y: int) -> int {
    y * 4 + x
}

/// The rotation indexer itself: the closed-form index into the canonical
/// mask of the cell shown at (px, py) after r quarter-turns. The rotation
/// state is taken modulo 4.
pub open spec fn rotate_idx(px: int, py: int, r: int) -> int {
    if r % 4 == 0 {
        py * 4 + px
    } else if r % 4 == 1 {
        12 + py - px * 4
    } else if r % 4 == 2 {
        15 - py * 4 - px
    } else {
        3 - py + px * 4
    }
}

/// The indexer computes exactly the closed-form mapping and always lands
/// inside the 16-cell mask.
pub fn rotate(px: u8, py: u8, r: u8) -> (i: u8)
    requires
        px < 4,
        py < 4,
    ensures
        i == rotate_idx(px as int, py as int, r as int),
        i < 16,
{
    match r % 4 {
        0 => py * 4 + px,
        1 => 12 + py - px * 4,
        2 => 15 - py * 4 - px,
        _ => 3 - py + px * 4,
    }
}

/// The indexer's four closed forms are precisely the four standard
/// 90-degree-multiple rotations of a 4x4 grid: rotating by r quarter-turns
/// reads the cell that r quarter-turns carry onto (px, py).
pub proof fn lemma_rotate_is_quarter_turns(px: int, py: int, r: int)
    requires
        0 <= px < 4,
        0 <= py < 4,
        0 <= r,
    ensures
        rotate_idx(px, py, r) == mask_index(
            turn_n_x(px, py, (r % 4) as nat),
            turn_n_y(px, py, (r % 4) as nat),
        ),
{
    reveal_with_fuel(turn_n_x, 5);
    reveal_with_fuel(turn_n_y, 5);
    let m = (r % 4) as nat;
    if m == 0 {
    } else if m == 1 {
        assert(turn_n_x(px, py, 1) == py);
        assert(turn_n_y(px, py, 1) == 3 - px);
    } else if m == 2 {
        assert(turn_n_x(px, py, 2) == 3 - px);
        assert(turn_n_y(px, py, 2) == 3 - py);
    } else {
        assert(turn_n_x(px, py, 3) == 3 - py);
        assert(turn_n_y(px, py, 3) == px);
    }
}

/// Rotation is a group of order 4: four quarter-turns are the identity, so
/// the indexer at rotation state r + 4 reproduces the mapping at state r.
pub proof fn lemma_rotation_order_four(px: int, py: int, r: int)
    requires
        0 <= px < 4,
        0 <= py < 4,
        0 <= r,
    ensures
        rotate_idx(px, py, r + 4) == rotate_idx(px, py, r),
        turn_n_x(px, py, 4) == px,
        turn_n_y(px, py, 4) == py,
{
    reveal_with_fuel(turn_n_x, 5);
    reveal_with_fuel(turn_n_y, 5);
    assert((r + 4) % 4 == r % 4);
    assert(turn_n_x(px, py, 1) == py && turn_n_y(px, py, 1) == 3 - px);
    assert(turn_n_x(px, py, 2) == 3 - px && turn_n_y(px, py, 2) == 3 - py);
    assert(turn_n_x(px, py, 3) == 3 - py && turn_n_y(px, py, 3) == px);
    assert(turn_n_x(px, py, 4) == px && turn_n_y(px, py, 4) == py);
}

/// The source cell of (px, py) under rotation state r: rotating that cell
/// by r quarter-turns lands back on mask position (px, py). This inverts
/// the indexer, x coordinate.
pub open spec fn unrotate_x(px: int, py: int, r: int) -> int {
    if r % 4 == 0 {
        px
    } else if r % 4 == 1 {
        3 - py
    } else if r % 4 == 2 {
        3 - px
    } else {
        py
    }
}

/// Inverse of the indexer, y coordinate.
pub open spec fn unrotate_y(px: int, py: int, r: int) -> int {
    if r % 4 == 0 {
        py
    } else if r % 4 == 1 {
        px
    } else if r % 4 == 2 {
        3 - py
    } else {
        3 - px
    }
}

/// For every rotation state the indexer is onto the 16 mask cells: every
/// mask index ix + 4 * iy is hit by the local cell that `unrotate` names.
pub proof fn lemma_rotate_surjective(ix: int, iy: int, r: int)
    requires
        0 <= ix < 4,
        0 <= iy < 4,
        0 <= r,
    ensures
        0 <= unrotate_x(ix, iy, r) < 4,
        0 <= unrotate_y(ix, iy, r) < 4,
        rotate_idx(unrotate_x(ix, iy, r), unrotate_y(ix, iy, r), r) == mask_index(ix, iy),
{
}

} // verus!
