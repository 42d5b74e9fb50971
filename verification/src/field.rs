//! The playfield: a bordered occupancy grid of fixed dimensions, the
//! collision test against it, piece locking, completed-line detection and
//! the clear-and-compact step.
//!
//! Cell alphabet: `EMPTY_CELL` for a free interior cell, `1..=7` for a cell
//! locked by piece variant `value - 1`, `BORDER_CELL` for the outer ring,
//! and `CLEARING_CELL` for a completed row awaiting removal.

use vstd::prelude::*;

use crate::rotation::{rotate, rotate_idx, mask_index, unrotate_x, unrotate_y, lemma_rotate_surjective};
use crate::shapes::{
    get_shapes, mask_occupied, variant_mask, occupied_witness_index, lemma_variant_mask_nonempty,
    MASK_EMPTY, N_TETROMINOS,
};

verus! {

/// Field width in cells, border columns included.
pub const N_FIELD_WIDTH: usize = 12;

/// Field height in cells, border row included.
pub const N_FIELD_HEIGHT: usize = 18;

/// An interior cell no locked block occupies.
pub const EMPTY_CELL: u8 = 0;

/// A cell of the outer ring, never cleared and never overwritten.
pub const BORDER_CELL: u8 = 8;

/// A cell of a completed row that awaits the clear-and-compact step.
pub const CLEARING_CELL: u8 = 9;

/// The grid a vector of row vectors stands for.
pub open spec fn grid_of(rows: Seq<Vec<u8>>) -> Seq<Seq<u8>> {
    Seq::new(rows.len(), |y: int| rows[y]@)
}

/// Whether (x, y) lies on the outer ring: the two side columns or the
/// bottom row. The top row is open so that pieces may project above it.
pub open spec fn is_border(x: int, y: int) -> bool {
    x == 0 || x == N_FIELD_WIDTH - 1 || y == N_FIELD_HEIGHT - 1
}

/// A well-formed grid: the fixed dimensions, every cell a value of the
/// alphabet, and the outer ring all border.
pub open spec fn wf_grid(g: Seq<Seq<u8>>) -> bool {
    &&& g.len() == N_FIELD_HEIGHT
    &&& forall|y: int| 0 <= y < N_FIELD_HEIGHT ==> (#[trigger] g[y]).len() == N_FIELD_WIDTH
    &&& forall|y: int, x: int|
        0 <= y < N_FIELD_HEIGHT && 0 <= x < N_FIELD_WIDTH ==> #[trigger] g[y][x] <= CLEARING_CELL
    &&& forall|y: int, x: int|
        0 <= y < N_FIELD_HEIGHT && 0 <= x < N_FIELD_WIDTH && is_border(x, y)
            ==> #[trigger] g[y][x] == BORDER_CELL
}

/// An interior row with its two border cells.
pub open spec fn empty_row() -> Seq<u8> {
    Seq::new(N_FIELD_WIDTH as nat, |x: int|
        if x == 0 || x == N_FIELD_WIDTH - 1 { BORDER_CELL } else { EMPTY_CELL })
}

/// The freshly bordered empty field a game starts from.
pub open spec fn empty_grid() -> Seq<Seq<u8>> {
    Seq::new(N_FIELD_HEIGHT as nat, |y: int| Seq::new(N_FIELD_WIDTH as nat, |x: int|
        if is_border(x, y) { BORDER_CELL } else { EMPTY_CELL }))
}

/// Builds the freshly bordered empty field.
pub fn create_field() -> (field: Vec<Vec<u8>>)
    ensures
        grid_of(field@) == empty_grid(),
        wf_grid(grid_of(field@)),
{
    let mut field: Vec<Vec<u8>> = Vec::new();
    let mut y: usize = 0;
    while y < N_FIELD_HEIGHT
        invariant
            y <= N_FIELD_HEIGHT,
            field@.len() == y,
            forall|r: int| 0 <= r < y ==> #[trigger] grid_of(field@)[r] == empty_grid()[r],
        decreases N_FIELD_HEIGHT - y,
    {
        let mut row: Vec<u8> = Vec::new();
        let mut x: usize = 0;
        while x < N_FIELD_WIDTH
            invariant
                x <= N_FIELD_WIDTH,
                y < N_FIELD_HEIGHT,
                row@.len() == x,
                forall|c: int| 0 <= c < x ==> row@[c] == empty_grid()[y as int][c],
            decreases N_FIELD_WIDTH - x,
        {
            if x == 0 || x == N_FIELD_WIDTH - 1 || y == N_FIELD_HEIGHT - 1 {
                row.push(BORDER_CELL);
            } else {
                row.push(EMPTY_CELL);
            }
            x += 1;
        }
        proof {
            assert(row@ =~= empty_grid()[y as int]);
        }
        let ghost pre = field@;
        field.push(row);
        proof {
            assert forall|r: int| 0 <= r < y + 1 implies #[trigger] grid_of(field@)[r]
                == empty_grid()[r] by {
                if r < y {
                    assert(field@[r] == pre[r]);
                    assert(grid_of(pre)[r] == empty_grid()[r]);
                }
            }
        }
        y += 1;
    }
    proof {
        assert(grid_of(field@) =~= empty_grid());
    }
    field
}

/// Whether one rotated, occupied piece cell may stand at absolute field
/// coordinates (fx, fy): cells above the top row are legitimate, any other
/// cell must lie inside the field and over the empty sentinel. A cell past
/// either side or below the bottom fails the fit.
pub open spec fn pose_cell_ok(g: Seq<Seq<u8>>, fx: int, fy: int) -> bool {
    fy < 0 || (0 <= fx < N_FIELD_WIDTH && 0 <= fy < N_FIELD_HEIGHT && g[fy][fx] == EMPTY_CELL)
}

/// The fit test: piece variant v, rotated by r, with its mask origin at
/// (x, y), placed over grid g. Holds exactly when every occupied rotated
/// cell may stand at its absolute coordinates.
pub open spec fn fits_spec(v: int, r: int, x: int, y: int, g: Seq<Seq<u8>>) -> bool {
    forall|px: int, py: int|
        0 <= px < 4 && 0 <= py < 4
            && mask_occupied(variant_mask(v), #[trigger] rotate_idx(px, py, r))
            ==> pose_cell_ok(g, x + px, y + py)
}

/// The collision test of the engine: whether piece `n_tetromino`, in
/// rotation state `n_rotation`, fits with its mask origin at
/// (n_pos_x, n_pos_y) over the field. Position arithmetic is carried out
/// wide and signed, so a probe one cell past an edge is out of bounds and
/// fails the fit instead of wrapping.
pub fn does_it_fit(
    n_tetromino: u8,
    n_rotation: u8,
    n_pos_x: i16,
    n_pos_y: i16,
    field: &Vec<Vec<u8>>,
) -> (b: bool)
    requires
        n_tetromino < N_TETROMINOS,
        wf_grid(grid_of(field@)),
    ensures
        b == fits_spec(
            n_tetromino as int,
            n_rotation as int,
            n_pos_x as int,
            n_pos_y as int,
            grid_of(field@),
        ),
{
    let ghost g = grid_of(field@);
    let ghost v = n_tetromino as int;
    let ghost r = n_rotation as int;
    let ghost x = n_pos_x as int;
    let ghost y = n_pos_y as int;
    let tetrominos = get_shapes();
    let shape = tetrominos[n_tetromino as usize].shape();
    let mut px: u8 = 0;
    while px < 4
        invariant
            px <= 4,
            n_tetromino < N_TETROMINOS,
            wf_grid(g),
            g == grid_of(field@),
            shape@ == variant_mask(v),
            v == n_tetromino as int,
            r == n_rotation as int,
            x == n_pos_x as int,
            y == n_pos_y as int,
            forall|qx: int, qy: int|
                0 <= qx < px && 0 <= qy < 4
                    && mask_occupied(variant_mask(v), #[trigger] rotate_idx(qx, qy, r))
                    ==> pose_cell_ok(g, x + qx, y + qy),
        decreases 4 - px,
    {
        let mut py: u8 = 0;
        while py < 4
            invariant
                px < 4,
                py <= 4,
                n_tetromino < N_TETROMINOS,
                wf_grid(g),
                g == grid_of(field@),
                shape@ == variant_mask(v),
                v == n_tetromino as int,
                r == n_rotation as int,
                x == n_pos_x as int,
                y == n_pos_y as int,
                forall|qx: int, qy: int|
                    0 <= qx < px && 0 <= qy < 4
                        && mask_occupied(variant_mask(v), #[trigger] rotate_idx(qx, qy, r))
                        ==> pose_cell_ok(g, x + qx, y + qy),
                forall|qy: int|
                    0 <= qy < py
                        && mask_occupied(variant_mask(v), #[trigger] rotate_idx(px as int, qy, r))
                        ==> pose_cell_ok(g, x + px, y + qy),
            decreases 4 - py,
        {
            let pi = rotate(px, py, n_rotation);
            proof {
                assert(variant_mask(v).len() == 16);
            }
            if shape[pi as usize] != MASK_EMPTY {
                let fx: i32 = n_pos_x as i32 + px as i32;
                let fy: i32 = n_pos_y as i32 + py as i32;
                if fy >= 0 {
                    proof {
                        assert(g.len() == N_FIELD_HEIGHT && field@.len() == N_FIELD_HEIGHT);
                    }
                    if fx < 0 || fx >= N_FIELD_WIDTH as i32 || fy >= N_FIELD_HEIGHT as i32 {
                        proof {
                            assert(!pose_cell_ok(g, x + px, y + py));
                            assert(!fits_spec(v, r, x, y, g));
                        }
                        return false;
                    }
                    proof {
                        assert(g[fy as int].len() == N_FIELD_WIDTH);
                        assert(field@[fy as int]@ == g[fy as int]);
                    }
                    if field[fy as usize][fx as usize] != EMPTY_CELL {
                        proof {
                            assert(g[fy as int][fx as int] != EMPTY_CELL);
                            assert(!pose_cell_ok(g, x + px, y + py));
                            assert(!fits_spec(v, r, x, y, g));
                        }
                        return false;
                    }
                }
            }
            py += 1;
        }
        px += 1;
    }
    true
}

/// Whether the piece at pose (v, r, x, y) occupies absolute cell (fx, fy).
pub open spec fn piece_covers(v: int, r: int, x: int, y: int, fx: int, fy: int) -> bool {
    exists|px: int, py: int|
        0 <= px < 4 && 0 <= py < 4
            && mask_occupied(variant_mask(v), #[trigger] rotate_idx(px, py, r))
            && fx == x + px && fy == y + py
}

/// Like `piece_covers`, restricted to the first n local cells in the scan
/// order px * 4 + py: the intermediate states of the stamping loop.
spec fn piece_covers_scanned(v: int, r: int, x: int, y: int, fx: int, fy: int, n: int) -> bool {
    exists|px: int, py: int|
        0 <= px < 4 && 0 <= py < 4 && px * 4 + py < n
            && mask_occupied(variant_mask(v), #[trigger] rotate_idx(px, py, r))
            && fx == x + px && fy == y + py
}

/// The grid after locking the piece at pose (v, r, x, y): every covered
/// cell is stamped with the variant's locked value v + 1, every other cell
/// keeps what it held.
pub open spec fn lock_spec(g: Seq<Seq<u8>>, v: int, r: int, x: int, y: int) -> Seq<Seq<u8>> {
    Seq::new(g.len(), |fy: int| Seq::new(g[fy].len(), |fx: int|
        if piece_covers(v, r, x, y, fx, fy) { (v + 1) as u8 } else { g[fy][fx] }))
}

/// A cell the fitting piece covers is an interior cell that held the empty
/// sentinel: what the fit test promised of every occupied cell.
pub proof fn lemma_covered_cell_empty(
    g: Seq<Seq<u8>>,
    v: int,
    r: int,
    x: int,
    y: int,
    fx: int,
    fy: int,
)
    requires
        wf_grid(g),
        fits_spec(v, r, x, y, g),
        0 <= y,
        piece_covers(v, r, x, y, fx, fy),
    ensures
        0 <= fx < N_FIELD_WIDTH,
        0 <= fy < N_FIELD_HEIGHT,
        g[fy][fx] == EMPTY_CELL,
        !is_border(fx, fy),
{
    let (px, py) = choose|px: int, py: int|
        0 <= px < 4 && 0 <= py < 4
            && mask_occupied(variant_mask(v), #[trigger] rotate_idx(px, py, r))
            && fx == x + px && fy == y + py;
    assert(pose_cell_ok(g, x + px, y + py));
}

/// Locking a fitting piece keeps the grid well formed and leaves every
/// border cell, and every cell the piece does not cover, unchanged.
pub proof fn lemma_lock_wf(g: Seq<Seq<u8>>, v: int, r: int, x: int, y: int)
    requires
        wf_grid(g),
        0 <= v < 7,
        fits_spec(v, r, x, y, g),
        0 <= y,
    ensures
        wf_grid(lock_spec(g, v, r, x, y)),
        forall|fy: int, fx: int|
            0 <= fy < N_FIELD_HEIGHT && 0 <= fx < N_FIELD_WIDTH && is_border(fx, fy)
                ==> lock_spec(g, v, r, x, y)[fy][fx] == g[fy][fx],
{
    let locked = lock_spec(g, v, r, x, y);
    assert forall|fy: int, fx: int|
        0 <= fy < N_FIELD_HEIGHT && 0 <= fx < N_FIELD_WIDTH && is_border(fx, fy)
            implies locked[fy][fx] == g[fy][fx] by {
        if piece_covers(v, r, x, y, fx, fy) {
            lemma_covered_cell_empty(g, v, r, x, y, fx, fy);
        }
    }
}

/// Stamps every occupied rotated cell of the piece into the field as
/// locked. Only the piece's own cells change; the fit test must hold, so
/// each of them is an interior empty cell.
pub fn lock_piece(
    field: &mut Vec<Vec<u8>>,
    n_tetromino: u8,
    n_rotation: u8,
    n_pos_x: i16,
    n_pos_y: i16,
)
    requires
        wf_grid(grid_of(old(field)@)),
        n_tetromino < N_TETROMINOS,
        0 <= n_pos_y,
        fits_spec(
            n_tetromino as int,
            n_rotation as int,
            n_pos_x as int,
            n_pos_y as int,
            grid_of(old(field)@),
        ),
    ensures
        grid_of(final(field)@) == lock_spec(
            grid_of(old(field)@),
            n_tetromino as int,
            n_rotation as int,
            n_pos_x as int,
            n_pos_y as int,
        ),
        wf_grid(grid_of(final(field)@)),
{
    let ghost g0 = grid_of(field@);
    let ghost v = n_tetromino as int;
    let ghost r = n_rotation as int;
    let ghost x = n_pos_x as int;
    let ghost y = n_pos_y as int;
    proof {
        assert forall|fy: int| 0 <= fy < N_FIELD_HEIGHT
            implies (#[trigger] field@[fy])@.len() == N_FIELD_WIDTH by {
            assert(grid_of(field@)[fy] == field@[fy]@);
        }
    }
    let tetrominos = get_shapes();
    let shape = tetrominos[n_tetromino as usize].shape();
    let mut n: usize = 0;
    while n < 16
        invariant
            n <= 16,
            n_tetromino < N_TETROMINOS,
            wf_grid(g0),
            fits_spec(v, r, x, y, g0),
            0 <= y,
            shape@ == variant_mask(v),
            v == n_tetromino as int,
            r == n_rotation as int,
            x == n_pos_x as int,
            y == n_pos_y as int,
            field@.len() == N_FIELD_HEIGHT,
            g0.len() == N_FIELD_HEIGHT,
            forall|fy: int| 0 <= fy < N_FIELD_HEIGHT
                ==> (#[trigger] field@[fy])@.len() == N_FIELD_WIDTH,
            forall|fy: int, fx: int|
                0 <= fy < N_FIELD_HEIGHT && 0 <= fx < N_FIELD_WIDTH
                    ==> #[trigger] field@[fy]@[fx] == (if piece_covers_scanned(
                        v, r, x, y, fx, fy, n as int,
                    ) {
                        (v + 1) as u8
                    } else {
                        g0[fy][fx]
                    }),
        decreases 16 - n,
    {
        let px: u8 = (n / 4) as u8;
        let py: u8 = (n % 4) as u8;
        let pi = rotate(px, py, n_rotation);
        proof {
            assert(variant_mask(v).len() == 16);
        }
        let ghost pre = field@;
        if shape[pi as usize] != MASK_EMPTY {
            proof {
                assert(mask_occupied(variant_mask(v), rotate_idx(px as int, py as int, r)));
                assert(pose_cell_ok(g0, x + px, y + py));
            }
            let fx: i32 = n_pos_x as i32 + px as i32;
            let fy: i32 = n_pos_y as i32 + py as i32;
            field[fy as usize][fx as usize] = n_tetromino + 1;
        }
        proof {
            assert forall|gy: int, gx: int|
                0 <= gy < N_FIELD_HEIGHT && 0 <= gx < N_FIELD_WIDTH
                    implies field@[gy]@[gx] == (if piece_covers_scanned(
                        v, r, x, y, gx, gy, n + 1,
                    ) {
                        (v + 1) as u8
                    } else {
                        g0[gy][gx]
                    }) by {
                let cell_occupied = mask_occupied(variant_mask(v), rotate_idx(px as int, py as int, r));
                let is_new = cell_occupied && gx == x + px && gy == y + py;
                if piece_covers_scanned(v, r, x, y, gx, gy, n + 1) {
                    let (qx, qy) = choose|qx: int, qy: int|
                        0 <= qx < 4 && 0 <= qy < 4 && qx * 4 + qy < n + 1
                            && mask_occupied(variant_mask(v), #[trigger] rotate_idx(qx, qy, r))
                            && gx == x + qx && gy == y + qy;
                    if qx * 4 + qy < n {
                        assert(piece_covers_scanned(v, r, x, y, gx, gy, n as int));
                        assert(pre[gy]@[gx] == (v + 1) as u8);
                        if is_new {
                            assert(field@[gy]@[gx] == (v + 1) as u8);
                        } else {
                            assert(field@[gy]@[gx] == pre[gy]@[gx]);
                        }
                    } else {
                        assert(qx == px as int && qy == py as int);
                        assert(is_new);
                        assert(field@[gy]@[gx] == (v + 1) as u8);
                    }
                } else {
                    assert(!piece_covers_scanned(v, r, x, y, gx, gy, n as int));
                    assert(!is_new);
                    assert(field@[gy]@[gx] == pre[gy]@[gx]);
                }
            }
        }
        n += 1;
    }
    proof {
        assert forall|fy: int, fx: int|
            0 <= fy < N_FIELD_HEIGHT && 0 <= fx < N_FIELD_WIDTH
                implies piece_covers_scanned(v, r, x, y, fx, fy, 16)
                    == piece_covers(v, r, x, y, fx, fy) by {
            if piece_covers(v, r, x, y, fx, fy) {
                let (qx, qy) = choose|qx: int, qy: int|
                    0 <= qx < 4 && 0 <= qy < 4
                        && mask_occupied(variant_mask(v), #[trigger] rotate_idx(qx, qy, r))
                        && fx == x + qx && fy == y + qy;
                assert(qx * 4 + qy < 16);
                assert(piece_covers_scanned(v, r, x, y, fx, fy, 16));
            }
        }
        assert forall|fy: int| 0 <= fy < N_FIELD_HEIGHT
            implies grid_of(field@)[fy] =~= lock_spec(g0, v, r, x, y)[fy] by {
            assert(g0[fy].len() == N_FIELD_WIDTH);
        }
        assert(grid_of(field@) =~= lock_spec(g0, v, r, x, y));
        lemma_lock_wf(g0, v, r, x, y);
    }
}

/// Locking a piece blocks its own pose: re-querying the fit test for the
/// very pose that was just locked returns false, because the stamped cells
/// are no longer empty.
pub proof fn lemma_lock_blocks_pose(g: Seq<Seq<u8>>, v: int, r: int, x: int, y: int)
    requires
        wf_grid(g),
        0 <= v < 7,
        0 <= r,
        fits_spec(v, r, x, y, g),
        0 <= y,
    ensures
        !fits_spec(v, r, x, y, lock_spec(g, v, r, x, y)),
{
    let locked = lock_spec(g, v, r, x, y);
    lemma_variant_mask_nonempty(v);
    let i = occupied_witness_index(v);
    let ix = i % 4;
    let iy = i / 4;
    lemma_rotate_surjective(ix, iy, r);
    let px = unrotate_x(ix, iy, r);
    let py = unrotate_y(ix, iy, r);
    assert(rotate_idx(px, py, r) == mask_index(ix, iy));
    assert(mask_index(ix, iy) == i);
    assert(mask_occupied(variant_mask(v), rotate_idx(px, py, r)));
    let fx = x + px;
    let fy = y + py;
    assert(piece_covers(v, r, x, y, fx, fy));
    lemma_covered_cell_empty(g, v, r, x, y, fx, fy);
    assert(locked[fy][fx] == (v + 1) as u8);
    assert(!pose_cell_ok(locked, fx, fy));
}

/// A completed row: every interior cell (the border columns excluded) is
/// occupied by something other than the empty sentinel.
pub open spec fn row_complete(g: Seq<Seq<u8>>, y: int) -> bool {
    forall|x: int| 1 <= x < N_FIELD_WIDTH - 1 ==> #[trigger] g[y][x] != EMPTY_CELL
}

/// Tests one row for completeness.
pub fn row_is_complete(field: &Vec<Vec<u8>>, y: usize) -> (b: bool)
    requires
        wf_grid(grid_of(field@)),
        y < N_FIELD_HEIGHT,
    ensures
        b == row_complete(grid_of(field@), y as int),
{
    let ghost g = grid_of(field@);
    let mut x: usize = 1;
    while x < N_FIELD_WIDTH - 1
        invariant
            1 <= x <= N_FIELD_WIDTH - 1,
            y < N_FIELD_HEIGHT,
            wf_grid(g),
            g == grid_of(field@),
            forall|c: int| 1 <= c < x ==> #[trigger] g[y as int][c] != EMPTY_CELL,
        decreases N_FIELD_WIDTH - x,
    {
        proof {
            assert(g[y as int].len() == N_FIELD_WIDTH);
            assert(field@[y as int]@ == g[y as int]);
        }
        if field[y][x] == EMPTY_CELL {
            return false;
        }
        x += 1;
    }
    true
}

/// The rows the locked piece may have completed, among the up-to-four rows
/// its mask spans, considering only the first k of those rows: interior row
/// indices in ascending order, each of them complete.
pub open spec fn completed_rows_upto(g: Seq<Seq<u8>>, y: int, k: nat) -> Seq<u8>
    decreases k,
{
    if k == 0 {
        Seq::empty()
    } else {
        let row = y + k - 1;
        completed_rows_upto(g, y, (k - 1) as nat) + (if 0 <= row < N_FIELD_HEIGHT - 1
            && row_complete(g, row) {
            seq![row as u8]
        } else {
            Seq::empty()
        })
    }
}

/// The completed-lines buffer a lock at mask origin row y produces.
pub open spec fn completed_rows(g: Seq<Seq<u8>>, y: int) -> Seq<u8> {
    completed_rows_upto(g, y, 4)
}

/// Whether the buffer holds row fy.
pub open spec fn contains_row(lines: Seq<u8>, fy: int) -> bool {
    exists|i: int| 0 <= i < lines.len() && lines[i] == fy
}

/// The grid with every buffered row's interior overwritten by the clearing
/// sentinel; everything else unchanged.
pub open spec fn mark_spec(g: Seq<Seq<u8>>, lines: Seq<u8>) -> Seq<Seq<u8>> {
    Seq::new(g.len(), |fy: int| Seq::new(g[fy].len(), |fx: int|
        if contains_row(lines, fy) && 1 <= fx < N_FIELD_WIDTH - 1 {
            CLEARING_CELL
        } else {
            g[fy][fx]
        }))
}

/// The grid with one row's interior overwritten by the clearing sentinel.
pub open spec fn mark_one(g: Seq<Seq<u8>>, y: int) -> Seq<Seq<u8>> {
    Seq::new(g.len(), |fy: int| Seq::new(g[fy].len(), |fx: int|
        if fy == y && 1 <= fx < N_FIELD_WIDTH - 1 {
            CLEARING_CELL
        } else {
            g[fy][fx]
        }))
}

/// Overwrites one interior row with the clearing sentinel.
fn fill_row_clearing(field: &mut Vec<Vec<u8>>, y: usize)
    requires
        wf_grid(grid_of(old(field)@)),
        y < N_FIELD_HEIGHT - 1,
    ensures
        grid_of(final(field)@) == mark_one(grid_of(old(field)@), y as int),
        wf_grid(grid_of(final(field)@)),
{
    let ghost g0 = grid_of(field@);
    proof {
        assert forall|fy: int| 0 <= fy < N_FIELD_HEIGHT
            implies (#[trigger] field@[fy])@.len() == N_FIELD_WIDTH by {
            assert(grid_of(field@)[fy] == field@[fy]@);
        }
    }
    let mut x: usize = 1;
    while x < N_FIELD_WIDTH - 1
        invariant
            1 <= x <= N_FIELD_WIDTH - 1,
            y < N_FIELD_HEIGHT - 1,
            wf_grid(g0),
            g0.len() == N_FIELD_HEIGHT,
            field@.len() == N_FIELD_HEIGHT,
            forall|fy: int| 0 <= fy < N_FIELD_HEIGHT
                ==> (#[trigger] field@[fy])@.len() == N_FIELD_WIDTH,
            forall|fy: int, fx: int|
                0 <= fy < N_FIELD_HEIGHT && 0 <= fx < N_FIELD_WIDTH
                    ==> #[trigger] field@[fy]@[fx] == (if fy == y && 1 <= fx < x {
                        CLEARING_CELL
                    } else {
                        g0[fy][fx]
                    }),
        decreases N_FIELD_WIDTH - x,
    {
        field[y][x] = CLEARING_CELL;
        x += 1;
    }
    proof {
        assert forall|fy: int| 0 <= fy < N_FIELD_HEIGHT
            implies grid_of(field@)[fy] =~= mark_one(g0, y as int)[fy] by {
            assert(g0[fy].len() == N_FIELD_WIDTH);
        }
        assert(grid_of(field@) =~= mark_one(g0, y as int));
    }
}

/// After a lock: walks the up-to-four rows the piece spans, collects the
/// complete interior rows in ascending order into the completed-lines
/// buffer, and marks each of them with the clearing sentinel.
pub fn find_completed_lines(field: &mut Vec<Vec<u8>>, n_pos_y: i16) -> (lines: Vec<u8>)
    requires
        wf_grid(grid_of(old(field)@)),
    ensures
        lines@ == completed_rows(grid_of(old(field)@), n_pos_y as int),
        grid_of(final(field)@) == mark_spec(grid_of(old(field)@), lines@),
        wf_grid(grid_of(final(field)@)),
        forall|i: int| 0 <= i < lines@.len() ==> #[trigger] lines@[i] < N_FIELD_HEIGHT - 1,
{
    let ghost g0 = grid_of(field@);
    let ghost y = n_pos_y as int;
    let mut lines: Vec<u8> = Vec::new();
    let mut k: usize = 0;
    while k < 4
        invariant
            k <= 4,
            wf_grid(g0),
            g0 == grid_of(field@),
            y == n_pos_y as int,
            lines@ == completed_rows_upto(g0, y, k as nat),
            forall|i: int| 0 <= i < lines@.len() ==> #[trigger] lines@[i] < N_FIELD_HEIGHT - 1,
        decreases 4 - k,
    {
        let row: i32 = n_pos_y as i32 + k as i32;
        if row >= 0 && row < (N_FIELD_HEIGHT - 1) as i32 {
            if row_is_complete(field, row as usize) {
                lines.push(row as u8);
                proof {
                    assert(lines@ =~= completed_rows_upto(g0, y, (k + 1) as nat));
                }
            }
        }
        proof {
            assert(lines@ =~= completed_rows_upto(g0, y, (k + 1) as nat));
        }
        k += 1;
    }
    let ghost all = lines@;
    proof {
        assert forall|fy: int| 0 <= fy < N_FIELD_HEIGHT
            implies grid_of(field@)[fy] =~= mark_spec(g0, all.take(0))[fy] by {
            assert(g0[fy].len() == N_FIELD_WIDTH);
        }
        assert(grid_of(field@) =~= mark_spec(g0, all.take(0)));
    }
    let mut i: usize = 0;
    while i < lines.len()
        invariant
            i <= lines@.len(),
            wf_grid(g0),
            lines@ == all,
            forall|j: int| 0 <= j < all.len() ==> #[trigger] all[j] < N_FIELD_HEIGHT - 1,
            grid_of(field@) == mark_spec(g0, all.take(i as int)),
            wf_grid(grid_of(field@)),
        decreases lines@.len() - i,
    {
        let ghost pre = grid_of(field@);
        let row = lines[i];
        fill_row_clearing(field, row as usize);
        proof {
            let taken = all.take(i as int);
            let taken1 = all.take(i + 1);
            assert forall|fy: int| 0 <= fy < N_FIELD_HEIGHT
                implies grid_of(field@)[fy] =~= mark_spec(g0, taken1)[fy] by {
                assert(g0[fy].len() == N_FIELD_WIDTH);
                assert forall|fx: int| 0 <= fx < N_FIELD_WIDTH
                    implies grid_of(field@)[fy][fx] == mark_spec(g0, taken1)[fy][fx] by {
                    assert(grid_of(field@)[fy][fx] == mark_one(pre, row as int)[fy][fx]);
                    if contains_row(taken1, fy) {
                        let j = choose|j: int| 0 <= j < taken1.len() && taken1[j] == fy;
                        if j < i {
                            assert(contains_row(taken, fy));
                        } else {
                            assert(fy == row as int);
                        }
                    }
                    if contains_row(taken, fy) {
                        let j = choose|j: int| 0 <= j < taken.len() && taken[j] == fy;
                        assert(taken1[j] == fy);
                        assert(contains_row(taken1, fy));
                    }
                    if fy == row as int {
                        assert(taken1[i as int] == fy);
                        assert(contains_row(taken1, fy));
                    }
                }
            }
            assert(grid_of(field@) =~= mark_spec(g0, taken1));
        }
        i += 1;
    }
    proof {
        assert(all.take(all.len() as int) =~= all);
    }
    lines
}

/// The grid after clearing one marked row y: every row above it shifts down
/// by one (row fy takes what row fy - 1 held), the vacated top row becomes
/// empty with its border columns re-asserted, and every row below y keeps
/// what it held.
pub open spec fn clear_one(g: Seq<Seq<u8>>, y: int) -> Seq<Seq<u8>> {
    Seq::new(g.len(), |fy: int|
        if fy == 0 {
            empty_row()
        } else if fy <= y {
            g[fy - 1]
        } else {
            g[fy]
        })
}

/// The grid after clearing every buffered row, in the buffer's (ascending)
/// order. Clearing a row moves no row below it, so each later buffered
/// index still names the row that was marked.
pub open spec fn clear_many(g: Seq<Seq<u8>>, lines: Seq<u8>) -> Seq<Seq<u8>>
    decreases lines.len(),
{
    if lines.len() == 0 {
        g
    } else {
        clear_many(clear_one(g, lines[0] as int), lines.drop_first())
    }
}

/// Folding one more row into `clear_many` from the right.
pub proof fn lemma_clear_many_push(g: Seq<Seq<u8>>, lines: Seq<u8>, l: u8)
    ensures
        clear_many(g, lines.push(l)) == clear_one(clear_many(g, lines), l as int),
    decreases lines.len(),
{
    if lines.len() == 0 {
        assert(lines.push(l)[0] == l);
        assert(lines.push(l).drop_first() =~= Seq::<u8>::empty());
        assert(clear_many(g, lines) == g);
        assert(clear_many(clear_one(g, l as int), Seq::<u8>::empty()) == clear_one(g, l as int));
        assert(clear_many(g, lines.push(l)) == clear_one(g, l as int));
    } else {
        assert(lines.push(l)[0] == lines[0]);
        assert(lines.push(l).drop_first() =~= lines.drop_first().push(l));
        assert(clear_many(g, lines.push(l)) == clear_many(
            clear_one(g, lines[0] as int),
            lines.drop_first().push(l),
        ));
        lemma_clear_many_push(clear_one(g, lines[0] as int), lines.drop_first(), l);
        assert(clear_many(g, lines) == clear_many(
            clear_one(g, lines[0] as int),
            lines.drop_first(),
        ));
    }
}

/// Clearing one interior row keeps the grid well formed: the shifted rows
/// carry their border columns with them, the fresh top row is bordered, and
/// the bottom border row lies below every cleared row.
pub proof fn lemma_clear_one_wf(g: Seq<Seq<u8>>, y: int)
    requires
        wf_grid(g),
        0 <= y < N_FIELD_HEIGHT - 1,
    ensures
        wf_grid(clear_one(g, y)),
        forall|fy: int, fx: int|
            0 <= fy < N_FIELD_HEIGHT && 0 <= fx < N_FIELD_WIDTH && is_border(fx, fy)
                ==> clear_one(g, y)[fy][fx] == g[fy][fx],
{
}

/// Copies row src of the field over row dst, cell by cell.
fn copy_row(field: &mut Vec<Vec<u8>>, dst: usize, src: usize)
    requires
        grid_of(old(field)@).len() == N_FIELD_HEIGHT,
        forall|fy: int| 0 <= fy < N_FIELD_HEIGHT
            ==> (#[trigger] grid_of(old(field)@)[fy]).len() == N_FIELD_WIDTH,
        dst < N_FIELD_HEIGHT,
        src < N_FIELD_HEIGHT,
        dst != src,
    ensures
        grid_of(final(field)@).len() == N_FIELD_HEIGHT,
        forall|fy: int| 0 <= fy < N_FIELD_HEIGHT
            ==> (#[trigger] grid_of(final(field)@)[fy]).len() == N_FIELD_WIDTH,
        grid_of(final(field)@)[dst as int] == grid_of(old(field)@)[src as int],
        forall|fy: int| 0 <= fy < N_FIELD_HEIGHT && fy != dst
            ==> #[trigger] grid_of(final(field)@)[fy] == grid_of(old(field)@)[fy],
{
    let ghost g0 = grid_of(field@);
    proof {
        assert forall|fy: int| 0 <= fy < N_FIELD_HEIGHT
            implies (#[trigger] field@[fy])@.len() == N_FIELD_WIDTH by {
            assert(grid_of(field@)[fy] == field@[fy]@);
        }
    }
    let mut x: usize = 0;
    while x < N_FIELD_WIDTH
        invariant
            x <= N_FIELD_WIDTH,
            dst < N_FIELD_HEIGHT,
            src < N_FIELD_HEIGHT,
            dst != src,
            g0.len() == N_FIELD_HEIGHT,
            field@.len() == N_FIELD_HEIGHT,
            forall|fy: int| 0 <= fy < N_FIELD_HEIGHT
                ==> (#[trigger] field@[fy])@.len() == N_FIELD_WIDTH,
            forall|fy: int| 0 <= fy < N_FIELD_HEIGHT && fy != dst
                ==> #[trigger] field@[fy]@ == g0[fy],
            forall|fx: int| 0 <= fx < N_FIELD_WIDTH
                ==> #[trigger] field@[dst as int]@[fx] == (if fx < x {
                    g0[src as int][fx]
                } else {
                    g0[dst as int][fx]
                }),
        decreases N_FIELD_WIDTH - x,
    {
        let v = field[src][x];
        field[dst][x] = v;
        x += 1;
    }
    proof {
        assert(grid_of(field@)[dst as int] =~= g0[src as int]);
    }
}

/// Builds one empty bordered row.
fn make_empty_row() -> (row: Vec<u8>)
    ensures
        row@ == empty_row(),
{
    let mut row: Vec<u8> = Vec::new();
    let mut x: usize = 0;
    while x < N_FIELD_WIDTH
        invariant
            x <= N_FIELD_WIDTH,
            row@.len() == x,
            forall|c: int| 0 <= c < x ==> row@[c] == empty_row()[c],
        decreases N_FIELD_WIDTH - x,
    {
        if x == 0 || x == N_FIELD_WIDTH - 1 {
            row.push(BORDER_CELL);
        } else {
            row.push(EMPTY_CELL);
        }
        x += 1;
    }
    proof {
        assert(row@ =~= empty_row());
    }
    row
}

/// Clears one marked row: rows above shift down one, the top row becomes
/// empty, rows below and the border columns keep what they held.
pub fn clear_row(field: &mut Vec<Vec<u8>>, y: u8)
    requires
        wf_grid(grid_of(old(field)@)),
        y < N_FIELD_HEIGHT - 1,
    ensures
        grid_of(final(field)@) == clear_one(grid_of(old(field)@), y as int),
        wf_grid(grid_of(final(field)@)),
{
    let ghost g0 = grid_of(field@);
    let mut fy: usize = y as usize;
    while fy >= 1
        invariant
            fy <= y as int,
            y < N_FIELD_HEIGHT - 1,
            wf_grid(g0),
            g0.len() == N_FIELD_HEIGHT,
            grid_of(field@).len() == N_FIELD_HEIGHT,
            forall|r: int| 0 <= r < N_FIELD_HEIGHT
                ==> (#[trigger] grid_of(field@)[r]).len() == N_FIELD_WIDTH,
            forall|r: int| 0 <= r <= fy ==> #[trigger] grid_of(field@)[r] == g0[r],
            forall|r: int| fy < r <= y as int ==> #[trigger] grid_of(field@)[r] == g0[r - 1],
            forall|r: int| (y as int) < r < N_FIELD_HEIGHT ==> #[trigger] grid_of(field@)[r] == g0[r],
        decreases fy,
    {
        copy_row(field, fy, fy - 1);
        fy -= 1;
    }
    let row0 = make_empty_row();
    let ghost pre = field@;
    field[0] = row0;
    proof {
        assert forall|r: int| 0 <= r < N_FIELD_HEIGHT
            implies #[trigger] grid_of(field@)[r] == (if r == 0 {
                empty_row()
            } else {
                grid_of(pre)[r]
            }) by {
            if r > 0 {
                assert(field@[r] == pre[r]);
            }
        }
        assert(grid_of(field@) =~= clear_one(g0, y as int));
        lemma_clear_one_wf(g0, y as int);
    }
}

/// Drains the completed-lines buffer: clears every buffered row, in the
/// buffer's order.
pub fn clear_lines(field: &mut Vec<Vec<u8>>, lines: &Vec<u8>)
    requires
        wf_grid(grid_of(old(field)@)),
        forall|i: int| 0 <= i < lines@.len() ==> #[trigger] lines@[i] < N_FIELD_HEIGHT - 1,
    ensures
        grid_of(final(field)@) == clear_many(grid_of(old(field)@), lines@),
        wf_grid(grid_of(final(field)@)),
{
    let ghost g0 = grid_of(field@);
    let mut i: usize = 0;
    while i < lines.len()
        invariant
            i <= lines@.len(),
            wf_grid(g0),
            forall|j: int| 0 <= j < lines@.len() ==> #[trigger] lines@[j] < N_FIELD_HEIGHT - 1,
            grid_of(field@) == clear_many(g0, lines@.take(i as int)),
            wf_grid(grid_of(field@)),
        decreases lines@.len() - i,
    {
        let ghost pre = grid_of(field@);
        let l = lines[i];
        clear_row(field, l);
        proof {
            assert(lines@.take(i + 1) =~= lines@.take(i as int).push(l));
            lemma_clear_many_push(g0, lines@.take(i as int), l);
        }
        i += 1;
    }
    proof {
        assert(lines@.take(lines@.len() as int) =~= lines@);
    }
}

/// What the completed-lines buffer holds, for the first k spanned rows: a
/// row stands in the buffer exactly when the piece's mask spans it, it is
/// an interior row, and it is complete; and the buffer is strictly
/// ascending.
proof fn lemma_completed_rows_upto_characterized(g: Seq<Seq<u8>>, y: int, k: nat)
    ensures
        forall|row: int|
            #![trigger contains_row(completed_rows_upto(g, y, k), row)]
            #![trigger row_complete(g, row)]
            contains_row(completed_rows_upto(g, y, k), row) <==> (y <= row < y + k && 0 <= row
                < N_FIELD_HEIGHT - 1 && row_complete(g, row)),
        forall|i: int, j: int|
            0 <= i < j < completed_rows_upto(g, y, k).len()
                ==> completed_rows_upto(g, y, k)[i] < completed_rows_upto(g, y, k)[j],
        forall|i: int|
            0 <= i < completed_rows_upto(g, y, k).len()
                ==> y <= #[trigger] completed_rows_upto(g, y, k)[i] < y + k,
    decreases k,
{
    if k > 0 {
        lemma_completed_rows_upto_characterized(g, y, (k - 1) as nat);
        let prev = completed_rows_upto(g, y, (k - 1) as nat);
        let cur = completed_rows_upto(g, y, k);
        let row = y + k - 1;
        let appended = 0 <= row < N_FIELD_HEIGHT - 1 && row_complete(g, row);
        assert(cur == prev + (if appended {
            seq![row as u8]
        } else {
            Seq::<u8>::empty()
        }));
        assert(cur.len() == if appended {
            prev.len() + 1
        } else {
            prev.len()
        });
        assert forall|q: int|
            contains_row(cur, q) implies (y <= q < y + k && 0 <= q < N_FIELD_HEIGHT - 1
                && row_complete(g, q)) by {
            let i = choose|i: int| 0 <= i < cur.len() && cur[i] == q;
            if i < prev.len() {
                assert(cur[i] == prev[i]);
                assert(prev[i] == q);
                assert(contains_row(prev, q));
                assert(y <= q < y + (k - 1) && 0 <= q < N_FIELD_HEIGHT - 1 && row_complete(g, q));
            } else {
                assert(appended);
                assert(cur[i] == row as u8);
                assert(q == row);
            }
        }
        assert forall|q: int|
            y <= q < y + k && 0 <= q < N_FIELD_HEIGHT - 1 && row_complete(g, q)
                implies contains_row(cur, q) by {
            if q < y + k - 1 {
                assert(contains_row(prev, q));
                let i = choose|i: int| 0 <= i < prev.len() && prev[i] == q;
                assert(cur[i] == q);
            } else {
                assert(q == row && appended);
                assert(cur[prev.len() as int] == row as u8);
            }
        }
    }
}

/// The completed-lines buffer holds exactly the complete interior rows the
/// locked piece's mask spans, in strictly ascending row order.
pub proof fn lemma_completed_rows_characterized(g: Seq<Seq<u8>>, y: int)
    ensures
        forall|row: int|
            #![trigger contains_row(completed_rows(g, y), row)]
            #![trigger row_complete(g, row)]
            contains_row(completed_rows(g, y), row) <==> (y <= row < y + 4 && 0 <= row
                < N_FIELD_HEIGHT - 1 && row_complete(g, row)),
        forall|i: int, j: int|
            0 <= i < j < completed_rows(g, y).len()
                ==> completed_rows(g, y)[i] < completed_rows(g, y)[j],
{
    lemma_completed_rows_upto_characterized(g, y, 4);
}

/// The fit test rejects every overlap: if any occupied rotated cell of the
/// pose falls on an in-bounds field cell that is not empty, the pose does
/// not fit.
pub proof fn lemma_fits_rejects_overlap(
    g: Seq<Seq<u8>>,
    v: int,
    r: int,
    x: int,
    y: int,
    px: int,
    py: int,
)
    requires
        0 <= px < 4,
        0 <= py < 4,
        mask_occupied(variant_mask(v), rotate_idx(px, py, r)),
        0 <= x + px < N_FIELD_WIDTH,
        0 <= y + py < N_FIELD_HEIGHT,
        g[y + py][x + px] != EMPTY_CELL,
    ensures
        !fits_spec(v, r, x, y, g),
{
    assert(!pose_cell_ok(g, x + px, y + py));
}

/// Every variant, in every rotation state, fits the spawn pose — mask
/// origin at half the field width, row zero — on the freshly bordered
/// empty field: all sixteen mask cells lie over interior empty cells there.
pub proof fn lemma_spawn_fits(v: int, r: int)
    requires
        0 <= v < 7,
    ensures
        fits_spec(v, r, N_FIELD_WIDTH as int / 2, 0, empty_grid()),
{
    let x = N_FIELD_WIDTH as int / 2;
    assert forall|px: int, py: int|
        0 <= px < 4 && 0 <= py < 4
            && mask_occupied(variant_mask(v), #[trigger] rotate_idx(px, py, r))
            implies pose_cell_ok(empty_grid(), x + px, py) by {
        assert(!is_border(x + px, py));
        assert(empty_grid()[py][x + px] == EMPTY_CELL);
    }
}

/// A pose that fits with its mask origin at or below the top row keeps its
/// origin within reach of the field: some occupied cell is in bounds, so
/// the origin's column sits between -3 and the last column and its row at
/// or above the bottom row.
pub proof fn lemma_fits_pose_bounds(g: Seq<Seq<u8>>, v: int, r: int, x: int, y: int)
    requires
        wf_grid(g),
        0 <= v < 7,
        0 <= r,
        fits_spec(v, r, x, y, g),
        0 <= y,
    ensures
        -3 <= x < N_FIELD_WIDTH,
        y < N_FIELD_HEIGHT,
{
    lemma_variant_mask_nonempty(v);
    let i = occupied_witness_index(v);
    let ix = i % 4;
    let iy = i / 4;
    lemma_rotate_surjective(ix, iy, r);
    let px = unrotate_x(ix, iy, r);
    let py = unrotate_y(ix, iy, r);
    assert(mask_occupied(variant_mask(v), rotate_idx(px, py, r)));
    assert(pose_cell_ok(g, x + px, y + py));
}

/// What clearing one marked interior row does, row by row: every row above
/// it shifts down by exactly one, the vacated top row becomes empty, and
/// every row below it and every border cell keep what they held.
pub proof fn lemma_clear_one_shifts(g: Seq<Seq<u8>>, y: int)
    requires
        wf_grid(g),
        0 <= y < N_FIELD_HEIGHT - 1,
    ensures
        clear_one(g, y).len() == N_FIELD_HEIGHT,
        clear_one(g, y)[0] == empty_row(),
        forall|r: int| 1 <= r <= y ==> #[trigger] clear_one(g, y)[r] == g[r - 1],
        forall|r: int| y < r < N_FIELD_HEIGHT ==> #[trigger] clear_one(g, y)[r] == g[r],
        forall|r: int, c: int|
            0 <= r < N_FIELD_HEIGHT && 0 <= c < N_FIELD_WIDTH && is_border(c, r)
                ==> clear_one(g, y)[r][c] == g[r][c],
        wf_grid(clear_one(g, y)),
{
    lemma_clear_one_wf(g, y);
}

} // verus!
