//! Screen windows for the render sink: a rectangular character buffer at an
//! origin, a bounds-checked blit into it, and a framed empty buffer.

use vstd::prelude::*;

verus! {

/// Why a blit into a window was refused.
#[derive(Clone, Copy, Debug, PartialEq, Eq, Structural)]
pub enum WindowError {
    /// The block reaches past the window's contents.
    OutOfBounds,
}

/// The grid a sequence of row vectors stands for.
pub open spec fn rows_of(rows: Seq<Vec<char>>) -> Seq<Seq<char>> {
    Seq::new(rows.len(), |i: int| rows[i]@)
}

/// A rectangular character buffer with a screen origin.
pub struct Window {
    /// Top-left screen position of the window, column then row.
    pub origin: (usize, usize),
    /// Rows of the buffer.
    pub height: usize,
    /// Columns of the buffer.
    pub width: usize,
    /// The buffer itself, row-major.
    pub contents: Vec<Vec<char>>,
}

impl Window {
    /// A well-formed window: the buffer has exactly height rows of exactly
    /// width cells.
    pub open spec fn wf(&self) -> bool {
        &&& self.contents@.len() == self.height
        &&& forall|r: int|
            0 <= r < self.contents@.len() ==> (#[trigger] self.contents@[r])@.len() == self.width
    }

    /// Whether a block of rows fits inside the window when its top-left
    /// cell goes to row offset x, column offset y.
    pub open spec fn block_in_bounds(&self, x: int, y: int, block: Seq<Seq<char>>) -> bool {
        &&& x + block.len() <= self.height
        &&& forall|i: int| 0 <= i < block.len() ==> y + (#[trigger] block[i]).len() <= self.width
    }

    /// Copies the block into the window's contents with its top-left cell
    /// at row offset x, column offset y. Refuses a block that reaches past
    /// the contents and then leaves the window unchanged.
    pub fn update(&mut self, x: usize, y: usize, new_contents: &[Vec<char>]) -> (result: Result<
        (),
        WindowError,
    >)
        requires
            old(self).wf(),
        ensures
            final(self).wf(),
            final(self).origin == old(self).origin,
            final(self).height == old(self).height,
            final(self).width == old(self).width,
            result is Ok <==> old(self).block_in_bounds(
                x as int,
                y as int,
                rows_of(new_contents@),
            ),
            result is Err ==> *final(self) == *old(self) && result == Err::<(), WindowError>(
                WindowError::OutOfBounds,
            ),
            result is Ok ==> forall|r: int, c: int|
                0 <= r < old(self).height && 0 <= c < old(self).width
                    ==> #[trigger] rows_of(final(self).contents@)[r][c] == (if x <= r < x
                    + new_contents@.len() && y <= c < y + new_contents@[r - x]@.len() {
                    new_contents@[r - x]@[c - y]
                } else {
                    rows_of(old(self).contents@)[r][c]
                }),
    {
        let ghost block = rows_of(new_contents@);
        if new_contents.len() > self.height || x > self.height - new_contents.len() {
            return Err(WindowError::OutOfBounds);
        }
        let mut i: usize = 0;
        while i < new_contents.len()
            invariant
                i <= new_contents@.len(),
                block == rows_of(new_contents@),
                self == old(self),
                self.wf(),
                x + new_contents@.len() <= self.height,
                forall|j: int| 0 <= j < i ==> y + (#[trigger] block[j]).len() <= self.width,
            decreases new_contents@.len() - i,
        {
            let row_len = new_contents[i].len();
            if row_len > self.width || y > self.width - row_len {
                proof {
                    assert(block[i as int].len() == row_len);
                    assert(!self.block_in_bounds(x as int, y as int, block));
                }
                return Err(WindowError::OutOfBounds);
            }
            i += 1;
        }
        let ghost w0 = *self;
        let mut r: usize = 0;
        while r < new_contents.len()
            invariant
                r <= new_contents@.len(),
                block == rows_of(new_contents@),
                w0.wf(),
                w0.block_in_bounds(x as int, y as int, block),
                self.origin == w0.origin,
                self.height == w0.height,
                self.width == w0.width,
                self.contents@.len() == w0.contents@.len(),
                forall|a: int|
                    0 <= a < self.contents@.len()
                        ==> (#[trigger] self.contents@[a])@.len() == self.width,
                forall|a: int, b: int|
                    0 <= a < w0.height && 0 <= b < w0.width
                        ==> #[trigger] self.contents@[a]@[b] == (if x <= a < x + r && y <= b < y
                        + block[a - x].len() {
                        block[a - x][b - y]
                    } else {
                        w0.contents@[a]@[b]
                    }),
            decreases new_contents@.len() - r,
        {
            let row = &new_contents[r];
            let mut c: usize = 0;
            while c < row.len()
                invariant
                    c <= row@.len(),
                    r < new_contents@.len(),
                    row@ == block[r as int],
                    block == rows_of(new_contents@),
                    w0.wf(),
                    w0.block_in_bounds(x as int, y as int, block),
                    self.origin == w0.origin,
                    self.height == w0.height,
                    self.width == w0.width,
                    self.contents@.len() == w0.contents@.len(),
                    x + new_contents@.len() <= self.height,
                    forall|a: int|
                        0 <= a < self.contents@.len()
                            ==> (#[trigger] self.contents@[a])@.len() == self.width,
                    forall|a: int, b: int|
                        0 <= a < w0.height && 0 <= b < w0.width
                            ==> #[trigger] self.contents@[a]@[b] == (if (x <= a < x + r && y <= b
                            < y + block[a - x].len()) || (a == x + r && y <= b < y + c) {
                            block[a - x][b - y]
                        } else {
                            w0.contents@[a]@[b]
                        }),
                decreases row@.len() - c,
            {
                let ch = row[c];
                self.contents[x + r][y + c] = ch;
                c += 1;
            }
            r += 1;
        }
        Ok(())
    }
}

/// The character at (x, y) of a height-by-width framed empty buffer:
/// hashes in the corners, dashes along the top and bottom rows, bars along
/// the side columns, spaces inside.
pub open spec fn frame_cell(height: int, width: int, y: int, x: int) -> char {
    if (y == 0 || y == height - 1) && (x == 0 || x == width - 1) {
        '#'
    } else if y == 0 || y == height - 1 {
        '-'
    } else if x == 0 || x == width - 1 {
        '|'
    } else {
        ' '
    }
}

/// Builds the framed empty buffer a window starts from.
pub fn create_empty_window(height: usize, width: usize) -> (contents: Vec<Vec<char>>)
    requires
        height >= 1,
        width >= 1,
    ensures
        contents@.len() == height,
        forall|r: int| 0 <= r < height ==> (#[trigger] contents@[r])@.len() == width,
        forall|r: int, c: int|
            0 <= r < height && 0 <= c < width ==> #[trigger] contents@[r]@[c] == frame_cell(
                height as int,
                width as int,
                r,
                c,
            ),
{
    let mut contents: Vec<Vec<char>> = Vec::new();
    let mut r: usize = 0;
    while r < height
        invariant
            r <= height,
            height >= 1,
            width >= 1,
            contents@.len() == r,
            forall|a: int| 0 <= a < r ==> (#[trigger] contents@[a])@.len() == width,
            forall|a: int, b: int|
                0 <= a < r && 0 <= b < width ==> #[trigger] contents@[a]@[b] == frame_cell(
                    height as int,
                    width as int,
                    a,
                    b,
                ),
        decreases height - r,
    {
        let mut row: Vec<char> = Vec::new();
        let mut c: usize = 0;
        while c < width
            invariant
                c <= width,
                r < height,
                height >= 1,
                width >= 1,
                row@.len() == c,
                forall|b: int| 0 <= b < c ==> #[trigger] row@[b] == frame_cell(
                    height as int,
                    width as int,
                    r as int,
                    b,
                ),
            decreases width - c,
        {
            let on_row_edge = r == 0 || r == height - 1;
            let on_col_edge = c == 0 || c == width - 1;
            if on_row_edge && on_col_edge {
                row.push('#');
            } else if on_row_edge {
                row.push('-');
            } else if on_col_edge {
                row.push('|');
            } else {
                row.push(' ');
            }
            c += 1;
        }
        contents.push(row);
        r += 1;
    }
    contents
}

} // verus!
