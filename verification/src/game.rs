//! The game state machine: the active piece, the counters, the per-tick
//! transitions (input, gravity, lock, spawn, game-over), and the screen
//! buffer the render sink consumes.

use vstd::prelude::*;

use crate::field::{
    clear_lines, clear_many, completed_rows, create_field, does_it_fit, empty_grid,
    find_completed_lines, fits_spec, grid_of, lemma_fits_pose_bounds, lemma_spawn_fits, lock_piece,
    lock_spec, mark_spec, piece_covers, wf_grid, N_FIELD_HEIGHT, N_FIELD_WIDTH,
};
use crate::rotation::{rotate, rotate_idx};
use crate::shapes::{get_shapes, mask_occupied, variant_mask, MASK_EMPTY, N_TETROMINOS};

verus! {

/// Column of the mask origin at spawn: half the field width.
pub const SPAWN_X: i16 = 6;

/// Row of the mask origin at spawn: the top row.
pub const SPAWN_Y: i16 = 0;

/// Ticks per gravity step when the game starts.
pub const INITIAL_SPEED: u8 = 20;

/// The floor under the speed threshold.
pub const MIN_SPEED: u8 = 10;

/// Every this many locked pieces the speed threshold decreases by one.
pub const PIECES_PER_SPEEDUP: u32 = 50;

/// Points every lock awards, completed lines or not.
pub const BASE_LOCK_SCORE: u32 = 25;

/// The largest completed-line count the score bonus considers.
pub const MAX_SCORED_LINES: usize = 10;

/// Two to the n-th.
pub open spec fn pow2(n: nat) -> nat
    decreases n,
{
    if n == 0 {
        1
    } else {
        2 * pow2((n - 1) as nat)
    }
}

/// The score one lock event awards: the fixed base, plus, when n lines were
/// completed at once, a bonus of 2^n * 100, the line count capped at 10.
pub open spec fn score_delta(n_lines: nat) -> nat {
    if n_lines == 0 {
        BASE_LOCK_SCORE as nat
    } else {
        (BASE_LOCK_SCORE + pow2(if n_lines > 10 { 10nat } else { n_lines }) * 100) as nat
    }
}

/// Doubling never shrinks: pow2 is monotone.
proof fn lemma_pow2_monotone(a: nat, b: nat)
    requires
        a <= b,
    ensures
        pow2(a) <= pow2(b),
    decreases b,
{
    if a < b {
        lemma_pow2_monotone(a, (b - 1) as nat);
    }
}

/// The score of one lock event never exceeds the base plus the capped
/// maximal bonus.
pub proof fn lemma_score_delta_bounded(n_lines: nat)
    ensures
        score_delta(n_lines) <= 102425,
{
    assert(pow2(10) == 1024) by {
        reveal_with_fuel(pow2, 11);
    }
    if n_lines > 0 && n_lines <= 10 {
        lemma_pow2_monotone(n_lines, 10);
    }
}

/// Computes the score one lock event awards for this many completed lines.
pub fn lock_score(n_lines: usize) -> (s: u32)
    ensures
        s == score_delta(n_lines as nat),
{
    if n_lines == 0 {
        return BASE_LOCK_SCORE;
    }
    let capped: usize = if n_lines > MAX_SCORED_LINES {
        MAX_SCORED_LINES
    } else {
        n_lines
    };
    proof {
        assert(pow2(10) == 1024) by {
            reveal_with_fuel(pow2, 11);
        }
    }
    let mut p: u32 = 1;
    let mut i: usize = 0;
    while i < capped
        invariant
            i <= capped <= 10,
            p == pow2(i as nat),
            pow2(10) == 1024,
        decreases capped - i,
    {
        proof {
            lemma_pow2_monotone((i + 1) as nat, 10);
        }
        p = p * 2;
        i += 1;
    }
    proof {
        lemma_pow2_monotone(capped as nat, 10);
    }
    BASE_LOCK_SCORE + p * 100
}

/// The key commands the state machine recognizes.
#[derive(Clone, Copy)]
pub enum KeyCommand {
    MoveLeft,
    MoveRight,
    SoftDrop,
    Rotate,
    Quit,
}

/// The whole mutable game state: the field, the active piece's pose, the
/// counters, the rotate latch and the terminal flag. Score and piece count
/// only grow; the speed threshold only falls, floored at `MIN_SPEED`.
pub struct GameState {
    /// The playfield grid.
    pub field: Vec<Vec<u8>>,
    /// Variant index of the active piece.
    pub current_piece: u8,
    /// Rotation state of the active piece.
    pub current_rotation: u8,
    /// Column of the active piece's mask origin.
    pub current_x: i16,
    /// Row of the active piece's mask origin.
    pub current_y: i16,
    /// Points scored so far.
    pub score: u32,
    /// Ticks per gravity step.
    pub speed: u8,
    /// Ticks since the last gravity step.
    pub speed_count: u8,
    /// Pieces locked so far.
    pub piece_count: u32,
    /// The rotate latch: armed accepts one rotate, a successful rotate
    /// disarms it, a failed attempt re-arms it.
    pub rotate_armed: bool,
    /// Whether the session has ended.
    pub game_over: bool,
}

impl GameState {
    /// The grid the field stands for.
    pub open spec fn grid(&self) -> Seq<Seq<u8>> {
        grid_of(self.field@)
    }

    /// Whether the active piece fits its own pose over the field.
    pub open spec fn piece_fits(&self) -> bool {
        fits_spec(
            self.current_piece as int,
            self.current_rotation as int,
            self.current_x as int,
            self.current_y as int,
            self.grid(),
        )
    }

    /// The state invariant: a well-formed bordered grid, a catalogue piece
    /// in one of the four rotation states, the speed threshold at or above
    /// its floor, and — while the game is running — an active piece that
    /// fits its pose, which keeps the pose within reach of the field.
    pub open spec fn wf(&self) -> bool {
        &&& wf_grid(self.grid())
        &&& self.current_piece < N_TETROMINOS
        &&& self.current_rotation < 4
        &&& MIN_SPEED <= self.speed
        &&& 0 <= self.current_y
        &&& (!self.game_over ==> self.piece_fits() && -3 <= self.current_x < N_FIELD_WIDTH
            && self.current_y < N_FIELD_HEIGHT)
    }

    /// A fresh game: the empty bordered field, the first catalogue variant
    /// at the spawn pose, nothing scored, the initial speed.
    pub fn new() -> (s: GameState)
        ensures
            s.wf(),
            s.grid() == empty_grid(),
            s.current_piece == 0,
            s.current_rotation == 0,
            s.current_x == SPAWN_X,
            s.current_y == SPAWN_Y,
            s.score == 0,
            s.speed == INITIAL_SPEED,
            s.speed_count == 0,
            s.piece_count == 0,
            s.rotate_armed,
            !s.game_over,
    {
        let field = create_field();
        proof {
            lemma_spawn_fits(0, 0);
        }
        GameState {
            field,
            current_piece: 0,
            current_rotation: 0,
            current_x: SPAWN_X,
            current_y: SPAWN_Y,
            score: 0,
            speed: INITIAL_SPEED,
            speed_count: 0,
            piece_count: 0,
            rotate_armed: true,
            game_over: false,
        }
    }
}

/// What one key command does to the state: a move or soft drop is applied
/// only if the moved pose fits, a rotate is applied only when the latch is
/// armed and the turned pose fits (and otherwise re-arms the latch), quit
/// raises the terminal flag.
pub open spec fn apply_key(pre: GameState, key: KeyCommand) -> GameState {
    let v = pre.current_piece as int;
    let r = pre.current_rotation as int;
    let x = pre.current_x as int;
    let y = pre.current_y as int;
    let g = grid_of(pre.field@);
    match key {
        KeyCommand::MoveLeft => if fits_spec(v, r, x - 1, y, g) {
            (GameState { current_x: (x - 1) as i16, ..pre })
        } else {
            pre
        },
        KeyCommand::MoveRight => if fits_spec(v, r, x + 1, y, g) {
            (GameState { current_x: (x + 1) as i16, ..pre })
        } else {
            pre
        },
        KeyCommand::SoftDrop => if fits_spec(v, r, x, y + 1, g) {
            (GameState { current_y: (y + 1) as i16, ..pre })
        } else {
            pre
        },
        KeyCommand::Rotate => if pre.rotate_armed && fits_spec(v, (r + 1) % 4, x, y, g) {
            (GameState {
                current_rotation: ((r + 1) % 4) as u8,
                rotate_armed: false,
                ..pre
            })
        } else {
            (GameState { rotate_armed: true, ..pre })
        },
        KeyCommand::Quit => (GameState { game_over: true, ..pre }),
    }
}

impl GameState {
    /// Drains one key command into the state.
    pub fn handle_key(&mut self, key: KeyCommand)
        requires
            old(self).wf(),
            !old(self).game_over,
        ensures
            final(self).wf(),
            *final(self) == apply_key(*old(self), key),
    {
        match key {
            KeyCommand::MoveLeft => {
                if does_it_fit(
                    self.current_piece,
                    self.current_rotation,
                    self.current_x - 1,
                    self.current_y,
                    &self.field,
                ) {
                    self.current_x = self.current_x - 1;
                    proof {
                        lemma_fits_pose_bounds(
                            self.grid(),
                            self.current_piece as int,
                            self.current_rotation as int,
                            self.current_x as int,
                            self.current_y as int,
                        );
                    }
                }
            },
            KeyCommand::MoveRight => {
                if does_it_fit(
                    self.current_piece,
                    self.current_rotation,
                    self.current_x + 1,
                    self.current_y,
                    &self.field,
                ) {
                    self.current_x = self.current_x + 1;
                    proof {
                        lemma_fits_pose_bounds(
                            self.grid(),
                            self.current_piece as int,
                            self.current_rotation as int,
                            self.current_x as int,
                            self.current_y as int,
                        );
                    }
                }
            },
            KeyCommand::SoftDrop => {
                if does_it_fit(
                    self.current_piece,
                    self.current_rotation,
                    self.current_x,
                    self.current_y + 1,
                    &self.field,
                ) {
                    self.current_y = self.current_y + 1;
                    proof {
                        lemma_fits_pose_bounds(
                            self.grid(),
                            self.current_piece as int,
                            self.current_rotation as int,
                            self.current_x as int,
                            self.current_y as int,
                        );
                    }
                }
            },
            KeyCommand::Rotate => {
                let new_rotation = (self.current_rotation + 1) % 4;
                if self.rotate_armed && does_it_fit(
                    self.current_piece,
                    new_rotation,
                    self.current_x,
                    self.current_y,
                    &self.field,
                ) {
                    self.current_rotation = new_rotation;
                    self.rotate_armed = false;
                } else {
                    self.rotate_armed = true;
                }
            },
            KeyCommand::Quit => {
                self.game_over = true;
            },
        }
    }

    /// One timing step: the tick counter increments (wrapping at its
    /// ceiling); when it reaches the speed threshold the gravity event
    /// fires and the counter resets.
    pub fn timing_tick(&mut self) -> (force_down: bool)
        requires
            old(self).wf(),
        ensures
            final(self).wf(),
            force_down == (bumped_count(old(self).speed_count) == old(self).speed),
            *final(self) == (GameState {
                speed_count: if force_down {
                    0u8
                } else {
                    bumped_count(old(self).speed_count)
                },
                ..*old(self)
            }),
    {
        if self.speed_count == 255 {
            self.speed_count = 0;
        } else {
            self.speed_count = self.speed_count + 1;
        }
        if self.speed_count == self.speed {
            self.speed_count = 0;
            true
        } else {
            false
        }
    }
}

/// The tick counter after one timing step, before the threshold test.
pub open spec fn bumped_count(c: u8) -> u8 {
    if c == 255 {
        0u8
    } else {
        (c + 1) as u8
    }
}

/// The grid after stamping the active piece of state `pre` into its field.
pub open spec fn locked_grid(pre: GameState) -> Seq<Seq<u8>> {
    lock_spec(
        grid_of(pre.field@),
        pre.current_piece as int,
        pre.current_rotation as int,
        pre.current_x as int,
        pre.current_y as int,
    )
}

/// The completed-lines buffer that locking the active piece of `pre`
/// produces.
pub open spec fn lock_lines(pre: GameState) -> Seq<u8> {
    completed_rows(locked_grid(pre), pre.current_y as int)
}

/// Whether the active piece of `pre` can descend one row.
pub open spec fn can_descend(pre: GameState) -> bool {
    fits_spec(
        pre.current_piece as int,
        pre.current_rotation as int,
        pre.current_x as int,
        pre.current_y + 1,
        grid_of(pre.field@),
    )
}

/// The descend half of the gravity step: only the pose's row moved down.
pub open spec fn descend_post(pre: GameState, post: GameState) -> bool {
    post == (GameState { current_y: (pre.current_y + 1) as i16, ..pre })
}

/// The lock half of the gravity step: the piece is stamped into the field,
/// the completed rows are marked and cleared, the counters advance — score
/// by the lock award (saturating), piece count by one (saturating), the
/// speed threshold down by one on every 50th locked piece until its floor —
/// and the next piece spawns; the game ends if the spawn pose does not fit.
pub open spec fn lock_post(pre: GameState, post: GameState, next_piece: u8) -> bool {
    let lines = lock_lines(pre);
    &&& grid_of(post.field@) == clear_many(mark_spec(locked_grid(pre), lines), lines)
    &&& post.score == (if pre.score + score_delta(lines.len()) <= u32::MAX {
        pre.score + score_delta(lines.len())
    } else {
        u32::MAX as int
    })
    &&& post.piece_count == (if pre.piece_count == u32::MAX {
        u32::MAX as int
    } else {
        pre.piece_count + 1
    })
    &&& post.speed == (if (post.piece_count as int) % (PIECES_PER_SPEEDUP as int) == 0
        && pre.speed > MIN_SPEED {
        pre.speed - 1
    } else {
        pre.speed as int
    })
    &&& post.current_piece == next_piece
    &&& post.current_rotation == 0
    &&& post.current_x == SPAWN_X
    &&& post.current_y == SPAWN_Y
    &&& post.speed_count == pre.speed_count
    &&& post.rotate_armed == pre.rotate_armed
    &&& post.game_over == !fits_spec(
        next_piece as int,
        0,
        SPAWN_X as int,
        SPAWN_Y as int,
        grid_of(post.field@),
    )
}

/// The whole gravity step: descend if the pose one row lower fits, else
/// lock, clear, score and spawn `next_piece`.
pub open spec fn force_down_post(pre: GameState, post: GameState, next_piece: u8) -> bool {
    if can_descend(pre) {
        descend_post(pre, post)
    } else {
        lock_post(pre, post, next_piece)
    }
}

impl GameState {
    /// The gravity step, with the piece that spawns after a lock handed in:
    /// re-tests the fit one row lower; descends if it fits, otherwise locks
    /// the piece, marks and clears completed rows, scores the lock, updates
    /// the difficulty, and spawns `next_piece` — the game ends if the spawn
    /// pose does not fit the cleared field.
    pub fn force_down_with(&mut self, next_piece: u8)
        requires
            old(self).wf(),
            !old(self).game_over,
            next_piece < N_TETROMINOS,
        ensures
            final(self).wf(),
            force_down_post(*old(self), *final(self), next_piece),
    {
        if does_it_fit(
            self.current_piece,
            self.current_rotation,
            self.current_x,
            self.current_y + 1,
            &self.field,
        ) {
            self.current_y = self.current_y + 1;
            proof {
                lemma_fits_pose_bounds(
                    self.grid(),
                    self.current_piece as int,
                    self.current_rotation as int,
                    self.current_x as int,
                    self.current_y as int,
                );
            }
        } else {
            lock_piece(
                &mut self.field,
                self.current_piece,
                self.current_rotation,
                self.current_x,
                self.current_y,
            );
            if self.piece_count != u32::MAX {
                self.piece_count = self.piece_count + 1;
            }
            if self.piece_count % PIECES_PER_SPEEDUP == 0 && self.speed > MIN_SPEED {
                self.speed = self.speed - 1;
            }
            let lines = find_completed_lines(&mut self.field, self.current_y);
            let delta = lock_score(lines.len());
            proof {
                lemma_score_delta_bounded(lines@.len());
            }
            if self.score <= u32::MAX - delta {
                self.score = self.score + delta;
            } else {
                self.score = u32::MAX;
            }
            clear_lines(&mut self.field, &lines);
            self.current_piece = next_piece;
            self.current_rotation = 0;
            self.current_x = SPAWN_X;
            self.current_y = SPAWN_Y;
            let spawn_fits = does_it_fit(next_piece, 0, SPAWN_X, SPAWN_Y, &self.field);
            self.game_over = !spawn_fits;
        }
    }
}

/// Relies on rand::random_range: it returns a value drawn from the
/// half-open range handed to it — here one of the seven catalogue
/// variants — using the thread-local generator.
#[verifier::external_body]
fn random_piece() -> (p: u8)
    ensures
        p < N_TETROMINOS,
{
    rand::random_range(0..N_TETROMINOS)
}

impl GameState {
    /// The gravity step as the game loop fires it: like `force_down_with`,
    /// with the piece that spawns after a lock drawn uniformly at random
    /// from the catalogue.
    pub fn force_down(&mut self)
        requires
            old(self).wf(),
            !old(self).game_over,
        ensures
            final(self).wf(),
            exists|p: u8|
                p < N_TETROMINOS && #[trigger] force_down_post(*old(self), *final(self), p),
    {
        let p = random_piece();
        self.force_down_with(p);
    }
}

/// The symbol table between the field's cell alphabet and the characters
/// the render sink paints: space for empty, a letter per piece variant,
/// a hash for border, an equals sign for a row being cleared.
pub open spec fn symbol_of(c: u8) -> char {
    if c == 0 {
        ' '
    } else if c == 1 {
        'A'
    } else if c == 2 {
        'B'
    } else if c == 3 {
        'C'
    } else if c == 4 {
        'D'
    } else if c == 5 {
        'E'
    } else if c == 6 {
        'F'
    } else if c == 7 {
        'G'
    } else if c == 8 {
        '#'
    } else {
        '='
    }
}

/// Maps one field cell through the symbol table.
pub fn cell_symbol(c: u8) -> (ch: char)
    ensures
        ch == symbol_of(c),
{
    match c {
        0 => ' ',
        1 => 'A',
        2 => 'B',
        3 => 'C',
        4 => 'D',
        5 => 'E',
        6 => 'F',
        7 => 'G',
        8 => '#',
        _ => '=',
    }
}

/// What the screen buffer shows at (fx, fy): the active piece's symbol over
/// every cell it covers, the field cell's symbol everywhere else.
pub open spec fn screen_cell(s: GameState, fx: int, fy: int) -> char {
    if piece_covers(
        s.current_piece as int,
        s.current_rotation as int,
        s.current_x as int,
        s.current_y as int,
        fx,
        fy,
    ) {
        symbol_of((s.current_piece + 1) as u8)
    } else {
        symbol_of(grid_of(s.field@)[fy][fx])
    }
}

/// Like `screen_cell`'s piece overlay, restricted to the first n local
/// cells in the scan order px * 4 + py: the intermediate states of the
/// overlay loop.
spec fn overlay_scanned(s: GameState, fx: int, fy: int, n: int) -> bool {
    exists|px: int, py: int|
        0 <= px < 4 && 0 <= py < 4 && px * 4 + py < n
            && mask_occupied(
            variant_mask(s.current_piece as int),
            #[trigger] rotate_idx(px, py, s.current_rotation as int),
        ) && fx == s.current_x + px && fy == s.current_y + py
}

impl GameState {
    /// Builds the screen buffer one tick paints: the field mapped through
    /// the symbol table, the active piece overlaid with its own symbol.
    pub fn render(&self) -> (screen: Vec<Vec<char>>)
        requires
            self.wf(),
        ensures
            screen@.len() == N_FIELD_HEIGHT,
            forall|fy: int| 0 <= fy < N_FIELD_HEIGHT
                ==> (#[trigger] screen@[fy])@.len() == N_FIELD_WIDTH,
            forall|fy: int, fx: int|
                0 <= fy < N_FIELD_HEIGHT && 0 <= fx < N_FIELD_WIDTH
                    ==> #[trigger] screen@[fy]@[fx] == screen_cell(*self, fx, fy),
    {
        let ghost g = self.grid();
        let mut screen: Vec<Vec<char>> = Vec::new();
        let mut y: usize = 0;
        while y < N_FIELD_HEIGHT
            invariant
                y <= N_FIELD_HEIGHT,
                self.wf(),
                g == self.grid(),
                screen@.len() == y,
                forall|fy: int| 0 <= fy < y ==> (#[trigger] screen@[fy])@.len() == N_FIELD_WIDTH,
                forall|fy: int, fx: int|
                    0 <= fy < y && 0 <= fx < N_FIELD_WIDTH
                        ==> #[trigger] screen@[fy]@[fx] == symbol_of(g[fy][fx]),
            decreases N_FIELD_HEIGHT - y,
        {
            proof {
                assert(g[y as int].len() == N_FIELD_WIDTH);
                assert(self.field@[y as int]@ == g[y as int]);
            }
            let mut row: Vec<char> = Vec::new();
            let mut x: usize = 0;
            while x < N_FIELD_WIDTH
                invariant
                    x <= N_FIELD_WIDTH,
                    y < N_FIELD_HEIGHT,
                    self.wf(),
                    g == self.grid(),
                    g[y as int].len() == N_FIELD_WIDTH,
                    self.field@[y as int]@ == g[y as int],
                    row@.len() == x,
                    forall|fx: int| 0 <= fx < x ==> #[trigger] row@[fx] == symbol_of(g[y as int][fx]),
                decreases N_FIELD_WIDTH - x,
            {
                let c = self.field[y][x];
                row.push(cell_symbol(c));
                x += 1;
            }
            screen.push(row);
            y += 1;
        }
        let tetrominos = get_shapes();
        let shape = tetrominos[self.current_piece as usize].shape();
        let ghost v = self.current_piece as int;
        let ghost r = self.current_rotation as int;
        let ghost sx = self.current_x as int;
        let ghost sy = self.current_y as int;
        let piece_char = cell_symbol(self.current_piece + 1);
        let mut n: usize = 0;
        while n < 16
            invariant
                n <= 16,
                self.wf(),
                g == self.grid(),
                shape@ == variant_mask(v),
                v == self.current_piece as int,
                r == self.current_rotation as int,
                sx == self.current_x as int,
                sy == self.current_y as int,
                piece_char == symbol_of((self.current_piece + 1) as u8),
                screen@.len() == N_FIELD_HEIGHT,
                forall|fy: int| 0 <= fy < N_FIELD_HEIGHT
                    ==> (#[trigger] screen@[fy])@.len() == N_FIELD_WIDTH,
                forall|fy: int, fx: int|
                    0 <= fy < N_FIELD_HEIGHT && 0 <= fx < N_FIELD_WIDTH
                        ==> #[trigger] screen@[fy]@[fx] == (if overlay_scanned(
                            *self, fx, fy, n as int,
                        ) {
                            symbol_of((self.current_piece + 1) as u8)
                        } else {
                            symbol_of(g[fy][fx])
                        }),
            decreases 16 - n,
        {
            let px: u8 = (n / 4) as u8;
            let py: u8 = (n % 4) as u8;
            let pi = rotate(px, py, self.current_rotation);
            proof {
                assert(variant_mask(v).len() == 16);
            }
            let ghost pre = screen@;
            if shape[pi as usize] != MASK_EMPTY {
                let fx: i32 = self.current_x as i32 + px as i32;
                let fy: i32 = self.current_y as i32 + py as i32;
                if 0 <= fx && fx < N_FIELD_WIDTH as i32 && 0 <= fy && fy < N_FIELD_HEIGHT as i32 {
                    screen[fy as usize][fx as usize] = piece_char;
                }
            }
            proof {
                let occupied_here = mask_occupied(variant_mask(v), rotate_idx(px as int, py as int, r));
                assert forall|gy: int, gx: int|
                    0 <= gy < N_FIELD_HEIGHT && 0 <= gx < N_FIELD_WIDTH
                        implies #[trigger] screen@[gy]@[gx] == (if overlay_scanned(
                            *self, gx, gy, n + 1,
                        ) {
                            symbol_of((self.current_piece + 1) as u8)
                        } else {
                            symbol_of(g[gy][gx])
                        }) by {
                    let is_new = occupied_here && gx == sx + px && gy == sy + py;
                    if overlay_scanned(*self, gx, gy, n + 1) {
                        let (qx, qy) = choose|qx: int, qy: int|
                            0 <= qx < 4 && 0 <= qy < 4 && qx * 4 + qy < n + 1
                                && mask_occupied(
                                variant_mask(v),
                                #[trigger] rotate_idx(qx, qy, r),
                            ) && gx == sx + qx && gy == sy + qy;
                        if qx * 4 + qy < n {
                            assert(overlay_scanned(*self, gx, gy, n as int));
                            assert(pre[gy]@[gx] == symbol_of((self.current_piece + 1) as u8));
                            if is_new {
                                assert(screen@[gy]@[gx] == symbol_of((self.current_piece + 1) as u8));
                            } else {
                                assert(screen@[gy]@[gx] == pre[gy]@[gx]);
                            }
                        } else {
                            assert(qx == px as int && qy == py as int);
                            assert(is_new);
                            assert(screen@[gy]@[gx] == symbol_of((self.current_piece + 1) as u8));
                        }
                    } else {
                        assert(!overlay_scanned(*self, gx, gy, n as int));
                        assert(!is_new);
                        assert(screen@[gy]@[gx] == pre[gy]@[gx]);
                    }
                }
            }
            n += 1;
        }
        proof {
            assert forall|fy: int, fx: int|
                0 <= fy < N_FIELD_HEIGHT && 0 <= fx < N_FIELD_WIDTH
                    implies overlay_scanned(*self, fx, fy, 16) == piece_covers(v, r, sx, sy, fx, fy) by {
                if piece_covers(v, r, sx, sy, fx, fy) {
                    let (qx, qy) = choose|qx: int, qy: int|
                        0 <= qx < 4 && 0 <= qy < 4
                            && mask_occupied(variant_mask(v), #[trigger] rotate_idx(qx, qy, r))
                            && fx == sx + qx && fy == sy + qy;
                    assert(qx * 4 + qy < 16);
                    assert(overlay_scanned(*self, fx, fy, 16));
                }
            }
        }
        screen
    }
}

} // verus!
