//! A single-player numbering puzzle on an N×N grid.
//!
//! Starting from an arbitrary cell labeled 1, the player advances by jumps
//! (three cells orthogonally, or two cells diagonally) to unvisited cells,
//! labeling each visited cell with the next integer. The aim is to fill the
//! whole board, reaching N², with no revisits.
//!
//! Example of a solved game on a reduced 5x5 grid, starting at the top-left
//! corner:
//!
//! ```text
//!  1 24 14  2 25
//! 16 21  5  8 20
//! 13 10 18 23 11
//!  4  7 15  3  6
//! 17 22 12  9 19
//! ```

use vstd::prelude::*;

verus! {

/// The reason a board operation was rejected. Every failure is a
/// caller-correctable precondition violation; the board is never
/// changed by a failed operation.
#[derive(Clone, Copy, Debug, PartialEq, Eq, Structural)]
pub enum BoardErrorKind {
    /// A move was attempted before the board was started.
    NotStarted,
    /// A move whose target is off the board or already visited.
    InvalidDirection,
    /// Target coordinates outside `[0, size)`.
    OutOfRange,
    /// An attempt to place a label smaller than 1.
    NonPositiveValue,
    /// An attempt to place a label not larger than the current score.
    ValueAlreadyUsed,
    /// An attempt to place a label larger than the cell count.
    ValueTooLarge,
    /// An attempt to overwrite an already-labeled cell.
    CellOccupied,
}

/// An error returned by a board operation.
#[derive(Clone, Copy, Debug, PartialEq, Eq, Structural)]
pub struct BoardError {
    /// What went wrong.
    pub kind: BoardErrorKind,
}

impl BoardError {
    /// Wraps an error kind.
    pub fn new(kind: BoardErrorKind) -> (r: BoardError)
        ensures
            r.kind == kind,
    {
        BoardError { kind }
    }

    /// The text that `message` returns for each kind of error.
    pub open spec fn spec_message(self) -> Seq<char> {
        match self.kind {
            BoardErrorKind::NotStarted => "attempt to move with an empty board"@,
            BoardErrorKind::InvalidDirection => "moving in that direction is invalid"@,
            BoardErrorKind::OutOfRange => "cannot set a cell out of range"@,
            BoardErrorKind::NonPositiveValue => "cannot clear a cell"@,
            BoardErrorKind::ValueAlreadyUsed => "value already used"@,
            BoardErrorKind::ValueTooLarge => "value larger than the cell count"@,
            BoardErrorKind::CellOccupied => "cannot change the value of a cell"@,
        }
    }

    /// A human-readable description of the error.
    pub fn message(&self) -> (r: &'static str)
        ensures
            r@ == self.spec_message(),
    {
        match self.kind {
            BoardErrorKind::NotStarted => "attempt to move with an empty board",
            BoardErrorKind::InvalidDirection => "moving in that direction is invalid",
            BoardErrorKind::OutOfRange => "cannot set a cell out of range",
            BoardErrorKind::NonPositiveValue => "cannot clear a cell",
            BoardErrorKind::ValueAlreadyUsed => "value already used",
            BoardErrorKind::ValueTooLarge => "value larger than the cell count",
            BoardErrorKind::CellOccupied => "cannot change the value of a cell",
        }
    }
}

/// Distance from the source cell for horizontal or vertical moves.
pub const HV_OFFSET: i32 = 3;

/// Distance from the source cell for diagonal moves (on both axes).
pub const DIAG_OFFSET: i32 = 2;

/// The direction of a move from the source cell.
#[derive(Clone, Copy, Debug, PartialEq, Eq, Structural)]
pub enum Direction {
    Down,
    DownRight,
    Right,
    UpRight,
    Up,
    UpLeft,
    Left,
    DownLeft,
}

/// All eight directions, in the fixed order that `possible_moves` reports
/// them in.
pub open spec fn all_directions() -> Seq<Direction> {
    seq![
        Direction::Down,
        Direction::DownRight,
        Direction::Right,
        Direction::UpRight,
        Direction::Up,
        Direction::UpLeft,
        Direction::Left,
        Direction::DownLeft,
    ]
}

impl Direction {
    /// The (dx, dy) offset that a move in this direction adds to the
    /// cursor: magnitude 3 on one axis for orthogonal moves, magnitude 2
    /// on both axes for diagonal ones. y grows downward.
    pub open spec fn spec_offset(self) -> (int, int) {
        match self {
            Direction::Down => (0int, 3int),
            Direction::DownRight => (2int, 2int),
            Direction::Right => (3int, 0int),
            Direction::UpRight => (2int, -2int),
            Direction::Up => (0int, -3int),
            Direction::UpLeft => (-2int, -2int),
            Direction::Left => (-3int, 0int),
            Direction::DownLeft => (-2int, 2int),
        }
    }

    /// The eight directions in their fixed enumeration order.
    pub fn iterator() -> (r: Vec<Direction>)
        ensures
            r@ == all_directions(),
    {
        let mut v: Vec<Direction> = Vec::new();
        v.push(Direction::Down);
        v.push(Direction::DownRight);
        v.push(Direction::Right);
        v.push(Direction::UpRight);
        v.push(Direction::Up);
        v.push(Direction::UpLeft);
        v.push(Direction::Left);
        v.push(Direction::DownLeft);
        proof {
            assert(v@ =~= all_directions());
        }
        v
    }
}

/// How many entries of `s` are nonzero. The board invariant ties this
/// count to the score: the score doubles as the number of filled cells.
pub open spec fn count_nonzero(s: Seq<u16>) -> int
    decreases s.len(),
{
    if s.len() == 0 {
        0
    } else {
        count_nonzero(s.drop_last()) + if s.last() != 0 {
            1int
        } else {
            0int
        }
    }
}

/// The nonzero count never exceeds the length.
proof fn lemma_count_nonzero_le_len(s: Seq<u16>)
    ensures
        0 <= count_nonzero(s) <= s.len(),
    decreases s.len(),
{
    if s.len() > 0 {
        lemma_count_nonzero_le_len(s.drop_last());
    }
}

/// A sequence with a zero entry has fewer nonzero entries than its length.
proof fn lemma_count_nonzero_zero_cell(s: Seq<u16>, i: int)
    requires
        0 <= i < s.len(),
        s[i] == 0,
    ensures
        count_nonzero(s) <= s.len() - 1,
    decreases s.len(),
{
    lemma_count_nonzero_le_len(s.drop_last());
    if i < s.len() - 1 {
        lemma_count_nonzero_zero_cell(s.drop_last(), i);
    }
}

/// An all-zero sequence has no nonzero entries.
proof fn lemma_count_nonzero_all_zero(s: Seq<u16>)
    requires
        forall|i: int| 0 <= i < s.len() ==> s[i] == 0,
    ensures
        count_nonzero(s) == 0,
    decreases s.len(),
{
    if s.len() > 0 {
        lemma_count_nonzero_all_zero(s.drop_last());
    }
}

/// Writing a nonzero value over a zero entry raises the nonzero count by one.
proof fn lemma_count_nonzero_update(s: Seq<u16>, i: int, v: u16)
    requires
        0 <= i < s.len(),
        s[i] == 0,
        v != 0,
    ensures
        count_nonzero(s.update(i, v)) == count_nonzero(s) + 1,
    decreases s.len(),
{
    let t = s.update(i, v);
    if i == s.len() - 1 {
        assert(t.drop_last() =~= s.drop_last());
    } else {
        assert(t.drop_last() =~= s.drop_last().update(i, v));
        lemma_count_nonzero_update(s.drop_last(), i, v);
    }
}

/// The puzzle board: a square grid of `size` x `size` cells, each holding
/// 0 (empty) or the label it was visited with, together with the cursor,
/// the coordinates of the most recently placed label.
#[derive(Clone, Debug)]
pub struct Board {
    /// The number of vertical/horizontal cells in the board, in [5, 16].
    pub size: usize,
    /// The total number of cells in the board (`size * size`).
    pub cells: usize,
    /// The labels of the cells, indexed by `row * size + col`.
    pub values: Vec<u16>,
    /// The x (column) coordinate of the last cell set in the board.
    pub x: usize,
    /// The y (row) coordinate of the last cell set in the board.
    pub y: usize,
}

impl Board {
    /// The label at cell (x, y).
    pub open spec fn val(self, x: int, y: int) -> int {
        self.values@[y * self.size + x] as int
    }

    /// The highest label placed so far: by the invariant, the label under
    /// the cursor. 0 on an unstarted board.
    pub open spec fn spec_score(self) -> int {
        self.val(self.x as int, self.y as int)
    }

    /// Whether any label has been placed yet.
    pub open spec fn spec_started(self) -> bool {
        self.spec_score() > 0
    }

    /// Whether some cell of the grid holds the label `v`.
    pub open spec fn has_label(self, v: int) -> bool {
        exists|i: int| 0 <= i < self.values@.len() && self.values@[i] == v
    }

    /// Well-formedness of a board: a clamped size, a grid of matching
    /// length with the cursor inside it, and the placement invariant:
    /// the labels placed are exactly 1 up to the score, each on one cell,
    /// and the cursor holds the score itself.
    pub open spec fn inv(self) -> bool {
        &&& 5 <= self.size <= 16
        &&& self.cells == self.size * self.size
        &&& self.values@.len() == self.cells
        &&& self.x < self.size
        &&& self.y < self.size
        &&& 0 <= self.spec_score() <= self.cells
        &&& forall|i: int| 0 <= i < self.values@.len() ==> self.values@[i] <= self.spec_score()
        &&& forall|v: int| 1 <= v <= self.spec_score() ==> #[trigger] self.has_label(v)
        &&& forall|i: int, j: int|
            0 <= i < j < self.values@.len() && self.values@[i] == self.values@[j]
                ==> self.values@[i] == 0
        &&& count_nonzero(self.values@) == self.spec_score()
    }

    /// Create a new, empty board with the dimensions `size` x `size`,
    /// clamping `size` into [5, 16]. The result is fully determined by
    /// the clamped size, so out-of-range sizes behave exactly as the
    /// nearest bound does.
    pub fn new(size: usize) -> (r: Board)
        ensures
            r.size == (if size < 5 {
                5int
            } else if size > 16 {
                16int
            } else {
                size as int
            }),
            r.cells == r.size * r.size,
            r.values@.len() == r.cells,
            forall|i: int| 0 <= i < r.values@.len() ==> r.values@[i] == 0,
            r.x == 0,
            r.y == 0,
            r.inv(),
            !r.spec_started(),
            r.spec_score() == 0,
    {
        let mut size = size;
        if size < 5 {
            size = 5;
        }
        if size > 16 {
            size = 16;
        }
        proof {
            assert(25 <= size * size <= 256) by (nonlinear_arith)
                requires
                    5 <= size <= 16,
            ;
        }
        let cells: usize = size * size;
        let mut values: Vec<u16> = Vec::new();
        let mut i: usize = 0;
        while i < cells
            invariant
                i <= cells,
                values@.len() == i,
                forall|j: int| 0 <= j < values@.len() ==> values@[j] == 0,
            decreases cells - i,
        {
            values.push(0);
            i = i + 1;
        }
        let board = Board { size, cells, values, x: 0, y: 0 };
        proof {
            lemma_count_nonzero_all_zero(board.values@);
        }
        board
    }

    /// The value at the given location on the board. Reading out of range
    /// breaks the caller's obligation, not the board's.
    pub fn value_at(&self, x: usize, y: usize) -> (r: u16)
        requires
            self.inv(),
            x < self.size,
            y < self.size,
        ensures
            r as int == self.val(x as int, y as int),
    {
        proof {
            assert(y * self.size + x < self.size * self.size) by (nonlinear_arith)
                requires
                    x < self.size,
                    y < self.size,
            ;
        }
        self.values[y * self.size + x]
    }

    /// Return `true` if the board has been started; otherwise `false`.
    pub fn is_started(&self) -> (r: bool)
        requires
            self.inv(),
        ensures
            r == self.spec_started(),
    {
        self.value_at(self.x, self.y) > 0
    }

    /// The score is simply the highest value on the board, which equals
    /// the number of cells filled so far.
    pub fn score(&self) -> (r: usize)
        requires
            self.inv(),
        ensures
            r as int == self.spec_score(),
    {
        let mut best: u16 = 0;
        let mut i: usize = 0;
        while i < self.values.len()
            invariant
                self.inv(),
                i <= self.values@.len(),
                best as int <= self.spec_score(),
                forall|j: int| 0 <= j < i ==> self.values@[j] <= best,
            decreases self.values@.len() - i,
        {
            let v = self.values[i];
            if v > best {
                best = v;
            }
            i = i + 1;
        }
        proof {
            assert(0 <= self.y * self.size + self.x < self.size * self.size)
                by (nonlinear_arith)
                requires
                    self.x < self.size,
                    self.y < self.size,
            ;
            assert(self.values@[self.y * self.size + self.x] <= best);
        }
        best as usize
    }

    /// The cell that a move in direction `d` from the cursor lands on.
    pub open spec fn spec_target(self, d: Direction) -> (int, int) {
        (self.x + d.spec_offset().0, self.y + d.spec_offset().1)
    }

    /// Whether a move in direction `d` is legal: the board is started,
    /// the target lies on the board, and the target cell is unvisited.
    pub open spec fn move_ok(self, d: Direction) -> bool {
        let (tx, ty) = self.spec_target(d);
        &&& self.spec_started()
        &&& 0 <= tx < self.size
        &&& 0 <= ty < self.size
        &&& self.val(tx, ty) == 0
    }

    /// Determines if a move in the given direction is valid. A move is
    /// valid if the resulting position is on the board, and if the
    /// resulting position is an empty cell. If the move is valid, it
    /// returns `Some((x, y))` where (x, y) is the cell location resulting
    /// from the move. Otherwise, it returns `None`. This is a pure query:
    /// it never mutates the board.
    pub fn valid_move(&self, dir: Direction) -> (r: Option<(usize, usize)>)
        requires
            self.inv(),
        ensures
            self.move_ok(dir) ==> r == Some(
                (self.spec_target(dir).0 as usize, self.spec_target(dir).1 as usize),
            ),
            !self.move_ok(dir) ==> r is None,
    {
        let x: i32 = self.x as i32;
        let y: i32 = self.y as i32;
        let size: i32 = self.size as i32;
        if self.is_started() {
            let (tx, ty): (i32, i32) = match dir {
                Direction::Down => (x, y + HV_OFFSET),
                Direction::DownRight => (x + DIAG_OFFSET, y + DIAG_OFFSET),
                Direction::Right => (x + HV_OFFSET, y),
                Direction::UpRight => (x + DIAG_OFFSET, y - DIAG_OFFSET),
                Direction::Up => (x, y - HV_OFFSET),
                Direction::UpLeft => (x - DIAG_OFFSET, y - DIAG_OFFSET),
                Direction::Left => (x - HV_OFFSET, y),
                Direction::DownLeft => (x - DIAG_OFFSET, y + DIAG_OFFSET),
            };
            if tx >= 0 && ty >= 0 && tx < size && ty < size
                && self.value_at(tx as usize, ty as usize) == 0 {
                return Some((tx as usize, ty as usize));
            }
        }
        None
    }

    /// The legal moves from the cursor, in the fixed direction order.
    /// Empty when the board is not started.
    pub open spec fn spec_possible_moves(self) -> Seq<Direction> {
        let s0 = Seq::<Direction>::empty();
        let s1 = if self.move_ok(Direction::Down) {
            s0.push(Direction::Down)
        } else {
            s0
        };
        let s2 = if self.move_ok(Direction::DownRight) {
            s1.push(Direction::DownRight)
        } else {
            s1
        };
        let s3 = if self.move_ok(Direction::Right) {
            s2.push(Direction::Right)
        } else {
            s2
        };
        let s4 = if self.move_ok(Direction::UpRight) {
            s3.push(Direction::UpRight)
        } else {
            s3
        };
        let s5 = if self.move_ok(Direction::Up) {
            s4.push(Direction::Up)
        } else {
            s4
        };
        let s6 = if self.move_ok(Direction::UpLeft) {
            s5.push(Direction::UpLeft)
        } else {
            s5
        };
        let s7 = if self.move_ok(Direction::Left) {
            s6.push(Direction::Left)
        } else {
            s6
        };
        if self.move_ok(Direction::DownLeft) {
            s7.push(Direction::DownLeft)
        } else {
            s7
        }
    }

    /// Return a list of all possible moves from the current location, in
    /// the fixed direction order. Returns an empty list if there are no
    /// moves, or the board is not started.
    pub fn possible_moves(&self) -> (r: Vec<Direction>)
        requires
            self.inv(),
        ensures
            r@ == self.spec_possible_moves(),
    {
        let mut v: Vec<Direction> = Vec::new();
        if self.valid_move(Direction::Down).is_some() {
            v.push(Direction::Down);
        }
        if self.valid_move(Direction::DownRight).is_some() {
            v.push(Direction::DownRight);
        }
        if self.valid_move(Direction::Right).is_some() {
            v.push(Direction::Right);
        }
        if self.valid_move(Direction::UpRight).is_some() {
            v.push(Direction::UpRight);
        }
        if self.valid_move(Direction::Up).is_some() {
            v.push(Direction::Up);
        }
        if self.valid_move(Direction::UpLeft).is_some() {
            v.push(Direction::UpLeft);
        }
        if self.valid_move(Direction::Left).is_some() {
            v.push(Direction::Left);
        }
        if self.valid_move(Direction::DownLeft).is_some() {
            v.push(Direction::DownLeft);
        }
        proof {
            assert(v@ =~= self.spec_possible_moves());
        }
        v
    }

    /// Whether the board is complete: the cursor holds the maximum label
    /// and no cell of the grid is empty. Both conditions are checked
    /// explicitly; neither is assumed from the other.
    pub open spec fn spec_won(self) -> bool {
        &&& self.spec_score() == self.cells
        &&& forall|i: int| 0 <= i < self.values@.len() ==> self.values@[i] != 0
    }

    /// Return true if the board is complete. A board is complete if the
    /// value of the last move equals the maximum number of cells, and
    /// there are no empty cells in the board.
    pub fn is_won(&self) -> (r: bool)
        requires
            self.inv(),
        ensures
            r == self.spec_won(),
    {
        if self.value_at(self.x, self.y) as usize != self.cells {
            return false;
        }
        let mut i: usize = 0;
        while i < self.values.len()
            invariant
                i <= self.values@.len(),
                forall|j: int| 0 <= j < i ==> self.values@[j] != 0,
            decreases self.values@.len() - i,
        {
            if self.values[i] == 0 {
                return false;
            }
            i = i + 1;
        }
        true
    }

    /// Whether the board is started but offers no legal move.
    pub open spec fn spec_blocked(self) -> bool {
        self.spec_started() && self.spec_possible_moves().len() == 0
    }

    /// Return `true` if the board is started and there are no possible
    /// moves for the current board.
    pub fn is_blocked(&self) -> (r: bool)
        requires
            self.inv(),
        ensures
            r == self.spec_blocked(),
    {
        self.is_started() && self.possible_moves().len() == 0
    }

    /// Set the value of a location on the board to `value`, yielding the
    /// resulting board and leaving this one untouched. The checks are
    /// made in a fixed order — range, positivity, monotonicity, upper
    /// bound, occupancy — so failures are reported deterministically.
    /// Placing exactly the next label on a well-formed board preserves
    /// the board invariant.
    fn set_value(&mut self, x: usize, y: usize, value: u16) -> (r: Result<Board, BoardError>)
        requires
            old(self).inv(),
        ensures
            *final(self) == *old(self),
            ({
                let s = *old(self);
                if x >= s.size || y >= s.size {
                    r matches Err(e) && e.kind == BoardErrorKind::OutOfRange
                } else if value < 1 {
                    r matches Err(e) && e.kind == BoardErrorKind::NonPositiveValue
                } else if value as int <= s.spec_score() {
                    r matches Err(e) && e.kind == BoardErrorKind::ValueAlreadyUsed
                } else if value as int > s.cells {
                    r matches Err(e) && e.kind == BoardErrorKind::ValueTooLarge
                } else if s.val(x as int, y as int) != 0 {
                    r matches Err(e) && e.kind == BoardErrorKind::CellOccupied
                } else {
                    r matches Ok(b) && ({
                        &&& b.size == s.size
                        &&& b.cells == s.cells
                        &&& b.x == x
                        &&& b.y == y
                        &&& b.values@ == s.values@.update(y * s.size + x, value)
                        &&& (value as int == s.spec_score() + 1 ==> b.inv() && b.spec_score()
                            == s.spec_score() + 1)
                    })
                }
            }),
    {
        if x >= self.size || y >= self.size {
            return Err(BoardError::new(BoardErrorKind::OutOfRange));
        }
        if value < 1 {
            return Err(BoardError::new(BoardErrorKind::NonPositiveValue));
        }
        let score: usize = self.score();
        if value as usize <= score {
            return Err(BoardError::new(BoardErrorKind::ValueAlreadyUsed));
        }
        if value as usize > self.cells {
            return Err(BoardError::new(BoardErrorKind::ValueTooLarge));
        }
        if self.value_at(x, y) != 0 {
            return Err(BoardError::new(BoardErrorKind::CellOccupied));
        }
        proof {
            assert(0 <= y * self.size + x < self.size * self.size) by (nonlinear_arith)
                requires
                    x < self.size,
                    y < self.size,
            ;
        }
        let idx: usize = y * self.size + x;
        let mut new_values: Vec<u16> = Vec::new();
        let mut i: usize = 0;
        while i < self.values.len()
            invariant
                i <= self.values@.len(),
                new_values@ == self.values@.subrange(0, i as int),
            decreases self.values@.len() - i,
        {
            new_values.push(self.values[i]);
            proof {
                assert(new_values@ =~= self.values@.subrange(0, i + 1));
            }
            i = i + 1;
        }
        proof {
            assert(new_values@ =~= self.values@);
        }
        new_values.set(idx, value);
        let board = Board { size: self.size, cells: self.cells, values: new_values, x, y };
        proof {
            let s = *self;
            let gidx = y * s.size + x;
            if value as int == s.spec_score() + 1 {
                assert(board.spec_score() == value);
                lemma_count_nonzero_update(s.values@, gidx, value);
                assert forall|i: int| 0 <= i < board.values@.len() implies board.values@[i]
                    <= board.spec_score() by {
                    if i != gidx {
                        assert(s.values@[i] <= s.spec_score());
                    }
                }
                assert forall|v: int| 1 <= v <= board.spec_score() implies #[trigger] board
                    .has_label(v) by {
                    if v <= s.spec_score() {
                        assert(s.has_label(v));
                        let w = choose|i: int|
                            0 <= i < s.values@.len() && s.values@[i] == v;
                        assert(board.values@[w] == v);
                    } else {
                        assert(board.values@[gidx] == v);
                    }
                }
                assert forall|i: int, j: int|
                    0 <= i < j < board.values@.len() && board.values@[i] == board.values@[j]
                    implies board.values@[i] == 0 by {
                    if i != gidx && j != gidx {
                        assert(s.values@[i] == board.values@[i]);
                        assert(s.values@[j] == board.values@[j]);
                    }
                }
                assert(board.inv());
            }
        }
        Ok(board)
    }

    /// Start the puzzle by placing a 1 in the given location. Fails if
    /// the location is out of range or the board is already started; on
    /// a fresh board in-range coordinates always succeed.
    pub fn start_at(&mut self, x: usize, y: usize) -> (r: Result<Board, BoardError>)
        requires
            old(self).inv(),
        ensures
            *final(self) == *old(self),
            ({
                let s = *old(self);
                if x >= s.size || y >= s.size {
                    r matches Err(e) && e.kind == BoardErrorKind::OutOfRange
                } else if s.spec_started() {
                    r matches Err(e) && e.kind == BoardErrorKind::ValueAlreadyUsed
                } else {
                    r matches Ok(b) && ({
                        &&& b.inv()
                        &&& b.size == s.size
                        &&& b.cells == s.cells
                        &&& b.x == x
                        &&& b.y == y
                        &&& b.values@ == s.values@.update(y * s.size + x, 1u16)
                        &&& b.spec_started()
                        &&& b.spec_score() == 1
                        &&& b.val(x as int, y as int) == 1
                    })
                }
            }),
    {
        proof {
            let s = *self;
            assert(25 <= s.size * s.size <= 256) by (nonlinear_arith)
                requires
                    5 <= s.size <= 16,
            ;
            if x < s.size && y < s.size {
                assert(0 <= y * s.size + x < s.size * s.size) by (nonlinear_arith)
                    requires
                        x < s.size,
                        y < s.size,
                ;
            }
        }
        self.set_value(x, y, 1)
    }

    /// Make the next move on the board using a given direction, placing
    /// the next label (the current score plus one) on the target cell and
    /// moving the cursor there. Fails with `NotStarted` before any
    /// `start_at`, and with `InvalidDirection` when the direction has no
    /// valid target; a valid target always succeeds. This board itself is
    /// never changed: the resulting board is returned.
    pub fn next_move(&mut self, dir: Direction) -> (r: Result<Board, BoardError>)
        requires
            old(self).inv(),
        ensures
            *final(self) == *old(self),
            !old(self).spec_started() ==> (r matches Err(e) && e.kind
                == BoardErrorKind::NotStarted),
            old(self).spec_started() && !old(self).move_ok(dir) ==> (r matches Err(e) && e.kind
                == BoardErrorKind::InvalidDirection),
            old(self).move_ok(dir) ==> (r matches Ok(b) && ({
                let s = *old(self);
                let tx = s.spec_target(dir).0;
                let ty = s.spec_target(dir).1;
                &&& b.inv()
                &&& b.size == s.size
                &&& b.cells == s.cells
                &&& b.x == tx
                &&& b.y == ty
                &&& b.values@ == s.values@.update(ty * s.size + tx, (s.spec_score() + 1) as u16)
                &&& b.val(tx, ty) == s.spec_score() + 1
                &&& b.spec_score() == s.spec_score() + 1
                &&& forall|i: int|
                    0 <= i < s.values@.len() && s.values@[i] != 0 ==> b.values@[i]
                        == s.values@[i]
            })),
    {
        if !self.is_started() {
            return Err(BoardError::new(BoardErrorKind::NotStarted));
        }
        match self.valid_move(dir) {
            Some((x, y)) => {
                proof {
                    let s = *self;
                    assert(s.size * s.size <= 256) by (nonlinear_arith)
                        requires
                            s.size <= 16,
                    ;
                    assert(0 <= y * s.size + x < s.size * s.size) by (nonlinear_arith)
                        requires
                            x < s.size,
                            y < s.size,
                    ;
                    lemma_count_nonzero_zero_cell(s.values@, y * s.size + x);
                }
                let v: u16 = self.value_at(self.x, self.y);
                self.set_value(x, y, v + 1)
            },
            None => Err(BoardError::new(BoardErrorKind::InvalidDirection)),
        }
    }
}

/// No label appears on two cells: on a well-formed board, two distinct
/// cells holding the same value are both empty.
pub proof fn lemma_no_duplicate_labels(b: Board, i: int, j: int)
    requires
        b.inv(),
        0 <= i < b.values@.len(),
        0 <= j < b.values@.len(),
        i != j,
        b.values@[i] == b.values@[j],
    ensures
        b.values@[i] == 0,
{
}

/// On a just-started board (exactly one label placed), a direction is a
/// legal move exactly when its target lies on the board: every cell but
/// the cursor is empty, and the cursor is never its own target. So the
/// number of possible moves right after `start_at` is the number of the
/// eight offset targets that land in bounds.
pub proof fn lemma_fresh_board_moves(b: Board, d: Direction)
    requires
        b.inv(),
        b.spec_score() == 1,
    ensures
        b.move_ok(d) <==> (0 <= b.spec_target(d).0 < b.size && 0 <= b.spec_target(d).1
            < b.size),
{
    let tx = b.spec_target(d).0;
    let ty = b.spec_target(d).1;
    if 0 <= tx < b.size && 0 <= ty < b.size {
        let ci = b.y * b.size + b.x;
        let ti = ty * b.size + tx;
        assert(0 <= ty * b.size + tx < b.size * b.size) by (nonlinear_arith)
            requires
                0 <= tx < b.size,
                0 <= ty < b.size,
        ;
        assert(0 <= b.y * b.size + b.x < b.size * b.size) by (nonlinear_arith)
            requires
                b.x < b.size,
                b.y < b.size,
        ;
        assert(tx != b.x || ty != b.y);
        if ti == ci {
            assert(tx == b.x && ty == b.y) by (nonlinear_arith)
                requires
                    0 <= tx < b.size,
                    b.x < b.size,
                    ty * b.size + tx == b.y * b.size + b.x,
            ;
        }
        if b.values@[ti] != 0 {
            assert(b.values@[ti] == 1);
            lemma_no_duplicate_labels(b, ti, ci);
        }
        assert(b.val(tx, ty) == 0);
    }
}

/// A blocked board is started and offers no legal move in any direction.
pub proof fn lemma_blocked_no_moves(b: Board, d: Direction)
    requires
        b.inv(),
        b.spec_blocked(),
    ensures
        b.spec_started(),
        !b.move_ok(d),
{
    if b.move_ok(d) {
        assert(b.spec_possible_moves().len() >= 1);
    }
}

/// A won board is also blocked: no empty cell remains, so no direction
/// has a legal target. (The converse does not hold: a blocked board need
/// not be won.)
pub proof fn lemma_won_implies_blocked(b: Board)
    requires
        b.inv(),
        b.spec_won(),
    ensures
        b.spec_blocked(),
{
    assert(25 <= b.size * b.size) by (nonlinear_arith)
        requires
            5 <= b.size,
    ;
    assert forall|d: Direction| !b.move_ok(d) by {
        let tx = b.spec_target(d).0;
        let ty = b.spec_target(d).1;
        if 0 <= tx < b.size && 0 <= ty < b.size {
            assert(0 <= ty * b.size + tx < b.size * b.size) by (nonlinear_arith)
                requires
                    0 <= tx < b.size,
                    0 <= ty < b.size,
            ;
            assert(b.values@[ty * b.size + tx] != 0);
        }
    }
    assert(b.spec_possible_moves().len() == 0);
}

} // verus!
