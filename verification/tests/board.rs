use simple_number::Board;
use simple_number::BoardErrorKind;
use simple_number::Direction;

#[test]
// Start a board and check that invariants hold.
fn new_board() {
    let mut board = Board::new(10);
    // newly created board has a size of 10
    assert_eq!(board.size, 10);
    // newly created bboard has cell count of 100
    assert_eq!(board.cells, 100);
    // newly created board has a score of 0
    assert_eq!(board.score(), 0);
    // newly created board is not started
    assert_eq!(board.is_started(), false);
    // unstarted board cannot be won
    assert_eq!(board.is_won(), false);
    // no possible moves because board isn't started
    assert_eq!(board.possible_moves().len(), 0);
    // start the board
    board = board.start_at(5, 5).unwrap();
    // board is started
    assert_eq!(board.is_started(), true);
    // cell at (5, 5) should be 1
    assert_eq!(board.values[55], 1);
    // score is 1
    assert_eq!(board.score(), 1);
    // all moves should be possible
    assert_eq!(board.possible_moves().len(), 8);
    // board isn't won
    assert_eq!(board.is_won(), false);
}

#[test]
// Test a complete set of moves on a 5x5 board and confirm that all
// invariants hold. The completed board looks like:
//
//      1 24 14  2 25
//     16 21  5  8 20
//     13 10 18 23 11
//      4  7 15  3  6
//     17 22 12  9 19
fn win_5() {
    let moves = [
        Direction::Right, Direction::Down, Direction::Left,
        Direction::UpRight, Direction::DownRight, Direction::Left,
        Direction::UpRight, Direction::Down, Direction::UpLeft,
        Direction::Right, Direction::DownLeft, Direction::UpLeft,
        Direction::UpRight, Direction::Down, Direction::UpLeft,
        Direction::Down, Direction::UpRight, Direction::DownRight,
        Direction::Up, Direction::Left, Direction::Down,
        Direction::UpRight, Direction::UpLeft, Direction::Right
    ];
    // The number of possible moves on the board after each move.
    let possible_moves = [
        3, 2, 2, 1, 2,
        2, 2, 2, 2, 1,
        2, 1, 2, 1, 2,
        1, 1, 2, 2, 1,
        1, 1, 1, 1, 0,
    ];

    let mut board = Board::new(5);
    assert_eq!(board.is_started(), false);
    board = board.start_at(0, 0).unwrap();
    assert_eq!(board.is_started(), true);
    let mut possible = possible_moves.iter();
    let mut i: usize = 1;
    for m in moves.iter() {
        assert_eq!(board.possible_moves().len(), *possible.next().unwrap(), "testing move {}", i);
        assert_eq!(board.is_won(), false);
        assert_eq!(board.is_blocked(), false);
        assert_eq!(board.score(), i);
        let ret = board.next_move(*m);
        assert_eq!(ret.is_ok(), true, "testing move {}", i);
        board = ret.unwrap();
        i += 1;
    }
    assert_eq!(board.possible_moves().len(), *possible.next().unwrap());
    // ensure we have checked all values
    assert_eq!(possible.next().is_none(), true);
    // board is now won
    assert_eq!(board.is_won(), true);
    // score should be 25 (max board)
    assert_eq!(board.score(), board.cells);
    // there should be no possible moves;
    assert_eq!(board.is_blocked(), true);
}

#[test]
// A new board of any valid size is empty: full cell count, zero score,
// not started, not won, no moves.
fn new_board_all_sizes() {
    let mut s: usize = 5;
    while s <= 16 {
        let board = Board::new(s);
        assert_eq!(board.size, s);
        assert_eq!(board.cells, s * s);
        assert_eq!(board.score(), 0);
        assert_eq!(board.is_started(), false);
        assert_eq!(board.is_won(), false);
        assert_eq!(board.is_blocked(), false);
        assert_eq!(board.possible_moves().len(), 0);
        let mut i: usize = 0;
        while i < board.cells {
            assert_eq!(board.values[i], 0);
            i += 1;
        }
        s += 1;
    }
}

#[test]
// Sizes below 5 are clamped to 5, sizes above 16 to 16: the boards are
// identical to those of the nearest bound.
fn new_board_clamped() {
    let small = Board::new(3);
    let five = Board::new(5);
    assert_eq!(small.size, five.size);
    assert_eq!(small.cells, five.cells);
    assert_eq!(small.values, five.values);
    assert_eq!(small.x, five.x);
    assert_eq!(small.y, five.y);

    let large = Board::new(100);
    let sixteen = Board::new(16);
    assert_eq!(large.size, sixteen.size);
    assert_eq!(large.cells, sixteen.cells);
    assert_eq!(large.values, sixteen.values);
    assert_eq!(large.x, sixteen.x);
    assert_eq!(large.y, sixteen.y);

    assert_eq!(Board::new(0).size, 5);
    assert_eq!(Board::new(17).size, 16);
}

#[test]
// The direction enumeration keeps its fixed order.
fn direction_order() {
    let dirs = Direction::iterator();
    let expected = [
        Direction::Down,
        Direction::DownRight,
        Direction::Right,
        Direction::UpRight,
        Direction::Up,
        Direction::UpLeft,
        Direction::Left,
        Direction::DownLeft,
    ];
    assert_eq!(dirs.len(), 8);
    let mut i: usize = 0;
    while i < 8 {
        assert_eq!(dirs[i], expected[i]);
        i += 1;
    }
}

#[test]
// After a start on an interior cell every one of the eight targets is in
// bounds; near a corner only those that land on the board remain.
fn start_move_counts() {
    let mut board = Board::new(10);
    let started = board.start_at(5, 5).unwrap();
    assert_eq!(started.is_started(), true);
    assert_eq!(started.value_at(5, 5), 1);
    assert_eq!(started.score(), 1);
    assert_eq!(started.possible_moves().len(), 8);

    // From (0, 0) on a 5x5 board only Down, DownRight and Right stay on
    // the board.
    let mut corner = Board::new(5);
    let corner = corner.start_at(0, 0).unwrap();
    let moves = corner.possible_moves();
    assert_eq!(moves.len(), 3);
    assert_eq!(moves[0], Direction::Down);
    assert_eq!(moves[1], Direction::DownRight);
    assert_eq!(moves[2], Direction::Right);
}

#[test]
// Moving before starting fails with NotStarted and changes nothing.
fn move_before_start() {
    let mut board = Board::new(6);
    let err = board.next_move(Direction::Down).unwrap_err();
    assert_eq!(err.kind, BoardErrorKind::NotStarted);
    assert_eq!(board.score(), 0);
    assert_eq!(board.is_started(), false);
    let mut i: usize = 0;
    while i < board.cells {
        assert_eq!(board.values[i], 0);
        i += 1;
    }
}

#[test]
// A direction without a valid target fails with InvalidDirection and
// changes nothing.
fn invalid_direction() {
    let mut board = Board::new(5);
    let mut board = board.start_at(0, 0).unwrap();
    // Up leaves the board from (0, 0).
    let err = board.next_move(Direction::Up).unwrap_err();
    assert_eq!(err.kind, BoardErrorKind::InvalidDirection);
    assert_eq!(board.score(), 1);
    assert_eq!(board.value_at(0, 0), 1);
    // Right is valid; afterwards moving Left lands back on the visited
    // start cell and is rejected, leaving the board unchanged.
    let mut board = board.next_move(Direction::Right).unwrap();
    assert_eq!(board.value_at(3, 0), 2);
    let err = board.next_move(Direction::Left).unwrap_err();
    assert_eq!(err.kind, BoardErrorKind::InvalidDirection);
    assert_eq!(board.score(), 2);
    assert_eq!(board.value_at(0, 0), 1);
    assert_eq!(board.value_at(3, 0), 2);
}

#[test]
// Starting out of range fails with OutOfRange; starting twice fails with
// ValueAlreadyUsed; neither changes the board.
fn start_errors() {
    let mut board = Board::new(5);
    let err = board.start_at(5, 0).unwrap_err();
    assert_eq!(err.kind, BoardErrorKind::OutOfRange);
    let err = board.start_at(0, 99).unwrap_err();
    assert_eq!(err.kind, BoardErrorKind::OutOfRange);
    assert_eq!(board.is_started(), false);

    let mut started = board.start_at(2, 2).unwrap();
    let err = started.start_at(1, 1).unwrap_err();
    assert_eq!(err.kind, BoardErrorKind::ValueAlreadyUsed);
    assert_eq!(started.score(), 1);
    assert_eq!(started.value_at(2, 2), 1);
    assert_eq!(started.value_at(1, 1), 0);
}

#[test]
// Every successful placement writes exactly the previous score plus one,
// and never rewrites a nonzero cell.
fn placement_is_monotonic() {
    let mut board = Board::new(5);
    let mut board = board.start_at(0, 0).unwrap();
    let dirs = [Direction::Right, Direction::Down, Direction::Left, Direction::UpRight];
    for d in dirs.iter() {
        let before = board.score();
        let old_values = board.values.clone();
        let next = board.next_move(*d).unwrap();
        assert_eq!(next.score(), before + 1);
        assert_eq!(next.value_at(next.x, next.y), (before + 1) as u16);
        // no nonzero cell changed
        let mut i: usize = 0;
        while i < next.cells {
            if old_values[i] != 0 {
                assert_eq!(next.values[i], old_values[i]);
            }
            i += 1;
        }
        board = next;
    }
    // each label 1..=5 appears exactly once
    let mut label: u16 = 1;
    while label <= 5 {
        let mut count: usize = 0;
        let mut i: usize = 0;
        while i < board.cells {
            if board.values[i] == label {
                count += 1;
            }
            i += 1;
        }
        assert_eq!(count, 1);
        label += 1;
    }
}

#[test]
// A dead end: this 5x5 sequence of 18 moves strands the cursor at (0, 1)
// with 19 cells filled. The board is blocked but not won.
fn blocked_not_won() {
    let moves = [
        Direction::Right, Direction::Down, Direction::Left,
        Direction::UpRight, Direction::DownRight, Direction::Up,
        Direction::Left, Direction::DownRight, Direction::Left,
        Direction::UpRight, Direction::Down, Direction::UpRight,
        Direction::Down, Direction::UpLeft, Direction::DownLeft,
        Direction::Right, Direction::Up, Direction::Left,
    ];
    let mut board = Board::new(5);
    let mut board = board.start_at(0, 0).unwrap();
    for m in moves.iter() {
        board = board.next_move(*m).unwrap();
    }
    assert_eq!(board.score(), 19);
    assert_eq!(board.is_started(), true);
    assert_eq!(board.possible_moves().len(), 0);
    assert_eq!(board.is_blocked(), true);
    assert_eq!(board.is_won(), false);
}

#[test]
// The winning 5x5 game reproduces the known grid exactly, and the won
// board reports itself blocked as well.
fn win_5_grid() {
    let moves = [
        Direction::Right, Direction::Down, Direction::Left,
        Direction::UpRight, Direction::DownRight, Direction::Left,
        Direction::UpRight, Direction::Down, Direction::UpLeft,
        Direction::Right, Direction::DownLeft, Direction::UpLeft,
        Direction::UpRight, Direction::Down, Direction::UpLeft,
        Direction::Down, Direction::UpRight, Direction::DownRight,
        Direction::Up, Direction::Left, Direction::Down,
        Direction::UpRight, Direction::UpLeft, Direction::Right
    ];
    let grid = [
        1, 24, 14, 2, 25,
        16, 21, 5, 8, 20,
        13, 10, 18, 23, 11,
        4, 7, 15, 3, 6,
        17, 22, 12, 9, 19,
    ];
    let mut board = Board::new(5);
    let mut board = board.start_at(0, 0).unwrap();
    for m in moves.iter() {
        board = board.next_move(*m).unwrap();
    }
    let mut i: usize = 0;
    while i < 25 {
        assert_eq!(board.values[i], grid[i]);
        i += 1;
    }
    assert_eq!(board.is_won(), true);
    assert_eq!(board.is_blocked(), true);
    assert_eq!(board.score(), 25);
}
