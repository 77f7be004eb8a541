//! An open-ended machine: two players place their marks on a three-by-
//! three board in turns, and a separate action asks the machine to look
//! for a winner — three in a row, a column or a diagonal, or a draw once
//! the board is full.

use vstd::prelude::*;

verus! {

/// What one cell of the board holds.
#[derive(Debug, PartialEq, Eq, Clone, Copy, Structural)]
pub enum ValueInCell {
    Empty,
    X,
    O,
}

/// The whole game state: the board, the two players' marks, whose turn
/// is next, and the winner found by the last check.
#[derive(Debug, PartialEq, Eq, Clone, Copy)]
pub struct MoveMaker {
    pub board: [[ValueInCell; 3]; 3],
    pub player1: ValueInCell,
    pub player2: ValueInCell,
    pub is_next_player1: bool,
    pub winner: Option<ValueInCell>,
}

/// The moves of the game: place the next player's mark, or check for a
/// winner.
#[derive(Debug, PartialEq, Eq, Clone, Copy)]
pub enum Action {
    MakeMove(usize, usize),
    CheckWin,
}

/// The mark held at one cell of a board.
pub open spec fn cell(b: [[ValueInCell; 3]; 3], r: int, c: int) -> ValueInCell {
    (b@[r])@[c]
}

/// Three equal, non-empty marks across row `r`.
pub open spec fn row_won(b: [[ValueInCell; 3]; 3], r: int) -> bool {
    cell(b, r, 0) != ValueInCell::Empty && cell(b, r, 0) == cell(b, r, 1) && cell(b, r, 0) == cell(
        b,
        r,
        2,
    )
}

/// Three equal, non-empty marks down column `c`.
pub open spec fn col_won(b: [[ValueInCell; 3]; 3], c: int) -> bool {
    cell(b, 0, c) != ValueInCell::Empty && cell(b, 0, c) == cell(b, 1, c) && cell(b, 0, c) == cell(
        b,
        2,
        c,
    )
}

/// Three equal, non-empty marks down the main diagonal.
pub open spec fn main_diagonal_won(b: [[ValueInCell; 3]; 3]) -> bool {
    cell(b, 0, 0) != ValueInCell::Empty && cell(b, 0, 0) == cell(b, 1, 1) && cell(b, 0, 0) == cell(
        b,
        2,
        2,
    )
}

/// Three equal, non-empty marks down the other diagonal.
pub open spec fn anti_diagonal_won(b: [[ValueInCell; 3]; 3]) -> bool {
    cell(b, 0, 2) != ValueInCell::Empty && cell(b, 0, 2) == cell(b, 1, 1) && cell(b, 0, 2) == cell(
        b,
        2,
        0,
    )
}

/// No cell is empty.
pub open spec fn board_full(b: [[ValueInCell; 3]; 3]) -> bool {
    forall|r: int, c: int| 0 <= r < 3 && 0 <= c < 3 ==> cell(b, r, c) != ValueInCell::Empty
}

/// The winner the checking action reports: rows first, then columns,
/// then the diagonals; a full board with no line is a draw, reported as
/// the empty mark; otherwise there is no winner yet.
pub open spec fn spec_winner(b: [[ValueInCell; 3]; 3]) -> Option<ValueInCell> {
    if row_won(b, 0) {
        Option::Some(cell(b, 0, 0))
    } else if row_won(b, 1) {
        Option::Some(cell(b, 1, 0))
    } else if row_won(b, 2) {
        Option::Some(cell(b, 2, 0))
    } else if col_won(b, 0) {
        Option::Some(cell(b, 0, 0))
    } else if col_won(b, 1) {
        Option::Some(cell(b, 0, 1))
    } else if col_won(b, 2) {
        Option::Some(cell(b, 0, 2))
    } else if main_diagonal_won(b) {
        Option::Some(cell(b, 0, 0))
    } else if anti_diagonal_won(b) {
        Option::Some(cell(b, 0, 2))
    } else if board_full(b) {
        Option::Some(ValueInCell::Empty)
    } else {
        Option::None
    }
}

impl MoveMaker {
    /// A fresh game: an empty board, the given marks, the first player
    /// to move.
    pub fn new(player1: ValueInCell, player2: ValueInCell) -> (r: MoveMaker)
        ensures
            forall|rr: int, cc: int|
                0 <= rr < 3 && 0 <= cc < 3 ==> cell(r.board, rr, cc) == ValueInCell::Empty,
            r.player1 == player1,
            r.player2 == player2,
            r.is_next_player1,
            r.winner == Option::<ValueInCell>::None,
    {
        let row = [ValueInCell::Empty, ValueInCell::Empty, ValueInCell::Empty];
        MoveMaker { board: [row, row, row], player1, player2, is_next_player1: true, winner: Option::None }
    }

    /// The winner on the current board, if the board decides one.
    #[verifier::loop_isolation(false)]
    fn check_winner(&self) -> (r: Option<ValueInCell>)
        ensures
            r == spec_winner(self.board),
    {
        let b = &self.board;
        let mut i: usize = 0;
        while i < 3
            invariant
                i <= 3,
                forall|k: int| 0 <= k < i ==> !row_won(self.board, k),
            decreases 3 - i,
        {
            if b[i][0] != ValueInCell::Empty && b[i][0] == b[i][1] && b[i][0] == b[i][2] {
                return Option::Some(b[i][0]);
            }
            i = i + 1;
        }
        let mut j: usize = 0;
        while j < 3
            invariant
                j <= 3,
                forall|k: int| 0 <= k < 3 ==> !row_won(self.board, k),
                forall|k: int| 0 <= k < j ==> !col_won(self.board, k),
            decreases 3 - j,
        {
            if b[0][j] != ValueInCell::Empty && b[0][j] == b[1][j] && b[0][j] == b[2][j] {
                return Option::Some(b[0][j]);
            }
            j = j + 1;
        }
        if b[0][0] != ValueInCell::Empty && b[0][0] == b[1][1] && b[0][0] == b[2][2] {
            return Option::Some(b[0][0]);
        }
        if b[0][2] != ValueInCell::Empty && b[0][2] == b[1][1] && b[0][2] == b[2][0] {
            return Option::Some(b[0][2]);
        }
        let mut full = true;
        let mut r: usize = 0;
        while r < 3
            invariant
                r <= 3,
                full == (forall|rr: int, c: int|
                    0 <= rr < r && 0 <= c < 3 ==> cell(self.board, rr, c) != ValueInCell::Empty),
            decreases 3 - r,
        {
            let ghost was_full = full;
            let row_full = b[r][0] != ValueInCell::Empty && b[r][1] != ValueInCell::Empty && b[r][2]
                != ValueInCell::Empty;
            full = full && row_full;
            proof {
                if full {
                    assert forall|rr: int, c: int|
                        0 <= rr < r + 1 && 0 <= c < 3 implies cell(self.board, rr, c)
                        != ValueInCell::Empty by {
                        if rr < r {
                        } else {
                            assert(c == 0 || c == 1 || c == 2);
                        }
                    }
                } else {
                    if was_full {
                        assert(cell(self.board, r as int, 0) == ValueInCell::Empty || cell(
                            self.board,
                            r as int,
                            1,
                        ) == ValueInCell::Empty || cell(self.board, r as int, 2)
                            == ValueInCell::Empty);
                    }
                }
            }
            r = r + 1;
        }
        if full {
            proof {
                assert(board_full(self.board));
            }
            Option::Some(ValueInCell::Empty)
        } else {
            proof {
                assert(!board_full(self.board));
            }
            Option::None
        }
    }

    /// Calculate the resulting state when this state undergoes the given
    /// action: placing a mark fills the chosen cell with the next
    /// player's mark and passes the turn, and checking stores the winner
    /// the current board decides.
    pub fn next_state(starting: &MoveMaker, t: &Action) -> (r: MoveMaker)
        requires
            match *t {
                Action::MakeMove(row, col) => row < 3 && col < 3,
                Action::CheckWin => true,
            },
        ensures
            match *t {
                Action::MakeMove(row, col) => {
                    &&& forall|rr: int, cc: int|
                        0 <= rr < 3 && 0 <= cc < 3 ==> cell(r.board, rr, cc) == (if rr == row && cc
                            == col {
                            if starting.is_next_player1 {
                                starting.player1
                            } else {
                                starting.player2
                            }
                        } else {
                            cell(starting.board, rr, cc)
                        })
                    &&& r.is_next_player1 == !starting.is_next_player1
                    &&& r.player1 == starting.player1
                    &&& r.player2 == starting.player2
                    &&& r.winner == starting.winner
                },
                Action::CheckWin => {
                    &&& r.winner == spec_winner(starting.board)
                    &&& r.board == starting.board
                    &&& r.player1 == starting.player1
                    &&& r.player2 == starting.player2
                    &&& r.is_next_player1 == starting.is_next_player1
                },
            },
    {
        let mut new_state = *starting;
        match t {
            Action::MakeMove(row, col) => {
                let mark = if new_state.is_next_player1 {
                    new_state.player1
                } else {
                    new_state.player2
                };
                new_state.board[*row][*col] = mark;
                new_state.is_next_player1 = !new_state.is_next_player1;
            },
            Action::CheckWin => {
                new_state.winner = starting.check_winner();
            },
        }
        new_state
    }
}

} // verus!
