use chaincore::tic_tac_toe::{Action, MoveMaker, ValueInCell};

#[test]
fn test_new_game() {
    let game = MoveMaker::new(ValueInCell::X, ValueInCell::O);
    assert_eq!(game.board, [[ValueInCell::Empty; 3]; 3]);
    assert_eq!(game.player1, ValueInCell::X);
    assert_eq!(game.player2, ValueInCell::O);
    assert_eq!(game.is_next_player1, true);
    assert_eq!(game.winner, None);
}

#[test]
fn test_make_move() {
    let mut game = MoveMaker::new(ValueInCell::X, ValueInCell::O);
    assert_eq!(game.board[0][0], ValueInCell::Empty);

    game = MoveMaker::next_state(&game, &Action::MakeMove(0, 0));
    assert_eq!(game.board[0][0], ValueInCell::X);
    assert_eq!(game.is_next_player1, false);

    game = MoveMaker::next_state(&game, &Action::MakeMove(1, 1));
    assert_eq!(game.board[1][1], ValueInCell::O);
    assert_eq!(game.is_next_player1, true);
}

#[test]
fn test_check_win() {
    let mut game = MoveMaker::new(ValueInCell::X, ValueInCell::O);
    assert_eq!(game.winner, None);

    game.board = [
        [ValueInCell::X, ValueInCell::X, ValueInCell::X],
        [ValueInCell::Empty, ValueInCell::Empty, ValueInCell::Empty],
        [ValueInCell::Empty, ValueInCell::Empty, ValueInCell::Empty],
    ];
    assert_eq!(MoveMaker::next_state(&game, &Action::CheckWin).winner, Some(ValueInCell::X));

    game.board = [
        [ValueInCell::O, ValueInCell::Empty, ValueInCell::Empty],
        [ValueInCell::O, ValueInCell::Empty, ValueInCell::Empty],
        [ValueInCell::O, ValueInCell::Empty, ValueInCell::Empty],
    ];
    assert_eq!(MoveMaker::next_state(&game, &Action::CheckWin).winner, Some(ValueInCell::O));

    game.board = [
        [ValueInCell::X, ValueInCell::Empty, ValueInCell::Empty],
        [ValueInCell::Empty, ValueInCell::X, ValueInCell::Empty],
        [ValueInCell::Empty, ValueInCell::Empty, ValueInCell::X],
    ];
    assert_eq!(MoveMaker::next_state(&game, &Action::CheckWin).winner, Some(ValueInCell::X));

    game.board = [
        [ValueInCell::X, ValueInCell::O, ValueInCell::X],
        [ValueInCell::X, ValueInCell::O, ValueInCell::O],
        [ValueInCell::O, ValueInCell::X, ValueInCell::X],
    ];
    assert_eq!(MoveMaker::next_state(&game, &Action::CheckWin).winner, Some(ValueInCell::Empty));
}
