use tic_tac_toe::board::Board;
use tic_tac_toe::game::{make_move, new_game, Game, MoveError, Player, PlayerSet, PlayerType};
use tic_tac_toe::search::{computer_move, minimax, spacer};
use tic_tac_toe::session::{play_step, Step};

fn board(text: &str) -> Board {
    Board::from_str(text).unwrap()
}

fn computers() -> PlayerSet {
    PlayerSet { x: Player::X(PlayerType::Computer), o: Player::O(PlayerType::Computer) }
}

#[test]
fn two_computers_always_tie() {
    let set = computers();
    let mut game = new_game(&set);
    let mut moves = 0;
    let last = loop {
        match play_step(game).unwrap() {
            Step::Moved(next) => {
                moves += 1;
                game = next;
            }
            Step::Done(end) => break end,
            Step::Ask { .. } => panic!("no human plays"),
        }
    };
    assert_eq!(moves, 9);
    assert!(matches!(last, Game::Tie(_)));
}

/// Tries every move of `human` on `board`, lets the computer answer each,
/// and goes on from there; the human must never complete a line.
fn try_every_line(board: &Board, set: &PlayerSet, human: &Player, computer: &Player) -> usize {
    let mut games = 0;
    for pos in board.get_empty_squares() {
        match make_move(&pos, board, human, set).unwrap() {
            Game::Win(_, lost) => panic!("the computer lost on {:?}", lost.squares),
            Game::Tie(_) => games += 1,
            Game::InPlay { board: next, turn, .. } => {
                assert_eq!(turn, *computer);
                match computer_move(computer, set, &next).unwrap() {
                    Game::InPlay { board: reply, turn, .. } => {
                        assert_eq!(turn, *human);
                        games += try_every_line(&reply, set, human, computer);
                    }
                    Game::Win(winner, _) => {
                        assert_eq!(winner, *computer);
                        games += 1;
                    }
                    Game::Tie(_) => games += 1,
                    Game::Uninitiated => panic!("a move gives a game"),
                }
            }
            Game::Uninitiated => panic!("a move gives a game"),
        }
    }
    games
}

#[test]
fn computer_never_loses_when_it_moves_second() {
    let set = PlayerSet { x: Player::X(PlayerType::Human), o: Player::O(PlayerType::Computer) };
    assert!(try_every_line(&Board::default(), &set, &set.x, &set.o) > 0);
}

#[test]
fn computer_never_loses_when_it_moves_first() {
    let set = PlayerSet { x: Player::X(PlayerType::Computer), o: Player::O(PlayerType::Human) };
    match computer_move(&set.x, &set, &Board::default()).unwrap() {
        Game::InPlay { board: opened, turn, .. } => {
            assert_eq!(turn, set.o);
            assert!(try_every_line(&opened, &set, &set.o, &set.x) > 0);
        }
        other => panic!("the opening ended the game: {:?}", other),
    }
}

#[test]
fn picked_move_is_worth_the_most() {
    let set = computers();
    for text in ["X--\n---\n---", "XO-\n---\n---", "X-O\n-O-\nX--", "-XO\nO--\nX-X"] {
        let b = board(text);
        let marks = 9 - b.get_empty_squares().len();
        let turn = if marks % 2 == 0 { set.x } else { set.o };
        let value_of = |pos: &(usize, usize)| {
            let mut after = b;
            after.squares[pos.0][pos.1] = turn.associated_square();
            minimax(&turn, &turn, &set, &after, &0)
        };
        let best = b.get_empty_squares().iter().map(value_of).max().unwrap();
        let picked = match computer_move(&turn, &set, &b).unwrap() {
            Game::InPlay { board, .. } | Game::Tie(board) | Game::Win(_, board) => board,
            Game::Uninitiated => panic!("a move gives a game"),
        };
        let first = b.get_empty_squares().into_iter().find(|pos| value_of(pos) == best).unwrap();
        let mut expected = b;
        expected.squares[first.0][first.1] = turn.associated_square();
        assert_eq!(picked, expected);
    }
}

#[test]
fn winning_square_is_taken() {
    let set = computers();
    let res = computer_move(&set.x, &set, &board("O-X\nO--\nXO-")).unwrap();
    assert_eq!(res, Game::Win(set.x, board("O-X\nOX-\nXO-")));
    let res = computer_move(&set.x, &set, &board("-XO\nOO-\nX-X")).unwrap();
    assert_eq!(res, Game::Win(set.x, board("-XO\nOO-\nXXX")));
}

#[test]
fn threat_is_blocked() {
    let set = computers();
    let res = computer_move(&set.o, &set, &board("-XO\nO--\nX-X")).unwrap();
    assert_eq!(res, Game::InPlay { set, turn: set.x, board: board("-XO\nO--\nXOX") });
}

#[test]
fn own_line_comes_before_a_block() {
    let set = computers();
    let res = computer_move(&set.o, &set, &board("-XO\nOO-\nX-X")).unwrap();
    assert_eq!(res, Game::Win(set.o, board("-XO\nOOO\nX-X")));
}

#[test]
fn empty_board_is_opened_in_the_first_square() {
    let set = computers();
    let res = computer_move(&set.x, &set, &Board::default()).unwrap();
    assert_eq!(res, Game::InPlay { set, turn: set.o, board: board("X--\n---\n---") });
    let res = computer_move(&set.o, &set, &Board::default()).unwrap();
    assert_eq!(res, Game::InPlay { set, turn: set.x, board: board("O--\n---\n---") });
}

#[test]
fn full_board_has_no_move() {
    let set = computers();
    assert!(matches!(computer_move(&set.x, &set, &board("XOX\nOOX\nXXO")), Err(MoveError)));
    assert!(matches!(computer_move(&set.o, &set, &board("XXX\nOOX\nXOO")), Err(MoveError)));
}

#[test]
fn last_square_is_taken_and_ties() {
    let set = computers();
    let res = computer_move(&set.x, &set, &board("-OX\nOOX\nXXO")).unwrap();
    assert_eq!(res, Game::Tie(board("XOX\nOOX\nXXO")));
}

#[test]
fn first_of_equal_moves_is_kept() {
    let set = computers();
    // After a centre opening the corners tie and the edges lose: the first
    // corner is taken.
    let res = computer_move(&set.o, &set, &board("---\n-X-\n---")).unwrap();
    assert_eq!(res, Game::InPlay { set, turn: set.x, board: board("O--\n-X-\n---") });
    // Both empty squares tie: the first is taken.
    let res = computer_move(&set.o, &set, &board("X-O\nOXX\nX-O")).unwrap();
    assert_eq!(res, Game::InPlay { set, turn: set.x, board: board("XOO\nOXX\nX-O") });
}

#[test]
fn later_better_move_replaces_an_earlier_one() {
    let set = computers();
    // The first empty square loses; the second blocks the first column.
    let res = computer_move(&set.o, &set, &board("X-O\n-O-\nX--")).unwrap();
    assert_eq!(res, Game::InPlay { set, turn: set.x, board: board("X-O\nOO-\nX--") });
}

#[test]
fn forced_win_ends_the_scan() {
    let set = computers();
    // The first empty square ties; the second wins by force and is taken,
    // though later squares win as well.
    let res = computer_move(&set.x, &set, &board("XO-\n---\n---")).unwrap();
    assert_eq!(res, Game::InPlay { set, turn: set.o, board: board("XO-\nX--\n---") });
}

#[test]
fn values_of_finished_positions() {
    let set = computers();
    assert_eq!(minimax(&set.x, &set.x, &set, &board("XOX\nOOX\nXXO"), &0), 0);
    assert_eq!(minimax(&set.x, &set.x, &set, &board("XXX\nOO-\n---"), &0), 1);
    assert_eq!(minimax(&set.x, &set.o, &set, &board("XXX\nOO-\n---"), &0), -1);
    assert_eq!(minimax(&set.o, &set.o, &set, &board("OOO\nXX-\nX--"), &3), 1);
    assert_eq!(minimax(&set.o, &set.x, &set, &board("OOO\nXX-\nX--"), &3), -1);
    // A full board with a line of the other mark only: nothing is left to try.
    assert_eq!(minimax(&set.x, &set.x, &set, &board("OOO\nXXO\nXOX"), &0), 0);
}

#[test]
fn values_of_open_positions() {
    let set = computers();
    // X has moved; O to move can take the middle row at once.
    assert_eq!(minimax(&set.x, &set.x, &set, &board("-XO\nOO-\nXXX"), &0), 1);
    assert_eq!(minimax(&set.x, &set.x, &set, &board("XXO\nOO-\nX-X"), &0), -1);
    assert_eq!(minimax(&set.x, &set.o, &set, &board("XXO\nOO-\nX-X"), &0), 1);
    // One square left, which ties.
    assert_eq!(minimax(&set.o, &set.x, &set, &board("-OX\nOOX\nXXO"), &0), 0);
    // After the opening every line of play can be held to a tie.
    assert_eq!(minimax(&set.x, &set.x, &set, &board("X--\n---\n---"), &0), 0);
    assert_eq!(minimax(&set.x, &set.o, &set, &board("X--\n---\n---"), &0), 0);
}

#[test]
fn value_does_not_depend_on_depth() {
    let set = computers();
    let b = board("O-X\nOX-\nXO-");
    assert_eq!(minimax(&set.x, &set.x, &set, &b, &0), minimax(&set.x, &set.x, &set, &b, &5));
}

#[test]
fn indent_of_a_trace() {
    assert_eq!(spacer(&0), "");
    assert_eq!(spacer(&1), "  ");
    assert_eq!(spacer(&3), "      ");
}
