use tic_tac_toe::board::{Board, Square, XPos, YPos};
use tic_tac_toe::game::{
    is_tie, is_win, make_move, new_game, pretty_lines, Game, MoveError, PlacementError, Player,
    PlayerSet, PlayerType,
};

fn board(text: &str) -> Board {
    Board::from_str(text).unwrap()
}

fn x() -> Player {
    Player::X(PlayerType::Human)
}

fn o() -> Player {
    Player::O(PlayerType::Computer)
}

fn players() -> PlayerSet {
    PlayerSet { x: x(), o: o() }
}

#[test]
fn every_row_is_a_win() {
    assert!(is_win(&x(), &board("XXX\n-O-\nO--")));
    assert!(is_win(&x(), &board("O--\nXXX\n-O-")));
    assert!(is_win(&x(), &board("O--\n-O-\nXXX")));
    assert!(is_win(&o(), &board("OOO\n-X-\nX--")));
    assert!(!is_win(&o(), &board("XXX\n-O-\nO--")));
}

#[test]
fn every_column_is_a_win() {
    assert!(is_win(&o(), &board("OX-\nO-X\nO--")));
    assert!(is_win(&o(), &board("XO-\n-OX\n-O-")));
    assert!(is_win(&o(), &board("X-O\n-XO\n--O")));
    assert!(is_win(&x(), &board("X-O\nXO-\nX--")));
    assert!(!is_win(&x(), &board("OX-\nO-X\nO--")));
}

#[test]
fn both_diagonals_are_wins() {
    assert!(is_win(&x(), &board("X-O\n-XO\n--X")));
    assert!(is_win(&x(), &board("O-X\nOX-\nX--")));
    assert!(is_win(&o(), &board("O-X\n-OX\n--O")));
    assert!(is_win(&o(), &board("X-O\nXO-\nO--")));
}

#[test]
fn two_in_a_line_is_no_win() {
    assert!(!is_win(&x(), &board("XX-\n---\n---")));
    assert!(!is_win(&x(), &board("X--\n-X-\n---")));
    assert!(!is_win(&x(), &board("XXO\nOOX\nXOX")));
    assert!(!is_win(&o(), &board("XXO\nOOX\nXOX")));
    assert!(!is_win(&x(), &board("---\n---\n---")));
}

#[test]
fn a_win_does_not_depend_on_who_decides_the_moves() {
    let b = board("XXX\n-O-\nO--");
    assert!(is_win(&Player::X(PlayerType::Human), &b));
    assert!(is_win(&Player::X(PlayerType::Computer), &b));
}

#[test]
fn tie_needs_a_full_board_without_a_line() {
    let full = board("XOX\nOOX\nXXO");
    assert!(full.get_empty_squares().is_empty());
    assert!(!is_win(&x(), &full));
    assert!(!is_win(&o(), &full));
    assert!(is_tie(&full));

    let full_with_line = board("XXX\nOOX\nXOO");
    assert!(full_with_line.get_empty_squares().is_empty());
    assert!(!is_tie(&full_with_line));

    let open = board("XOX\nOOX\nXX-");
    assert!(!is_tie(&open));
}

#[test]
fn occupied_square_is_refused_and_the_board_stays() {
    let before = board("X-O\nOO-\nX-X");
    let kept = before;
    for pos in [(0, 0), (0, 2), (1, 0), (1, 1), (2, 0), (2, 2)] {
        let res = make_move(&pos, &before, &x(), &players());
        assert!(matches!(res, Err(PlacementError)));
        let res = make_move(&pos, &before, &o(), &players());
        assert!(matches!(res, Err(PlacementError)));
    }
    assert_eq!(before, kept);
}

#[test]
fn a_move_leaves_the_given_board_as_it_was() {
    let before = board("X-O\nOO-\nX-X");
    let kept = before;
    let res = make_move(&(2, 1), &before, &x(), &players());
    assert!(res.is_ok());
    assert_eq!(before, kept);
}

#[test]
fn winning_move_ends_the_game() {
    let res = make_move(&(XPos::C, YPos::_2), &board("X-O\nOO-\nX-X"), &x(), &players());
    assert_eq!(res.unwrap(), Game::Win(x(), board("X-O\nOO-\nXXX")));
}

#[test]
fn last_move_without_a_line_ties() {
    let res = make_move(&(0, 0), &board("-OX\nOOX\nXXO"), &x(), &players());
    assert_eq!(res.unwrap(), Game::Tie(board("XOX\nOOX\nXXO")));
}

#[test]
fn last_move_with_a_line_wins() {
    let res = make_move(&(0, 0), &board("-XX\nOXO\nXOO"), &x(), &players());
    assert_eq!(res.unwrap(), Game::Win(x(), board("XXX\nOXO\nXOO")));
}

#[test]
fn first_move_hands_the_turn_over() {
    let res = make_move(&(0, 0), &board("---\n---\n---"), &x(), &players());
    assert_eq!(
        res.unwrap(),
        Game::InPlay { set: players(), turn: o(), board: board("X--\n---\n---") }
    );
    let res = make_move(&(1, 1), &board("X--\n---\n---"), &o(), &players());
    assert_eq!(
        res.unwrap(),
        Game::InPlay { set: players(), turn: x(), board: board("X--\n-O-\n---") }
    );
}

#[test]
fn new_game_starts_empty_with_x_to_move() {
    let game = new_game(&players());
    assert_eq!(game, Game::InPlay { set: players(), turn: x(), board: Board::default() });
    assert_eq!(Board::default(), board("---\n---\n---"));
}

#[test]
fn empty_squares_come_row_by_row() {
    let b = board("X-O\n-O-\n--X");
    assert_eq!(b.get_empty_squares(), vec![(0, 1), (1, 0), (1, 2), (2, 0), (2, 1)]);
    assert_eq!(b.get_positions_for(&x()), vec![(0, 0), (2, 2)]);
    assert_eq!(b.get_positions_for(&o()), vec![(0, 2), (1, 1)]);
    assert_eq!(Board::default().get_empty_squares().len(), 9);
    assert!(board("XOX\nOOX\nXXO").get_empty_squares().is_empty());
}

#[test]
fn players_and_their_marks() {
    assert_eq!(x().associated_square(), Square::X);
    assert_eq!(o().associated_square(), Square::O);
    assert_eq!(*x().player_type(), PlayerType::Human);
    assert_eq!(*o().player_type(), PlayerType::Computer);
    assert_eq!(x().to_string(), Square::X.to_string());
    assert_eq!(o().to_string(), Square::O.to_string());
    assert_eq!(players().opposite_player(&x()), o());
    assert_eq!(players().opposite_player(&o()), x());
    assert_eq!(players().opposite_player(&Player::X(PlayerType::Computer)), o());
    assert_ne!(Player::X(PlayerType::Human), Player::X(PlayerType::Computer));
}

#[test]
fn row_letters() {
    assert_eq!(XPos::letter_from(XPos::A), "A");
    assert_eq!(XPos::letter_from(XPos::B), "B");
    assert_eq!(XPos::letter_from(XPos::C), "C");
    assert_eq!(XPos::letter_from(17), "C");
}

#[test]
fn error_messages() {
    assert_eq!(MoveError.to_string(), "no moves.  something is wrong");
    assert_eq!(PlacementError.to_string(), "cell already occupied");
}

#[test]
fn lines_of_a_board() {
    let b = board("X-O\nOO-\nX-X");
    let sx = Square::X.to_string();
    let so = Square::O.to_string();
    let se = Square::Empty.to_string();
    let lines = b.pretty_lines();
    assert_eq!(lines.len(), 4);
    assert_eq!(lines[0], format!("A {}{}{}", sx, se, so));
    assert_eq!(lines[1], format!("B {}{}{}", so, so, se));
    assert_eq!(lines[2], format!("C {}{}{}", sx, se, sx));
    assert!(lines[3].starts_with("  1"));
    assert_eq!(lines[3].chars().filter(|c| c.is_ascii_digit()).count(), 3);
    assert_eq!(pretty_lines(&Game::Tie(b)), lines);
    assert_eq!(pretty_lines(&Game::Win(x(), b)), lines);
    assert_eq!(pretty_lines(&Game::InPlay { set: players(), turn: x(), board: b }), lines);
    assert_eq!(pretty_lines(&Game::Uninitiated), vec!["uniniated".to_string()]);
}
