use tic_tac_toe::board::{Board, XPos, YPos};
use tic_tac_toe::game::{is_tie, is_win, make_move, Game, Player, PlayerSet, PlayerType};
use tic_tac_toe::search::{computer_move, minimax};

fn build_from_string(text: &str) -> Board {
    Board::from_str(text).unwrap()
}

fn player_x() -> &'static Player {
    &Player::X(PlayerType::Human)
}

fn player_o() -> &'static Player {
    &Player::O(PlayerType::Human)
}

fn player_set() -> &'static PlayerSet {
    &PlayerSet { x: Player::X(PlayerType::Human), o: Player::O(PlayerType::Human) }
}

#[test]
fn test_make_move() {
    let almost_win_board = &build_from_string(x_almost_win_build_string());
    let winning_move = &(XPos::C, YPos::_2);
    let win_game_result = make_move(winning_move, almost_win_board, player_x(), player_set());

    let assert_board = build_from_string(x_win_build_string());
    let assert_game = Game::Win(*player_x(), assert_board);

    assert!(win_game_result.is_ok());
    assert_eq!(win_game_result.unwrap(), assert_game);

    let almost_tie_board = build_from_string(almost_tie_build_string());
    let tie_move = &(XPos::A, YPos::_1);
    let tie_game_result = make_move(tie_move, &almost_tie_board, player_x(), player_set());

    let assert_board = build_from_string(tie_build_string());
    let assert_game = Game::Tie(assert_board);

    assert!(tie_game_result.is_ok());
    assert_eq!(tie_game_result.unwrap(), assert_game);

    let empty_board = build_from_string(empty_build_string());
    let x_move = &(XPos::A, YPos::_1);
    let move_result = make_move(x_move, &empty_board, player_x(), player_set());

    let assert_board = build_from_string(one_move_build_string());
    let assert_game = Game::InPlay { set: *player_set(), turn: *player_o(), board: assert_board };

    assert!(move_result.is_ok());
    assert_eq!(move_result.unwrap(), assert_game);
}

#[test]
fn test_get_x_positions() {
    let test_board = build_from_string(x_win_build_string());
    let x_pos = test_board.get_positions_for(player_x());
    assert!(!x_pos.is_empty());

    assert!(x_pos.contains(&(XPos::A, YPos::_1)));
    assert!(x_pos.contains(&(XPos::C, YPos::_1)));
    assert!(x_pos.contains(&(XPos::C, YPos::_2)));
    assert!(x_pos.contains(&(XPos::C, YPos::_3)));
    assert_eq!(x_pos.len(), 4);
}

#[test]
fn test_get_empty() {
    let test_board = build_from_string(x_win_build_string());
    let empty_pos = test_board.get_empty_squares();
    assert!(!empty_pos.is_empty());

    assert!(empty_pos.contains(&(XPos::A, YPos::_2)));
    assert!(empty_pos.contains(&(XPos::B, YPos::_3)));

    assert_eq!(empty_pos.len(), 2);
}

#[test]
fn test_win() {
    let board = build_from_string(empty_build_string());
    let empty_win = is_win(player_o(), &board);
    assert!(!empty_win);

    let board = build_from_string(tie_build_string());
    let tie_win = is_win(player_o(), &board);
    assert!(!tie_win);

    let board = build_from_string(l_diag_win_string());
    let o_d_win = is_win(player_o(), &board);
    assert!(o_d_win);
    let x_d_win = is_win(player_x(), &board);
    assert!(!x_d_win);
}

#[test]
fn test_is_tie() {
    let board = build_from_string(tie_build_string());
    let tie = is_tie(&board);
    assert!(tie);

    let board = build_from_string(x_win_build_string());
    let tie = is_tie(&board);
    assert!(!tie);

    let board = build_from_string(empty_build_string());
    let tie = is_tie(&board);
    assert!(!tie);
}

#[test]
fn test_min_max() {
    let set = &PlayerSet { x: Player::X(PlayerType::Computer), o: Player::O(PlayerType::Computer) };
    let board = build_from_string(x_minmax_setup_str());

    let mut winning_pos: Option<(usize, usize)> = Option::None;
    let open_pos = board.get_empty_squares();

    for pos in open_pos {
        println!("**** search for pos: {:?}", pos);
        let mut copy_board = board.clone();
        copy_board.squares[pos.0][pos.1] = set.x.associated_square();
        let score = minimax(&set.x, &set.x, set, &copy_board, &0);
        println!("**** score {} for pos: {:?}", score, pos);
        if score == 1 {
            winning_pos = Option::Some(pos);
            break;
        }
    }

    assert!(winning_pos.is_some());
    assert_eq!(winning_pos.unwrap(), (XPos::B, YPos::_2));
}

#[test]
fn test_computer_move_defend() {
    let set = &PlayerSet { x: Player::X(PlayerType::Computer), o: Player::O(PlayerType::Computer) };
    let board = build_from_string(o_defend_setup_str());

    let result = computer_move(&set.o, set, &board);
    assert!(result.is_ok());
    let res_game = result.unwrap();

    let exp_board = build_from_string(o_defend_exp_str());
    let exp_game = Game::InPlay { set: *set, turn: set.x, board: exp_board };

    assert_eq!(res_game, exp_game);
}

#[test]
fn test_computer_move_win() {
    let set = &PlayerSet { x: Player::X(PlayerType::Computer), o: Player::O(PlayerType::Computer) };
    let board = build_from_string(x_win_setup_str());
    let result = computer_move(&set.x, set, &board);
    assert!(result.is_ok());
    let res_game = result.unwrap();

    let exp_board = build_from_string(x_win_exp_str());
    let exp_game = Game::Win(set.x, exp_board);

    assert_eq!(res_game, exp_game)
}

fn empty_build_string() -> &'static str {
    "---\n---\n---"
}

fn one_move_build_string() -> &'static str {
    "X--\n---\n---"
}

fn almost_tie_build_string() -> &'static str {
    "-OX\nOOX\nXXO"
}

fn tie_build_string() -> &'static str {
    "XOX\nOOX\nXXO"
}

fn x_almost_win_build_string() -> &'static str {
    "X-O\nOO-\nX-X"
}

fn x_win_build_string() -> &'static str {
    "X-O\nOO-\nXXX"
}

fn l_diag_win_string() -> &'static str {
    "O-O\nXOX\nXXO"
}

fn x_minmax_setup_str() -> &'static str {
    "O-X\nO--\nXO-"
}

fn o_defend_setup_str() -> &'static str {
    "-XO\nO--\nX-X"
}

fn o_defend_exp_str() -> &'static str {
    "-XO\nO--\nXOX"
}

fn x_win_setup_str() -> &'static str {
    "-XO\nOO-\nX-X"
}

fn x_win_exp_str() -> &'static str {
    "-XO\nOO-\nXXX"
}
