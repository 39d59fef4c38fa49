//! A session of play as a state machine: setting a game up from a menu
//! choice, taking a move that a player typed, and deciding what a game needs
//! next. Reading and printing are the caller's; every step here is a
//! function of the game and of one value handed in.

use vstd::prelude::*;
use crate::board::{
    board_of, empty_cells, lemma_board_of_view, on_board, Board, Square, XPos, YPos,
};
use crate::game::{
    lemma_game_after_wf, make_move, moved, new_game, placed, Game, MoveError, Player, PlayerSet,
    PlayerType,
};
use crate::search::{
    best_move, computer_move, empty_count, lemma_best_move_legal, lemma_placing_fills, searched,
};

verus! {

/// Why a typed move was refused.
#[derive(Clone, Copy, PartialEq, Eq, Structural, Debug)]
pub enum InputError {
    /// The text does not begin with a row letter, `A` to `C`.
    Letter,
    /// The row letter is not followed by one column digit, `1` to `3`, and
    /// nothing else.
    Number,
    /// The square named already holds a mark.
    Occupied,
}

/// What a game needs next.
#[derive(PartialEq, Debug)]
pub enum Step {
    /// Nothing: the game is won, tied or was never set up.
    Done(Game),
    /// A move typed by the human player whose turn it is.
    Ask { set: PlayerSet, turn: Player, board: Board },
    /// To go on from this game, which the computer has just moved into.
    Moved(Game),
}

/// The players that a menu choice stands for: with one, a human plays `X`
/// against the computer; with two, two humans play; with three, the
/// computer plays `X` against a human.
pub open spec fn players_for(option: i32) -> Option<PlayerSet> {
    if option == 1 {
        Some(PlayerSet { x: Player::X(PlayerType::Human), o: Player::O(PlayerType::Computer) })
    } else if option == 2 {
        Some(PlayerSet { x: Player::X(PlayerType::Human), o: Player::O(PlayerType::Human) })
    } else if option == 3 {
        Some(PlayerSet { x: Player::X(PlayerType::Computer), o: Player::O(PlayerType::Human) })
    } else {
        None
    }
}

/// The game that a menu choice sets up: a fresh game for the players that
/// the choice stands for, and no game where it stands for none.
pub open spec fn initiated(option: i32) -> Game {
    match players_for(option) {
        Some(set) => Game::InPlay { set, turn: set.x, board: board_of(empty_cells()) },
        None => Game::Uninitiated,
    }
}

/// Sets a game up from a menu choice.
pub fn init_game(option: i32) -> (game: Game)
    ensures
        game == initiated(option),
{
    let mut x_type = PlayerType::Human;
    let mut o_type = PlayerType::Human;

    match option {
        1 => {
            o_type = PlayerType::Computer;
        },
        2 => {},
        3 => {
            x_type = PlayerType::Computer;
        },
        _ => {
            return Game::Uninitiated;
        },
    }

    let player_set = PlayerSet { x: Player::X(x_type), o: Player::O(o_type) };
    new_game(&player_set)
}

/// The row that a letter names, in either case.
pub open spec fn row_of(c: char) -> Option<usize> {
    if c == 'A' || c == 'a' {
        Some(0usize)
    } else if c == 'B' || c == 'b' {
        Some(1usize)
    } else if c == 'C' || c == 'c' {
        Some(2usize)
    } else {
        None
    }
}

/// The column that a digit names.
pub open spec fn col_of(c: char) -> Option<usize> {
    if c == '1' {
        Some(0usize)
    } else if c == '2' {
        Some(1usize)
    } else if c == '3' {
        Some(2usize)
    } else {
        None
    }
}

/// The square that a typed move names: the text is a row letter and then a
/// column digit, two characters in all.
pub open spec fn parsed_position(token: Seq<char>) -> Result<(usize, usize), InputError> {
    if token.len() == 0 || row_of(token[0]) is None {
        Err(InputError::Letter)
    } else if token.len() != 2 || col_of(token[1]) is None {
        Err(InputError::Number)
    } else {
        Ok((row_of(token[0]).unwrap(), col_of(token[1]).unwrap()))
    }
}

fn row_from(c: char) -> (row: Option<usize>)
    ensures
        row == row_of(c),
{
    if c == 'A' || c == 'a' {
        Some(XPos::A)
    } else if c == 'B' || c == 'b' {
        Some(XPos::B)
    } else if c == 'C' || c == 'c' {
        Some(XPos::C)
    } else {
        None
    }
}

fn col_from(c: char) -> (col: Option<usize>)
    ensures
        col == col_of(c),
{
    if c == '1' {
        Some(YPos::_1)
    } else if c == '2' {
        Some(YPos::_2)
    } else if c == '3' {
        Some(YPos::_3)
    } else {
        None
    }
}

/// Reads the square that a typed move names.
pub fn parse_position(token: &str) -> (res: Result<(usize, usize), InputError>)
    ensures
        res == parsed_position(token@),
        res matches Ok(pos) ==> on_board(pos),
{
    let len = token.unicode_len();
    if len == 0 {
        return Err(InputError::Letter);
    }
    let x_pos = match row_from(token.get_char(0)) {
        Some(x) => x,
        None => {
            return Err(InputError::Letter);
        },
    };
    if len != 2 {
        return Err(InputError::Number);
    }
    let y_pos = match col_from(token.get_char(1)) {
        Some(y) => y,
        None => {
            return Err(InputError::Number);
        },
    };
    Ok((x_pos, y_pos))
}

/// What a typed move gives: the state that follows the move where the text
/// names an empty square, and else the reason why it was refused.
pub open spec fn entered(
    token: Seq<char>,
    cells: Seq<Square>,
    turn: Player,
    set: PlayerSet,
) -> Result<Game, InputError> {
    match parsed_position(token) {
        Err(e) => Err(e),
        Ok(pos) => match moved(cells, pos, turn, set) {
            Ok(game) => Ok(game),
            Err(_) => Err(InputError::Occupied),
        },
    }
}

/// Takes the move that `turn` typed on `board`.
pub fn player_input(token: &str, set: &PlayerSet, turn: &Player, board: &Board) -> (res: Result<
    Game,
    InputError,
>)
    ensures
        res == entered(token@, board@, *turn, *set),
{
    let pos = match parse_position(token) {
        Ok(pos) => pos,
        Err(e) => {
            return Err(e);
        },
    };
    match make_move(&pos, board, turn, set) {
        Ok(result_game) => Ok(result_game),
        Err(_) => Err(InputError::Occupied),
    }
}

/// What `game` needs next: nothing where it is not in play; a typed move
/// where a human is to move; and where the computer is to move, to go on
/// from the state that its move gives.
pub open spec fn stepped(game: Game) -> Result<Step, MoveError> {
    match game {
        Game::InPlay { set, turn, board } => if turn.kind() == PlayerType::Human {
            Ok(Step::Ask { set, turn, board })
        } else {
            match searched(board@, turn, set) {
                Ok(next) => Ok(Step::Moved(next)),
                Err(e) => Err(e),
            }
        },
        _ => Ok(Step::Done(game)),
    }
}

/// Decides what `game` needs next, and makes the computer's move where it
/// is the computer's turn. Fails where the computer is to move and no
/// square is empty.
pub fn play_step(game: Game) -> (res: Result<Step, MoveError>)
    ensures
        res == stepped(game),
{
    match game {
        Game::InPlay { set, turn, board } => {
            match turn.player_type() {
                PlayerType::Human => Ok(Step::Ask { set, turn, board }),
                PlayerType::Computer => {
                    match computer_move(&turn, &set, &board) {
                        Ok(updated_game) => Ok(Step::Moved(updated_game)),
                        Err(error) => Err(error),
                    }
                },
            }
        },
        other => Ok(Step::Done(other)),
    }
}

/// A game that is won or tied needs nothing more: no step leads on from it.
pub proof fn lemma_finished_game_stays(game: Game)
    requires
        game is Tie || game is Win,
    ensures
        stepped(game) == Ok::<Step, MoveError>(Step::Done(game)),
{
}

/// Every menu choice that sets a game up gives a session with one player
/// for each mark, in which at least one player is human.
pub proof fn lemma_initiated_wf(option: i32)
    ensures
        initiated(option).wf(),
        initiated(option) is InPlay <==> 1 <= option <= 3,
        players_for(option) matches Some(set) ==> set.wf() && (set.x.kind() == PlayerType::Human
            || set.o.kind() == PlayerType::Human),
{
}

/// The computer's move in a game of which `wf` holds gives a game of which
/// it holds, with one empty square fewer.
pub proof fn lemma_step_keeps_wf(game: Game)
    requires
        game.wf(),
    ensures
        stepped(game) matches Ok(Step::Moved(next)) ==> next.wf() && empty_count(next.cells()) + 1
            == empty_count(game.cells()),
{
    if let Game::InPlay { set, turn, board } = game {
        if turn.kind() == PlayerType::Computer && empty_count(board@) > 0 {
            let pos = best_move(board@, turn, set);
            let after = placed(board@, pos, turn.mark());
            lemma_best_move_legal(board@, turn, set);
            lemma_placing_fills(board@, pos, turn.mark());
            lemma_game_after_wf(after, turn, set);
            lemma_board_of_view(after);
        }
    }
}

} // verus!
