//! The exhaustive search that values a position and picks the computer's move.

use vstd::prelude::*;
use crate::board::{
    cell_index, cells_holding, cells_holding_below, lemma_board_of_self,
    lemma_cells_holding_contains, lemma_cells_holding_step, on_board, Board, Square, XPos, YPos,
};
use crate::game::{
    game_after, has_line, is_tie, is_win, placed, settle, tied, Game, MoveError, Player, PlayerSet,
};

verus! {

/// How many squares are empty.
pub open spec fn empty_count(cells: Seq<Square>) -> nat {
    cells_holding(cells, Square::Empty).len()
}

/// Among the first `n` squares no more than `n` hold `sq`; all of them do
/// exactly when `n` are listed, and none does exactly when none is listed.
pub proof fn lemma_holding_len(cells: Seq<Square>, sq: Square, n: int)
    requires
        0 <= n <= 9,
    ensures
        cells_holding_below(cells, sq, n).len() <= n,
        cells_holding_below(cells, sq, n).len() == n <==> forall|k: int|
            0 <= k < n ==> cells[k] == sq,
        cells_holding_below(cells, sq, n).len() == 0 <==> forall|k: int|
            0 <= k < n ==> cells[k] != sq,
    decreases n,
{
    if n == 0 {
        lemma_cells_holding_step(cells, sq, 0);
    } else {
        lemma_holding_len(cells, sq, n - 1);
        lemma_cells_holding_step(cells, sq, n - 1);
    }
}

/// Writing a mark on an empty square leaves one empty square fewer.
pub proof fn lemma_placing_fills(cells: Seq<Square>, pos: (usize, usize), sq: Square)
    requires
        cells.len() == 9,
        on_board(pos),
        cells[cell_index(pos)] == Square::Empty,
        sq != Square::Empty,
    ensures
        empty_count(placed(cells, pos, sq)) + 1 == empty_count(cells),
{
    lemma_placing_fills_below(cells, pos, sq, 9);
    lemma_cells_holding_step(cells, Square::Empty, 0);
    lemma_cells_holding_step(placed(cells, pos, sq), Square::Empty, 0);
}

proof fn lemma_placing_fills_below(cells: Seq<Square>, pos: (usize, usize), sq: Square, n: int)
    requires
        cells.len() == 9,
        on_board(pos),
        cells[cell_index(pos)] == Square::Empty,
        sq != Square::Empty,
        0 <= n <= 9,
    ensures
        cells_holding_below(placed(cells, pos, sq), Square::Empty, n).len() + (if cell_index(pos)
            < n {
            1int
        } else {
            0int
        }) == cells_holding_below(cells, Square::Empty, n).len(),
    decreases n,
{
    let after = placed(cells, pos, sq);
    if n == 0 {
        lemma_cells_holding_step(cells, Square::Empty, 0);
        lemma_cells_holding_step(after, Square::Empty, 0);
    } else {
        lemma_placing_fills_below(cells, pos, sq, n - 1);
        lemma_cells_holding_step(cells, Square::Empty, n - 1);
        lemma_cells_holding_step(after, Square::Empty, n - 1);
    }
}

/// What the position `cells`, which `turn` has just moved into, is worth to
/// `maximizing`: zero for a tie, one or minus one for a line of `turn`'s mark
/// according to whether `turn` is `maximizing`, and else the best that the
/// next player can reach, who takes the highest value if it is `maximizing`
/// and the lowest if it is not.
pub open spec fn position_value(
    cells: Seq<Square>,
    turn: Player,
    maximizing: Player,
    set: PlayerSet,
) -> int
    decreases empty_count(cells), 2int,
{
    if tied(cells) {
        0
    } else if has_line(cells, turn.mark()) {
        if turn == maximizing {
            1
        } else {
            -1
        }
    } else {
        let next = set.other(turn);
        let scores = move_values(cells, next, maximizing, set);
        if scores.len() == 0 {
            0
        } else if next == maximizing {
            scores.max()
        } else {
            scores.min()
        }
    }
}

/// The values of the positions that `mover` can move into, one for each
/// empty square in row-major order.
pub open spec fn move_values(
    cells: Seq<Square>,
    mover: Player,
    maximizing: Player,
    set: PlayerSet,
) -> Seq<int>
    decreases empty_count(cells), 1int,
{
    cells_holding(cells, Square::Empty).map_values(
        |pos: (usize, usize)| move_value(cells, pos, mover, maximizing, set),
    )
}

/// The value of the position that `mover` moves into by marking the empty
/// square at `pos`.
pub open spec fn move_value(
    cells: Seq<Square>,
    pos: (usize, usize),
    mover: Player,
    maximizing: Player,
    set: PlayerSet,
) -> int
    decreases empty_count(cells), 0int,
{
    if cells.len() == 9 && on_board(pos) && cells[cell_index(pos)] == Square::Empty {
        proof {
            lemma_placing_fills(cells, pos, mover.mark());
        }
        position_value(placed(cells, pos, mover.mark()), mover, maximizing, set)
    } else {
        0
    }
}

/// Every listed empty square is on the board and empty.
pub proof fn lemma_empty_listed(cells: Seq<Square>, i: int)
    requires
        0 <= i < empty_count(cells),
    ensures
        on_board(cells_holding(cells, Square::Empty)[i]),
        cells[cell_index(cells_holding(cells, Square::Empty)[i])] == Square::Empty,
{
    let empties = cells_holding(cells, Square::Empty);
    assert(empties.contains(empties[i]));
    lemma_cells_holding_contains(cells, Square::Empty, empties[i]);
}

/// A position is worth minus one, zero or one.
pub proof fn lemma_value_bounds(
    cells: Seq<Square>,
    turn: Player,
    maximizing: Player,
    set: PlayerSet,
)
    ensures
        -1 <= position_value(cells, turn, maximizing, set) <= 1,
    decreases empty_count(cells), 1int,
{
    if !tied(cells) && !has_line(cells, turn.mark()) {
        let next = set.other(turn);
        let scores = move_values(cells, next, maximizing, set);
        lemma_move_bounds(cells, next, maximizing, set);
        if scores.len() > 0 {
            scores.max_ensures();
            scores.min_ensures();
            let hi = choose|i: int| 0 <= i < scores.len() && scores[i] == scores.max();
            let lo = choose|i: int| 0 <= i < scores.len() && scores[i] == scores.min();
            assert(-1 <= scores[hi] <= 1);
            assert(-1 <= scores[lo] <= 1);
        }
    }
}

/// Every move is worth minus one, zero or one.
pub proof fn lemma_move_bounds(
    cells: Seq<Square>,
    mover: Player,
    maximizing: Player,
    set: PlayerSet,
)
    ensures
        move_values(cells, mover, maximizing, set).len() == empty_count(cells),
        forall|i: int|
            0 <= i < empty_count(cells) ==> -1 <= #[trigger] move_values(
                cells,
                mover,
                maximizing,
                set,
            )[i] <= 1,
    decreases empty_count(cells), 0int,
{
    let empties = cells_holding(cells, Square::Empty);
    let scores = move_values(cells, mover, maximizing, set);
    assert forall|i: int| 0 <= i < empty_count(cells) implies -1 <= #[trigger] scores[i] <= 1 by {
        let pos = empties[i];
        assert(scores[i] == move_value(cells, pos, mover, maximizing, set));
        if cells.len() == 9 && on_board(pos) && cells[cell_index(pos)] == Square::Empty {
            lemma_placing_fills(cells, pos, mover.mark());
            lemma_value_bounds(placed(cells, pos, mover.mark()), mover, maximizing, set);
        }
    }
}

/// The highest of `scores`, which are not empty.
fn highest(scores: &Vec<i32>) -> (top: i32)
    requires
        scores.len() > 0,
    ensures
        exists|i: int| 0 <= i < scores.len() && scores[i] == top,
        forall|i: int| 0 <= i < scores.len() ==> scores[i] <= top,
{
    let mut top: i32 = scores[0];
    let mut i: usize = 1;
    while i < scores.len()
        invariant
            1 <= i <= scores.len(),
            exists|j: int| 0 <= j < i && scores[j] == top,
            forall|j: int| 0 <= j < i ==> scores[j] <= top,
        decreases scores.len() - i,
    {
        if scores[i] > top {
            top = scores[i];
        }
        i += 1;
    }
    top
}

/// The lowest of `scores`, which are not empty.
fn lowest(scores: &Vec<i32>) -> (bottom: i32)
    requires
        scores.len() > 0,
    ensures
        exists|i: int| 0 <= i < scores.len() && scores[i] == bottom,
        forall|i: int| 0 <= i < scores.len() ==> bottom <= scores[i],
{
    let mut bottom: i32 = scores[0];
    let mut i: usize = 1;
    while i < scores.len()
        invariant
            1 <= i <= scores.len(),
            exists|j: int| 0 <= j < i && scores[j] == bottom,
            forall|j: int| 0 <= j < i ==> bottom <= scores[j],
        decreases scores.len() - i,
    {
        if scores[i] < bottom {
            bottom = scores[i];
        }
        i += 1;
    }
    bottom
}

/// A value that stands in `scores` and that none of them exceeds is their
/// maximum; one that none of them falls below is their minimum.
pub proof fn lemma_extremes(scores: Seq<int>, v: int)
    requires
        scores.contains(v),
    ensures
        (forall|i: int| 0 <= i < scores.len() ==> scores[i] <= v) ==> scores.max() == v,
        (forall|i: int| 0 <= i < scores.len() ==> v <= scores[i]) ==> scores.min() == v,
{
    scores.max_ensures();
    scores.min_ensures();
    let k = choose|k: int| 0 <= k < scores.len() && scores[k] == v;
    if forall|i: int| 0 <= i < scores.len() ==> scores[i] <= v {
        let hi = choose|i: int| 0 <= i < scores.len() && scores[i] == scores.max();
        assert(scores[hi] <= v);
        assert(scores[k] <= scores.max());
    }
    if forall|i: int| 0 <= i < scores.len() ==> v <= scores[i] {
        let lo = choose|i: int| 0 <= i < scores.len() && scores[i] == scores.min();
        assert(v <= scores[lo]);
        assert(scores.min() <= scores[k]);
    }
}

/// The blanks that indent a line of a trace at `depth`: two for each move
/// made on the way.
pub fn spacer(depth: &usize) -> (indent: String)
    ensures
        indent@ == Seq::new((2 * *depth) as nat, |i: int| ' '),
{
    let mut indent = String::new();
    proof {
        reveal_strlit("  ");
    }
    let mut i: usize = 0;
    while i < *depth
        invariant
            i <= *depth,
            "  "@ == seq![' ', ' '],
            indent@ == Seq::new((2 * i) as nat, |k: int| ' '),
        decreases *depth - i,
    {
        indent.append("  ");
        i += 1;
        assert(indent@ =~= Seq::new((2 * i) as nat, |k: int| ' '));
    }
    indent
}

/// Values the position on `board`, which `turn` has just moved into, for
/// `maximizing_player`, by trying every line of play to its end. `depth`
/// counts the moves tried on the way to this position.
pub fn minimax(
    turn: &Player,
    maximizing_player: &Player,
    set: &PlayerSet,
    board: &Board,
    depth: &usize,
) -> (score: i32)
    requires
        *depth + empty_count(board@) <= usize::MAX,
    ensures
        score == position_value(board@, *turn, *maximizing_player, *set),
        -1 <= score <= 1,
    decreases empty_count(board@),
{
    proof {
        lemma_value_bounds(board@, *turn, *maximizing_player, *set);
    }
    if is_tie(board) {
        return 0;
    }
    if is_win(turn, board) {
        let score: i32 = if *turn == *maximizing_player {
            1
        } else {
            -1
        };
        return score;
    }
    let remaining_positions = board.get_empty_squares();
    let next_turn = set.opposite_player(turn);
    let maximizing = next_turn == *maximizing_player;
    let ghost values = move_values(board@, next_turn, *maximizing_player, *set);
    proof {
        lemma_move_bounds(board@, next_turn, *maximizing_player, *set);
    }

    let mut scores: Vec<i32> = Vec::new();

    let mut i: usize = 0;
    while i < remaining_positions.len()
        invariant
            i <= remaining_positions.len(),
            remaining_positions@ == cells_holding(board@, Square::Empty),
            *depth + empty_count(board@) <= usize::MAX,
            !tied(board@),
            !has_line(board@, turn.mark()),
            next_turn == set.other(*turn),
            maximizing == (next_turn == *maximizing_player),
            values == move_values(board@, next_turn, *maximizing_player, *set),
            values.len() == remaining_positions.len(),
            forall|j: int| 0 <= j < values.len() ==> -1 <= #[trigger] values[j] <= 1,
            scores.len() == i,
            forall|j: int| 0 <= j < i ==> scores[j] == values[j],
        decreases remaining_positions.len() - i,
    {
        let pos = remaining_positions[i];
        proof {
            lemma_empty_listed(board@, i as int);
            lemma_placing_fills(board@, pos, next_turn.mark());
            assert(values[i as int] == move_value(
                board@,
                pos,
                next_turn,
                *maximizing_player,
                *set,
            ));
        }
        let copy_board = board.with_square(&pos, next_turn.associated_square());
        let next_depth = *depth + 1;
        let result = minimax(&next_turn, maximizing_player, set, &copy_board, &next_depth);

        scores.push(result);

        if maximizing {
            if result == 1 {
                proof {
                    assert(values.contains(1)) by {
                        assert(values[i as int] == 1);
                    }
                    lemma_extremes(values, 1);
                }
                return 1;
            }
        } else {
            if result == -1 {
                proof {
                    assert(values.contains(-1)) by {
                        assert(values[i as int] == -1);
                    }
                    lemma_extremes(values, -1);
                }
                return -1;
            }
        }
        i += 1;
    }

    if scores.len() == 0 {
        return 0;
    }
    if maximizing {
        let result = highest(&scores);
        proof {
            let k = choose|k: int| 0 <= k < scores.len() && scores[k] == result;
            assert(values[k] == result);
            lemma_extremes(values, result as int);
        }
        result
    } else {
        let result = lowest(&scores);
        proof {
            let k = choose|k: int| 0 <= k < scores.len() && scores[k] == result;
            assert(values[k] == result);
            lemma_extremes(values, result as int);
        }
        result
    }
}

/// Whether `i` is the first index at which `scores` reach their highest
/// value.
pub open spec fn is_first_best(scores: Seq<int>, i: int) -> bool {
    &&& 0 <= i < scores.len()
    &&& forall|j: int| 0 <= j < scores.len() ==> scores[j] <= scores[i]
    &&& forall|j: int| 0 <= j < i ==> scores[j] < scores[i]
}

/// The first index at which `scores` reach their highest value.
pub open spec fn first_best(scores: Seq<int>) -> int {
    choose|i: int| is_first_best(scores, i)
}

/// No two indices are both the first to reach the highest value.
pub proof fn lemma_first_best_is(scores: Seq<int>, i: int)
    requires
        is_first_best(scores, i),
    ensures
        first_best(scores) == i,
{
    let j = first_best(scores);
    assert(is_first_best(scores, j));
    if j < i {
        assert(scores[j] < scores[i]);
    }
    if i < j {
        assert(scores[i] < scores[j]);
    }
}

/// An index that is the first among the first `n` to reach their highest
/// value.
proof fn first_best_below(scores: Seq<int>, n: int) -> (i: int)
    requires
        0 < n <= scores.len(),
    ensures
        0 <= i < n,
        forall|j: int| 0 <= j < n ==> scores[j] <= scores[i],
        forall|j: int| 0 <= j < i ==> scores[j] < scores[i],
    decreases n,
{
    if n == 1 {
        0
    } else {
        let before = first_best_below(scores, n - 1);
        if scores[n - 1] > scores[before] {
            n - 1
        } else {
            before
        }
    }
}

/// Scores that are not empty reach their highest value at `first_best`
/// first, and that value is their maximum.
pub proof fn lemma_first_best_exists(scores: Seq<int>)
    requires
        scores.len() > 0,
    ensures
        is_first_best(scores, first_best(scores)),
        scores[first_best(scores)] == scores.max(),
{
    let i = first_best_below(scores, scores.len() as int);
    assert(is_first_best(scores, i));
    let best = first_best(scores);
    assert(scores.contains(scores[best]));
    lemma_extremes(scores, scores[best]);
}

/// The square that the search marks for `turn`: on a board with no mark the
/// first square of the first row; else the first empty square, in row-major
/// order, from which the position is worth the most to `turn`.
pub open spec fn best_move(cells: Seq<Square>, turn: Player, set: PlayerSet) -> (usize, usize) {
    let empties = cells_holding(cells, Square::Empty);
    if empties.len() == 9 {
        (0, 0)
    } else {
        empties[first_best(move_values(cells, turn, turn, set))]
    }
}

/// What the search gives for `turn`: the state that follows once its mark
/// stands on the square that `best_move` names, and an error where no square
/// is empty.
pub open spec fn searched(cells: Seq<Square>, turn: Player, set: PlayerSet) -> Result<
    Game,
    MoveError,
> {
    if empty_count(cells) == 0 {
        Err(MoveError)
    } else {
        Ok(game_after(placed(cells, best_move(cells, turn, set), turn.mark()), turn, set))
    }
}

/// Moves for `turn` on a copy of `board`, to the square that `best_move`
/// names, and says how the game stands then. Fails where no square is empty.
pub fn computer_move(turn: &Player, set: &PlayerSet, board: &Board) -> (res: Result<
    Game,
    MoveError,
>)
    ensures
        res == searched(board@, *turn, *set),
{
    let mut chosen_pos: Option<(usize, usize)> = Option::None;
    let mut high_score: i32 = -2;
    let open_pos = board.get_empty_squares();
    let ghost values = move_values(board@, *turn, *turn, *set);
    proof {
        lemma_move_bounds(board@, *turn, *turn, *set);
        lemma_holding_len(board@, Square::Empty, 9);
        lemma_cells_holding_step(board@, Square::Empty, 0);
    }

    if open_pos.len() == 9 {
        let corner = (XPos::A, YPos::_1);
        let copy_board = board.with_square(&corner, turn.associated_square());
        proof {
            lemma_placing_fills(board@, corner, turn.mark());
            lemma_board_of_self(copy_board);
        }
        let game = Game::InPlay { set: *set, turn: set.opposite_player(turn), board: copy_board };
        return Result::Ok(game);
    }
    let ghost mut best: int = 0;
    let mut i: usize = 0;
    while i < open_pos.len()
        invariant_except_break
            chosen_pos is None <==> i == 0,
            i > 0 ==> 0 <= best < i && high_score == values[best],
            forall|j: int| 0 <= j < i ==> values[j] <= values[best],
            forall|j: int| 0 <= j < best ==> values[j] < values[best],
            i == 0 ==> high_score == -2,
            forall|j: int| 0 <= j < i ==> values[j] < 1,
        invariant
            i <= open_pos.len(),
            open_pos@ == cells_holding(board@, Square::Empty),
            values == move_values(board@, *turn, *turn, *set),
            values.len() == open_pos.len(),
            forall|j: int| 0 <= j < values.len() ==> -1 <= #[trigger] values[j] <= 1,
            chosen_pos matches Some(pos) ==> 0 <= best < open_pos.len() && pos == open_pos[best],
        ensures
            open_pos.len() > 0 ==> chosen_pos is Some && is_first_best(values, best),
            open_pos.len() == 0 ==> chosen_pos is None,
        decreases open_pos.len() - i,
    {
        let pos = open_pos[i];
        proof {
            lemma_empty_listed(board@, i as int);
            lemma_placing_fills(board@, pos, turn.mark());
            assert(values[i as int] == move_value(board@, pos, *turn, *turn, *set));
        }
        let copy_board = board.with_square(&pos, turn.associated_square());
        let score = minimax(turn, turn, set, &copy_board, &0);
        if score == 1 {
            chosen_pos = Option::Some(pos);
            proof {
                best = i as int;
            }
            break ;
        } else if score > high_score {
            high_score = score;
            chosen_pos = Option::Some(pos);
            proof {
                best = i as int;
            }
        }
        i += 1;
    }

    match chosen_pos {
        None => Result::Err(MoveError),
        Some(pos) => {
            proof {
                lemma_first_best_is(values, best);
                lemma_empty_listed(board@, best);
            }
            let copy_board = board.with_square(&pos, turn.associated_square());
            Result::Ok(settle(copy_board, turn, set))
        },
    }
}

/// The square that the search picks is on the board and empty.
pub proof fn lemma_best_move_legal(cells: Seq<Square>, turn: Player, set: PlayerSet)
    requires
        cells.len() == 9,
        empty_count(cells) > 0,
    ensures
        on_board(best_move(cells, turn, set)),
        cells[cell_index(best_move(cells, turn, set))] == Square::Empty,
{
    if empty_count(cells) == 9 {
        lemma_holding_len(cells, Square::Empty, 9);
        lemma_cells_holding_step(cells, Square::Empty, 0);
    } else {
        let values = move_values(cells, turn, turn, set);
        lemma_first_best_exists(values);
        lemma_empty_listed(cells, first_best(values));
    }
}

/// On a board that holds a mark, no move is worth more to the mover than
/// the one that the search picks.
pub proof fn lemma_best_move_optimal(
    cells: Seq<Square>,
    turn: Player,
    set: PlayerSet,
    pos: (usize, usize),
)
    requires
        cells.len() == 9,
        empty_count(cells) < 9,
        on_board(pos),
        cells[cell_index(pos)] == Square::Empty,
    ensures
        move_value(cells, pos, turn, turn, set) <= move_value(
            cells,
            best_move(cells, turn, set),
            turn,
            turn,
            set,
        ),
{
    let empties = cells_holding(cells, Square::Empty);
    let values = move_values(cells, turn, turn, set);
    lemma_cells_holding_contains(cells, Square::Empty, pos);
    let k = choose|k: int| 0 <= k < empties.len() && empties[k] == pos;
    lemma_first_best_exists(values);
    assert(values[k] <= values[first_best(values)]);
}

/// On a board that holds a mark and where play goes on, the move that the
/// search picks for the player to move leads to a position worth as much
/// to that player as the position it moves from.
pub proof fn lemma_best_move_keeps_value(
    cells: Seq<Square>,
    last: Player,
    turn: Player,
    set: PlayerSet,
)
    requires
        cells.len() == 9,
        0 < empty_count(cells) < 9,
        !tied(cells),
        !has_line(cells, last.mark()),
        turn == set.other(last),
    ensures
        position_value(cells, last, turn, set) == move_value(
            cells,
            best_move(cells, turn, set),
            turn,
            turn,
            set,
        ),
{
    let values = move_values(cells, turn, turn, set);
    lemma_first_best_exists(values);
}

/// Where play goes on and the player to move is not the one that the
/// position is valued for, no move leads to a position worth less than the
/// position it moves from.
pub proof fn lemma_reply_keeps_value(
    cells: Seq<Square>,
    last: Player,
    maximizing: Player,
    set: PlayerSet,
    pos: (usize, usize),
)
    requires
        cells.len() == 9,
        !tied(cells),
        !has_line(cells, last.mark()),
        set.other(last) != maximizing,
        on_board(pos),
        cells[cell_index(pos)] == Square::Empty,
    ensures
        position_value(cells, last, maximizing, set) <= move_value(
            cells,
            pos,
            set.other(last),
            maximizing,
            set,
        ),
{
    let empties = cells_holding(cells, Square::Empty);
    let values = move_values(cells, set.other(last), maximizing, set);
    lemma_cells_holding_contains(cells, Square::Empty, pos);
    let k = choose|k: int| 0 <= k < empties.len() && empties[k] == pos;
    values.min_ensures();
    assert(values.min() <= values[k]);
}

/// A position that is worth zero or more to a player holds no line that the
/// other player has just completed.
pub proof fn lemma_no_loss(cells: Seq<Square>, last: Player, maximizing: Player, set: PlayerSet)
    requires
        position_value(cells, last, maximizing, set) >= 0,
        has_line(cells, last.mark()),
    ensures
        last == maximizing,
{
}

} // verus!
