//! Players, the state of a game, and the rules that apply a move.

use vstd::prelude::*;
use crate::board::{
    board_lines, board_of, cell_index, cell_pos, cells_holding, cells_holding_below, empty_cells,
    lemma_board_of_self, lemma_board_of_view, lemma_cells_holding_contains,
    lemma_cells_holding_step, on_board, texts, Board, Square,
};

verus! {

/// Who decides a player's moves.
#[derive(Clone, Copy, PartialEq, Eq, Structural, Debug)]
pub enum PlayerType {
    Human,
    Computer,
}

/// A player: the mark it places, and who decides its moves.
#[derive(Clone, Copy, PartialEq, Eq, Structural, Debug)]
pub enum Player {
    X(PlayerType),
    O(PlayerType),
}

impl Player {
    /// The mark that the player places.
    pub open spec fn mark(self) -> Square {
        match self {
            Player::X(_) => Square::X,
            Player::O(_) => Square::O,
        }
    }

    /// Who decides the player's moves.
    pub open spec fn kind(self) -> PlayerType {
        match self {
            Player::X(t) => t,
            Player::O(t) => t,
        }
    }

    /// The glyph of the player's mark.
    pub fn to_string(&self) -> (glyph: &str)
        ensures
            glyph@ == self.mark().glyph(),
    {
        match self {
            Self::X(_t) => "❌",
            Self::O(_t) => "⭕️",
        }
    }

    /// The mark that the player places.
    pub fn associated_square(&self) -> (sq: Square)
        ensures
            sq == self.mark(),
    {
        match self {
            Self::X(_t) => Square::X,
            Self::O(_t) => Square::O,
        }
    }

    /// Who decides the player's moves.
    pub fn player_type(&self) -> (t: &PlayerType)
        ensures
            *t == self.kind(),
    {
        match self {
            Self::X(t) => t,
            Self::O(t) => t,
        }
    }
}

/// The two players of a session.
#[derive(Clone, Copy, PartialEq, Eq, Structural, Debug)]
pub struct PlayerSet {
    pub x: Player,
    pub o: Player,
}

impl PlayerSet {
    /// A session has one player for each mark.
    pub open spec fn wf(self) -> bool {
        self.x is X && self.o is O
    }

    /// The player who moves after `player`.
    pub open spec fn other(self, player: Player) -> Player {
        match player {
            Player::O(_) => self.x,
            Player::X(_) => self.o,
        }
    }

    /// The player who moves after `player`: the one who places the other
    /// mark.
    pub fn opposite_player(&self, player: &Player) -> (next: Player)
        ensures
            next == self.other(*player),
    {
        match player {
            Player::O(_t) => self.x,
            Player::X(_t) => self.o,
        }
    }
}

/// The state of a game.
#[derive(PartialEq, Debug)]
pub enum Game {
    /// No session is set up.
    Uninitiated,
    /// A session in which `turn` is to move on `board`.
    InPlay { set: PlayerSet, turn: Player, board: Board },
    /// The board is full and nobody has won.
    Tie(Board),
    /// The player has completed a line on the board.
    Win(Player, Board),
}

impl Game {
    /// The squares of the game's board; none where no session is set up.
    pub open spec fn cells(self) -> Seq<Square> {
        match self {
            Game::Uninitiated => Seq::empty(),
            Game::InPlay { board, .. } => board@,
            Game::Tie(board) => board@,
            Game::Win(_, board) => board@,
        }
    }

    /// What holds of every game that the rules produce: a session has one
    /// player for each mark and one of the two is to move, a tied board is
    /// full without a line, and the winner's mark has a line.
    pub open spec fn wf(self) -> bool {
        match self {
            Game::Uninitiated => true,
            Game::InPlay { set, turn, board } => set.wf() && (turn == set.x || turn == set.o),
            Game::Tie(board) => tied(board@),
            Game::Win(winner, board) => has_line(board@, winner.mark()),
        }
    }
}

/// The search was asked for a move on a board with no empty square.
#[derive(Debug, Clone)]
pub struct MoveError;

impl MoveError {
    /// The message that reports the error.
    pub fn to_string(&self) -> (message: String)
        ensures
            message@ == "no moves.  something is wrong"@,
    {
        String::from_str("no moves.  something is wrong")
    }
}

/// The square that a move names already holds a mark.
#[derive(Debug, Clone)]
pub struct PlacementError;

impl PlacementError {
    /// The message that reports the error.
    pub fn to_string(&self) -> (message: String)
        ensures
            message@ == "cell already occupied"@,
    {
        String::from_str("cell already occupied")
    }
}

/// The lines drawn for a game: those of its board, or a note where no game
/// was set up.
pub open spec fn game_lines(game: Game) -> Seq<Seq<char>> {
    match game {
        Game::Uninitiated => seq!["uniniated"@],
        Game::Tie(board) => board_lines(board@),
        Game::Win(_, board) => board_lines(board@),
        Game::InPlay { board, .. } => board_lines(board@),
    }
}

/// The lines to print for a game.
pub fn pretty_lines(game: &Game) -> (lines: Vec<String>)
    ensures
        texts(lines@) == game_lines(*game),
{
    match game {
        Game::Uninitiated => {
            let mut lines: Vec<String> = Vec::new();
            lines.push(String::from_str("uniniated"));
            assert(texts(lines@) =~= game_lines(*game));
            lines
        },
        Game::Tie(board) => board.pretty_lines(),
        Game::Win(_, board) => board.pretty_lines(),
        Game::InPlay { board, .. } => board.pretty_lines(),
    }
}

/// The board after `sq` is written at `pos`.
pub open spec fn placed(cells: Seq<Square>, pos: (usize, usize), sq: Square) -> Seq<Square> {
    cells.update(cell_index(pos), sq)
}

/// Row `r` holds `sq` in all three squares.
pub open spec fn row_full(cells: Seq<Square>, r: int, sq: Square) -> bool {
    cells[3 * r] == sq && cells[3 * r + 1] == sq && cells[3 * r + 2] == sq
}

/// Column `c` holds `sq` in all three squares.
pub open spec fn col_full(cells: Seq<Square>, c: int, sq: Square) -> bool {
    cells[c] == sq && cells[3 + c] == sq && cells[6 + c] == sq
}

/// The diagonal on which row and column are equal holds `sq` throughout.
pub open spec fn diag_full(cells: Seq<Square>, sq: Square) -> bool {
    cells[0] == sq && cells[4] == sq && cells[8] == sq
}

/// The diagonal on which row and column add up to two holds `sq` throughout.
pub open spec fn anti_diag_full(cells: Seq<Square>, sq: Square) -> bool {
    cells[2] == sq && cells[4] == sq && cells[6] == sq
}

/// Some row, column or diagonal holds `sq` in all three squares.
pub open spec fn has_line(cells: Seq<Square>, sq: Square) -> bool {
    ||| row_full(cells, 0, sq)
    ||| row_full(cells, 1, sq)
    ||| row_full(cells, 2, sq)
    ||| col_full(cells, 0, sq)
    ||| col_full(cells, 1, sq)
    ||| col_full(cells, 2, sq)
    ||| diag_full(cells, sq)
    ||| anti_diag_full(cells, sq)
}

/// The square at `(row, col)`.
pub open spec fn square_at(cells: Seq<Square>, row: int, col: int) -> Square {
    cells[3 * row + col]
}

/// Every square of row `row` holds `sq`.
pub open spec fn whole_row(cells: Seq<Square>, row: int, sq: Square) -> bool {
    forall|col: int| 0 <= col < 3 ==> #[trigger] square_at(cells, row, col) == sq
}

/// Every square of column `col` holds `sq`.
pub open spec fn whole_col(cells: Seq<Square>, col: int, sq: Square) -> bool {
    forall|row: int| 0 <= row < 3 ==> #[trigger] square_at(cells, row, col) == sq
}

/// Every square whose row and column are equal holds `sq`.
pub open spec fn whole_diag(cells: Seq<Square>, sq: Square) -> bool {
    forall|row: int, col: int|
        0 <= row < 3 && 0 <= col < 3 && row == col ==> #[trigger] square_at(cells, row, col) == sq
}

/// Every square whose row and column add up to two holds `sq`.
pub open spec fn whole_anti_diag(cells: Seq<Square>, sq: Square) -> bool {
    forall|row: int, col: int|
        0 <= row < 3 && 0 <= col < 3 && row == 2 - col ==> #[trigger] square_at(cells, row, col)
            == sq
}

/// A mark has a line exactly when it fills a row, a column or one of the
/// two diagonals.
pub proof fn lemma_has_line_by_position(cells: Seq<Square>, sq: Square)
    ensures
        has_line(cells, sq) <==> {
            ||| exists|row: int| 0 <= row < 3 && #[trigger] whole_row(cells, row, sq)
            ||| exists|col: int| 0 <= col < 3 && #[trigger] whole_col(cells, col, sq)
            ||| whole_diag(cells, sq)
            ||| whole_anti_diag(cells, sq)
        },
{
    assert forall|r: int| 0 <= r < 3 implies (row_full(cells, r, sq) <==> #[trigger] whole_row(
        cells,
        r,
        sq,
    )) by {
        if whole_row(cells, r, sq) {
            assert(square_at(cells, r, 0) == sq);
            assert(square_at(cells, r, 1) == sq);
            assert(square_at(cells, r, 2) == sq);
        }
    }
    assert forall|c: int| 0 <= c < 3 implies (col_full(cells, c, sq) <==> #[trigger] whole_col(
        cells,
        c,
        sq,
    )) by {
        if whole_col(cells, c, sq) {
            assert(square_at(cells, 0, c) == sq);
            assert(square_at(cells, 1, c) == sq);
            assert(square_at(cells, 2, c) == sq);
        }
    }
    assert(diag_full(cells, sq) <==> whole_diag(cells, sq)) by {
        if whole_diag(cells, sq) {
            assert(square_at(cells, 0, 0) == sq);
            assert(square_at(cells, 1, 1) == sq);
            assert(square_at(cells, 2, 2) == sq);
        }
    }
    assert(anti_diag_full(cells, sq) <==> whole_anti_diag(cells, sq)) by {
        if whole_anti_diag(cells, sq) {
            assert(square_at(cells, 0, 2) == sq);
            assert(square_at(cells, 1, 1) == sq);
            assert(square_at(cells, 2, 0) == sq);
        }
    }
    if has_line(cells, sq) {
        if row_full(cells, 0, sq) {
            assert(whole_row(cells, 0, sq));
        } else if row_full(cells, 1, sq) {
            assert(whole_row(cells, 1, sq));
        } else if row_full(cells, 2, sq) {
            assert(whole_row(cells, 2, sq));
        } else if col_full(cells, 0, sq) {
            assert(whole_col(cells, 0, sq));
        } else if col_full(cells, 1, sq) {
            assert(whole_col(cells, 1, sq));
        } else if col_full(cells, 2, sq) {
            assert(whole_col(cells, 2, sq));
        }
    }
}

/// No square is empty and neither mark has a line.
pub open spec fn tied(cells: Seq<Square>) -> bool {
    &&& cells_holding(cells, Square::Empty).len() == 0
    &&& !has_line(cells, Square::X)
    &&& !has_line(cells, Square::O)
}

/// The state that follows once `player` has moved and the board reads
/// `cells`: a win for `player` if its mark has a line, else a tie if the
/// board is tied, else play goes on with the other player to move.
pub open spec fn game_after(cells: Seq<Square>, player: Player, set: PlayerSet) -> Game {
    if has_line(cells, player.mark()) {
        Game::Win(player, board_of(cells))
    } else if tied(cells) {
        Game::Tie(board_of(cells))
    } else {
        Game::InPlay { set, turn: set.other(player), board: board_of(cells) }
    }
}

/// What a move of `player` to `pos` gives: the state that follows once the
/// mark is placed if the square is empty, and else an error.
pub open spec fn moved(
    cells: Seq<Square>,
    pos: (usize, usize),
    player: Player,
    set: PlayerSet,
) -> Result<Game, PlacementError> {
    if cells[cell_index(pos)] == Square::Empty {
        Ok(game_after(placed(cells, pos, player.mark()), player, set))
    } else {
        Err(PlacementError)
    }
}

/// One if the square at index `k` holds `sq` and lies among the first `seen`
/// squares, else zero.
spec fn marked(cells: Seq<Square>, sq: Square, k: int, seen: int) -> int {
    if k < seen && cells[k] == sq {
        1
    } else {
        0
    }
}

/// How many of the first `seen` squares lie in row `r` and hold `sq`.
spec fn row_marks(cells: Seq<Square>, sq: Square, r: int, seen: int) -> int {
    marked(cells, sq, 3 * r, seen) + marked(cells, sq, 3 * r + 1, seen) + marked(
        cells,
        sq,
        3 * r + 2,
        seen,
    )
}

/// How many of the first `seen` squares lie in column `c` and hold `sq`.
spec fn col_marks(cells: Seq<Square>, sq: Square, c: int, seen: int) -> int {
    marked(cells, sq, c, seen) + marked(cells, sq, 3 + c, seen) + marked(cells, sq, 6 + c, seen)
}

/// How many of the first `seen` squares lie on the main diagonal and hold `sq`.
spec fn diag_marks(cells: Seq<Square>, sq: Square, seen: int) -> int {
    marked(cells, sq, 0, seen) + marked(cells, sq, 4, seen) + marked(cells, sq, 8, seen)
}

/// How many of the first `seen` squares lie on the other diagonal and hold `sq`.
spec fn anti_diag_marks(cells: Seq<Square>, sq: Square, seen: int) -> int {
    marked(cells, sq, 2, seen) + marked(cells, sq, 4, seen) + marked(cells, sq, 6, seen)
}

/// One if `hit` and the square at index `k` holds `sq`, else zero.
spec fn gain(cells: Seq<Square>, sq: Square, k: int, hit: bool) -> int {
    if hit && cells[k] == sq {
        1
    } else {
        0
    }
}

/// Seeing the square at index `k` raises by one the counts of the lines that
/// it lies on, if it holds `sq`, and leaves every other count as it was.
proof fn lemma_marks_step(cells: Seq<Square>, sq: Square, k: int)
    requires
        0 <= k < 9,
    ensures
        forall|r: int|
            0 <= r < 3 ==> #[trigger] row_marks(cells, sq, r, k + 1) == row_marks(cells, sq, r, k)
                + gain(cells, sq, k, r == k / 3),
        forall|c: int|
            0 <= c < 3 ==> #[trigger] col_marks(cells, sq, c, k + 1) == col_marks(cells, sq, c, k)
                + gain(cells, sq, k, c == k % 3),
        diag_marks(cells, sq, k + 1) == diag_marks(cells, sq, k) + gain(
            cells,
            sq,
            k,
            k / 3 == k % 3,
        ),
        anti_diag_marks(cells, sq, k + 1) == anti_diag_marks(cells, sq, k) + gain(
            cells,
            sq,
            k,
            k / 3 == 2 - k % 3,
        ),
        forall|r: int| 0 <= r < 3 ==> 0 <= #[trigger] row_marks(cells, sq, r, k) <= 3,
        forall|c: int| 0 <= c < 3 ==> 0 <= #[trigger] col_marks(cells, sq, c, k) <= 3,
        0 <= diag_marks(cells, sq, k) <= 3,
        0 <= anti_diag_marks(cells, sq, k) <= 3,
{
}

/// A line is full exactly when all three of its squares are counted, and
/// nothing is counted before a square is seen.
proof fn lemma_marks_full(cells: Seq<Square>, sq: Square)
    ensures
        forall|r: int|
            0 <= r < 3 ==> (#[trigger] row_marks(cells, sq, r, 9) == 3 <==> row_full(cells, r, sq)),
        forall|c: int|
            0 <= c < 3 ==> (#[trigger] col_marks(cells, sq, c, 9) == 3 <==> col_full(cells, c, sq)),
        diag_marks(cells, sq, 9) == 3 <==> diag_full(cells, sq),
        anti_diag_marks(cells, sq, 9) == 3 <==> anti_diag_full(cells, sq),
        forall|r: int| 0 <= r < 3 ==> #[trigger] row_marks(cells, sq, r, 0) == 0,
        forall|c: int| 0 <= c < 3 ==> #[trigger] col_marks(cells, sq, c, 0) == 0,
        diag_marks(cells, sq, 0) == 0,
        anti_diag_marks(cells, sq, 0) == 0,
{
}

/// Whether `list` holds `pos`.
fn contains_pos(list: &Vec<(usize, usize)>, pos: &(usize, usize)) -> (found: bool)
    ensures
        found == list@.contains(*pos),
{
    let mut i: usize = 0;
    while i < list.len()
        invariant
            i <= list.len(),
            forall|j: int| 0 <= j < i ==> list@[j] != *pos,
        decreases list.len() - i,
    {
        if list[i].0 == pos.0 && list[i].1 == pos.1 {
            assert(list@[i as int] == *pos);
            return true;
        }
        i += 1;
    }
    false
}

/// Whether `player`'s mark fills some row, column or diagonal of `board`.
pub fn is_win(player: &Player, board: &Board) -> (win: bool)
    ensures
        win == has_line(board@, player.mark()),
{
    let mut row_ctr_ary: [u8; 3] = [0; 3];
    let mut col_ctr_ary: [u8; 3] = [0; 3];
    let mut l_diag_ctr: u8 = 0;
    let mut r_diag_ctr: u8 = 0;

    let positions = board.get_positions_for(player);
    let ghost cells = board@;
    let ghost sq = player.mark();

    proof {
        lemma_marks_full(cells, sq);
    }
    for x in 0..3usize
        invariant
            positions@ == cells_holding(cells, sq),
            forall|r: int| 0 <= r < 3 ==> row_ctr_ary[r] == row_marks(cells, sq, r, 3 * x),
            forall|c: int| 0 <= c < 3 ==> col_ctr_ary[c] == col_marks(cells, sq, c, 3 * x),
            l_diag_ctr == diag_marks(cells, sq, 3 * x),
            r_diag_ctr == anti_diag_marks(cells, sq, 3 * x),
    {
        for y in 0..3usize
            invariant
                x < 3,
                positions@ == cells_holding(cells, sq),
                forall|r: int| 0 <= r < 3 ==> row_ctr_ary[r] == row_marks(cells, sq, r, 3 * x + y),
                forall|c: int| 0 <= c < 3 ==> col_ctr_ary[c] == col_marks(cells, sq, c, 3 * x + y),
                l_diag_ctr == diag_marks(cells, sq, 3 * x + y),
                r_diag_ctr == anti_diag_marks(cells, sq, 3 * x + y),
        {
            let ghost k = 3 * x + y;
            proof {
                lemma_cells_holding_contains(cells, sq, (x, y));
                lemma_marks_step(cells, sq, k);
                assert(k / 3 == x && k % 3 == y);
                assert(cell_index((x, y)) == k);
            }
            if contains_pos(&positions, &(x, y)) {
                row_ctr_ary[x] += 1;
                col_ctr_ary[y] += 1;

                if x == y {
                    l_diag_ctr += 1;
                }
                if x == (2 - y) {
                    r_diag_ctr += 1;
                }
            }
        }
    }

    row_ctr_ary[0] == 3 || row_ctr_ary[1] == 3 || row_ctr_ary[2] == 3 || col_ctr_ary[0] == 3
        || col_ctr_ary[1] == 3 || col_ctr_ary[2] == 3 || l_diag_ctr == 3 || r_diag_ctr == 3
}

/// Whether `board` is full with no line for either mark.
pub fn is_tie(board: &Board) -> (tie: bool)
    ensures
        tie == tied(board@),
{
    let empty = board.get_empty_squares();
    if empty.len() != 0 {
        return false;
    }
    let x_win = is_win(&Player::X(PlayerType::Human), board);
    let o_win = is_win(&Player::O(PlayerType::Human), board);
    !(x_win || o_win)
}

/// The state that follows once `player` has moved and the board reads `board`.
pub(crate) fn settle(board: Board, player: &Player, set: &PlayerSet) -> (game: Game)
    ensures
        game == game_after(board@, *player, *set),
{
    proof {
        lemma_board_of_self(board);
    }
    if is_win(player, &board) {
        return Game::Win(*player, board);
    } else if is_tie(&board) {
        return Game::Tie(board);
    }
    let next_turn = set.opposite_player(player);
    Game::InPlay { set: *set, turn: next_turn, board }
}

/// Places `player`'s mark at `pos` on a copy of `board` and says how the game
/// stands then. Fails, with nothing changed, where the square is taken.
pub fn make_move(pos: &(usize, usize), board: &Board, player: &Player, set: &PlayerSet) -> (res:
    Result<Game, PlacementError>)
    requires
        on_board(*pos),
    ensures
        res == moved(board@, *pos, *player, *set),
{
    assert(board@[cell_index(*pos)] == board.squares[pos.0 as int][pos.1 as int]);
    if board.squares[pos.0][pos.1] != Square::Empty {
        return Result::Err(PlacementError);
    }
    let copy_board = board.with_square(pos, player.associated_square());
    Result::Ok(settle(copy_board, player, set))
}

/// With one player for each mark, the player who moves next places the
/// other mark, and the turn comes back after two moves.
pub proof fn lemma_turns_alternate(set: PlayerSet, player: Player)
    requires
        set.wf(),
    ensures
        set.other(player).mark() != player.mark(),
        set.other(set.other(player)).mark() == player.mark(),
        set.other(player) == set.x || set.other(player) == set.o,
{
}

/// A move in a session with one player for each mark gives a game of which
/// `wf` holds: a tie is declared only on a full board without a line, and a
/// win only for a mark that has a line.
pub proof fn lemma_game_after_wf(cells: Seq<Square>, player: Player, set: PlayerSet)
    requires
        cells.len() == 9,
        set.wf(),
    ensures
        game_after(cells, player, set).wf(),
        game_after(cells, player, set) is Tie ==> !has_line(cells, Square::X) && !has_line(
            cells,
            Square::O,
        ),
        !(game_after(cells, player, set) is Uninitiated),
{
    lemma_board_of_view(cells);
}

/// A move that is accepted writes the mover's mark on the square named and
/// leaves every other square as it was: no mark is ever erased.
pub proof fn lemma_move_marks_one_square(
    cells: Seq<Square>,
    pos: (usize, usize),
    player: Player,
    set: PlayerSet,
)
    requires
        cells.len() == 9,
        on_board(pos),
    ensures
        moved(cells, pos, player, set) is Ok <==> cells[cell_index(pos)] == Square::Empty,
        moved(cells, pos, player, set) matches Ok(game) ==> {
            &&& game.cells().len() == 9
            &&& game.cells()[cell_index(pos)] == player.mark()
            &&& forall|k: int| 0 <= k < 9 && k != cell_index(pos) ==> game.cells()[k] == cells[k]
        },
{
    lemma_board_of_view(placed(cells, pos, player.mark()));
}

/// A fresh game: the board empty, the player of `X` to move.
pub fn new_game(set: &PlayerSet) -> (game: Game)
    ensures
        game == (Game::InPlay { set: *set, turn: set.x, board: board_of(empty_cells()) }),
{
    let board = Board::default();
    proof {
        lemma_board_of_self(board);
    }
    Game::InPlay { set: *set, turn: set.x, board }
}

impl Board {
    /// The positions of the empty squares, row by row.
    pub fn get_empty_squares(&self) -> (pos: Vec<(usize, usize)>)
        ensures
            pos@ == cells_holding(self@, Square::Empty),
    {
        self.positions_of(Square::Empty)
    }

    /// The positions of the squares that hold `player`'s mark, row by row.
    pub fn get_positions_for(&self, player: &Player) -> (pos: Vec<(usize, usize)>)
        ensures
            pos@ == cells_holding(self@, player.mark()),
    {
        self.positions_of(player.associated_square())
    }

    /// The positions whose square holds `sq`, row by row.
    fn positions_of(&self, sq: Square) -> (pos: Vec<(usize, usize)>)
        ensures
            pos@ == cells_holding(self@, sq),
    {
        let mut pos: Vec<(usize, usize)> = Vec::new();
        proof {
            lemma_cells_holding_step(self@, sq, 0);
        }
        for x in 0..3usize
            invariant
                pos@ == cells_holding_below(self@, sq, 3 * x),
        {
            for y in 0..3usize
                invariant
                    x < 3,
                    pos@ == cells_holding_below(self@, sq, 3 * x + y),
            {
                proof {
                    lemma_cells_holding_step(self@, sq, 3 * x + y);
                    assert(cell_pos(3 * x + y) == (x, y));
                }
                if self.squares[x][y] == sq {
                    pos.push((x, y));
                }
            }
        }
        proof {
            lemma_cells_holding_step(self@, sq, 0);
        }
        pos
    }
}

} // verus!
