//! The board: nine squares addressed by row and column.

use vstd::prelude::*;

verus! {

/// Row indices, named by the letters that label the rows.
#[non_exhaustive]
pub struct XPos;

impl XPos {
    pub const A: usize = 0;

    pub const B: usize = 1;

    pub const C: usize = 2;

    /// The letter that labels a row; every index past the second row reads `C`.
    pub open spec fn spec_letter_from(num: usize) -> Seq<char> {
        if num == 0 {
            seq!['A']
        } else if num == 1 {
            seq!['B']
        } else {
            seq!['C']
        }
    }

    /// The letter that labels row `num`.
    pub fn letter_from(num: usize) -> (letter: &'static str)
        ensures
            letter@ == Self::spec_letter_from(num),
    {
        proof {
            reveal_strlit("A");
            reveal_strlit("B");
            reveal_strlit("C");
        }
        let letter = match num {
            0 => "A",
            1 => "B",
            _ => "C",
        };
        assert(letter@ =~= Self::spec_letter_from(num));
        letter
    }
}

/// Column indices, named by the digits that label the columns.
#[non_exhaustive]
pub struct YPos;

impl YPos {
    pub const _1: usize = 0;

    pub const _2: usize = 1;

    pub const _3: usize = 2;
}

/// What one square of the board holds.
#[derive(Copy, Clone, PartialEq, Eq, Structural, Debug)]
pub enum Square {
    X,
    O,
    Empty,
}

impl Square {
    /// The glyph that stands for a square on a drawn board.
    pub open spec fn glyph(self) -> Seq<char> {
        match self {
            Square::X => "❌"@,
            Square::O => "⭕️"@,
            Square::Empty => "⬜️"@,
        }
    }

    /// The glyph to draw for the square.
    pub fn to_string(&self) -> (glyph: &str)
        ensures
            glyph@ == self.glyph(),
    {
        match self {
            Self::X => "❌",
            Self::O => "⭕️",
            Self::Empty => "⬜️",
        }
    }
}

/// The three-by-three grid, `squares[row][column]`.
///
/// A board is a plain value: a copy is independent of the board it was
/// copied from.
#[derive(Copy, Clone, PartialEq, Debug)]
pub struct Board {
    pub squares: [[Square; 3]; 3],
}

impl View for Board {
    type V = Seq<Square>;

    /// The nine squares in row-major order: the square at `(row, column)`
    /// stands at index `3 * row + column`.
    open spec fn view(&self) -> Seq<Square> {
        Seq::new(9, |k: int| self.squares[k / 3][k % 3])
    }
}

/// Where the square at `pos` stands in a board's view.
pub open spec fn cell_index(pos: (usize, usize)) -> int {
    3 * pos.0 + pos.1
}

/// The `(row, column)` of the square at index `k` of a board's view.
pub open spec fn cell_pos(k: int) -> (usize, usize) {
    ((k / 3) as usize, (k % 3) as usize)
}

/// Whether `pos` names a square of the board.
pub open spec fn on_board(pos: (usize, usize)) -> bool {
    pos.0 < 3 && pos.1 < 3
}

/// All nine positions in row-major order.
pub open spec fn all_cells() -> Seq<(usize, usize)> {
    Seq::new(9, |k: int| cell_pos(k))
}

/// The test that a position's square holds `sq`.
pub open spec fn holds(cells: Seq<Square>, sq: Square) -> spec_fn((usize, usize)) -> bool {
    |pos: (usize, usize)| cells[cell_index(pos)] == sq
}

/// The positions of the squares that hold `sq`, in row-major order.
pub open spec fn cells_holding(cells: Seq<Square>, sq: Square) -> Seq<(usize, usize)> {
    all_cells().filter(holds(cells, sq))
}

/// What `cells_holding` has gathered once the first `k` squares are seen.
pub open spec fn cells_holding_below(cells: Seq<Square>, sq: Square, k: int) -> Seq<
    (usize, usize),
> {
    all_cells().take(k).filter(holds(cells, sq))
}

/// Seeing one more square adds its position exactly when it holds `sq`.
pub proof fn lemma_cells_holding_step(cells: Seq<Square>, sq: Square, k: int)
    requires
        0 <= k < 9,
    ensures
        cells_holding_below(cells, sq, k + 1) == if cells[k] == sq {
            cells_holding_below(cells, sq, k).push(cell_pos(k))
        } else {
            cells_holding_below(cells, sq, k)
        },
        cells_holding_below(cells, sq, 0) == Seq::<(usize, usize)>::empty(),
        cells_holding_below(cells, sq, 9) == cells_holding(cells, sq),
{
    let all = all_cells();
    assert(all.take(k + 1) =~= all.take(k).push(cell_pos(k)));
    all.take(k).lemma_filter_push(cell_pos(k), holds(cells, sq));
    assert(cell_index(cell_pos(k)) == k);
    assert(all.take(9) =~= all);
    assert(all.take(0).filter(holds(cells, sq)) =~= Seq::<(usize, usize)>::empty()) by {
        reveal(Seq::filter);
    }
}

/// A position is listed exactly when it is on the board and its square holds `sq`.
pub proof fn lemma_cells_holding_contains(cells: Seq<Square>, sq: Square, pos: (usize, usize))
    ensures
        cells_holding(cells, sq).contains(pos) <==> on_board(pos) && cells[cell_index(pos)] == sq,
{
    let all = all_cells();
    let pred = holds(cells, sq);
    if cells_holding(cells, sq).contains(pos) {
        all.lemma_filter_contains_rev(pred, pos);
        let k = choose|k: int| 0 <= k < all.len() && all[k] == pos;
        assert(on_board(pos));
        let j = choose|j: int|
            0 <= j < cells_holding(cells, sq).len() && cells_holding(cells, sq)[j] == pos;
        all.lemma_filter_pred(pred, j);
    }
    if on_board(pos) && cells[cell_index(pos)] == sq {
        let k = cell_index(pos);
        assert(all[k] == pos);
        all.lemma_filter_contains(pred, k);
    }
}

/// The view of the board with no mark on it.
pub open spec fn empty_cells() -> Seq<Square> {
    Seq::new(9, |k: int| Square::Empty)
}

impl Default for Board {
    /// The board with no mark on it.
    fn default() -> (board: Board)
        ensures
            board@ == empty_cells(),
    {
        let board = Board { squares: [[Square::Empty; 3]; 3] };
        assert(board@ =~= empty_cells());
        board
    }
}

/// The line drawn for row `r`: its letter, a blank and the glyphs of its
/// three squares.
pub open spec fn row_line(cells: Seq<Square>, r: int) -> Seq<char> {
    XPos::spec_letter_from(r as usize) + seq![' '] + cells[3 * r].glyph() + cells[3 * r
        + 1].glyph() + cells[3 * r + 2].glyph()
}

/// The line drawn under the board, which numbers the columns.
pub open spec fn footer_line() -> Seq<char> {
    "  1️⃣ 2️⃣ 3️⃣"@
}

/// The four lines drawn for a board: its rows from the first to the last,
/// then the column numbers.
pub open spec fn board_lines(cells: Seq<Square>) -> Seq<Seq<char>> {
    seq![row_line(cells, 0), row_line(cells, 1), row_line(cells, 2), footer_line()]
}

/// The texts of `lines`.
pub open spec fn texts(lines: Seq<String>) -> Seq<Seq<char>> {
    lines.map_values(|line: String| line@)
}

impl Board {
    /// The lines to print for the board.
    pub fn pretty_lines(&self) -> (lines: Vec<String>)
        ensures
            texts(lines@) == board_lines(self@),
    {
        let mut lines: Vec<String> = Vec::new();
        proof {
            reveal_strlit(" ");
        }
        for x in 0..3usize
            invariant
                " "@ == seq![' '],
                lines.len() == x,
                forall|r: int| 0 <= r < x ==> (#[trigger] lines[r])@ == row_line(self@, r),
        {
            let letter = XPos::letter_from(x);
            let mut line = String::from_str(letter);
            line.append(" ");
            line.append(self.squares[x][0].to_string());
            line.append(self.squares[x][1].to_string());
            line.append(self.squares[x][2].to_string());
            proof {
                assert(self@[3 * x] == self.squares[x as int][0]);
                assert(self@[3 * x + 1] == self.squares[x as int][1]);
                assert(self@[3 * x + 2] == self.squares[x as int][2]);
                assert(line@ =~= row_line(self@, x as int));
            }
            lines.push(line);
        }
        lines.push(String::from_str("  1️⃣ 2️⃣ 3️⃣"));
        assert(texts(lines@) =~= board_lines(self@));
        lines
    }

    /// A copy of the board with `sq` written at `pos`.
    pub(crate) fn with_square(&self, pos: &(usize, usize), sq: Square) -> (next: Board)
        requires
            on_board(*pos),
        ensures
            next@ == self@.update(cell_index(*pos), sq),
    {
        let mut next = *self;
        next.squares[pos.0][pos.1] = sq;
        assert(next@ =~= self@.update(cell_index(*pos), sq));
        next
    }
}

/// The board whose view is `cells`.
pub open spec fn board_of(cells: Seq<Square>) -> Board {
    Board {
        squares: [
            [cells[0], cells[1], cells[2]],
            [cells[3], cells[4], cells[5]],
            [cells[6], cells[7], cells[8]],
        ],
    }
}

/// `board_of` builds the board that reads `cells`.
pub proof fn lemma_board_of_view(cells: Seq<Square>)
    requires
        cells.len() == 9,
    ensures
        board_of(cells)@ == cells,
{
    let board = board_of(cells);
    assert forall|k: int| 0 <= k < 9 implies board@[k] == cells[k] by {
        assert(k == 0 || k == 1 || k == 2 || k == 3 || k == 4 || k == 5 || k == 6 || k == 7 || k
            == 8);
    }
    assert(board@ =~= cells);
}

/// A board is the board of its own view.
pub proof fn lemma_board_of_self(board: Board)
    ensures
        board_of(board@) == board,
{
    lemma_board_of_view(board@);
    lemma_view_determines_board(board_of(board@), board);
}

/// Two boards with the same view are the same board.
pub proof fn lemma_view_determines_board(a: Board, b: Board)
    requires
        a@ == b@,
    ensures
        a == b,
{
    assert forall|r: int| 0 <= r < 3 implies a.squares[r] == b.squares[r] by {
        assert forall|c: int| 0 <= c < 3 implies a.squares[r][c] == b.squares[r][c] by {
            let k = 3 * r + c;
            assert(k / 3 == r && k % 3 == c);
            assert(a@[k] == a.squares[r][c]);
            assert(b@[k] == b.squares[r][c]);
        }
        assert(a.squares[r] =~= b.squares[r]);
    }
    assert(a.squares =~= b.squares);
}

} // verus!
