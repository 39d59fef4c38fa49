//! The plain-text notation of a board: three lines of three letters, `X`,
//! `O` or `-`, with a line feed between one line and the next.

use vstd::prelude::*;
use crate::board::{lemma_view_determines_board, Board, Square};

verus! {

/// The text is not the notation of a board.
#[derive(Debug)]
pub struct BoardBuildError;

/// The text is not the letter of a square.
#[derive(Debug)]
pub struct SquareBuildError;

impl Square {
    /// The letter that stands for a square in the notation.
    pub open spec fn letter(self) -> char {
        match self {
            Square::X => 'X',
            Square::O => 'O',
            Square::Empty => '-',
        }
    }

    /// The square that a letter stands for, if it stands for one.
    pub open spec fn of_letter(c: char) -> Option<Square> {
        if c == 'X' {
            Some(Square::X)
        } else if c == 'O' {
            Some(Square::O)
        } else if c == '-' {
            Some(Square::Empty)
        } else {
            None
        }
    }

    /// Reads one letter of the notation.
    pub fn from_char(c: char) -> (sq: Option<Square>)
        ensures
            sq == Self::of_letter(c),
    {
        if c == 'X' {
            Some(Square::X)
        } else if c == 'O' {
            Some(Square::O)
        } else if c == '-' {
            Some(Square::Empty)
        } else {
            None
        }
    }

    /// Reads a text that is one letter of the notation and nothing else.
    pub fn from_str(s: &str) -> (res: Result<Square, SquareBuildError>)
        ensures
            match res {
                Ok(sq) => s@ == seq![sq.letter()],
                Err(_) => s@.len() != 1 || Self::of_letter(s@[0]) is None,
            },
    {
        if s.unicode_len() != 1 {
            return Err(SquareBuildError);
        }
        match Self::from_char(s.get_char(0)) {
            Some(sq) => {
                assert(s@ =~= seq![sq.letter()]);
                Ok(sq)
            },
            None => Err(SquareBuildError),
        }
    }

    /// The letter of a square as a text.
    pub fn build_str(&self) -> (s: &'static str)
        ensures
            s@ == seq![self.letter()],
    {
        proof {
            reveal_strlit("X");
            reveal_strlit("O");
            reveal_strlit("-");
        }
        let s = match self {
            Square::X => "X",
            Square::O => "O",
            Square::Empty => "-",
        };
        assert(s@ =~= seq![self.letter()]);
        s
    }
}

/// The lines of a text: what stands before its first line feed, between
/// one line feed and the next, and after the last. A text with no line
/// feed is one line.
pub open spec fn lines_of(text: Seq<char>) -> Seq<Seq<char>>
    decreases text.len(),
{
    if text.len() == 0 {
        seq![Seq::empty()]
    } else {
        let before = lines_of(text.drop_last());
        if text.last() == '\n' {
            before.push(Seq::empty())
        } else {
            before.drop_last().push(before.last().push(text.last()))
        }
    }
}

/// Whether `text` is the notation of some board: it has three lines, each
/// line has three characters, and each character is the letter of a square.
pub open spec fn is_build_text(text: Seq<char>) -> bool {
    let lines = lines_of(text);
    &&& lines.len() == 3
    &&& forall|r: int| 0 <= r < 3 ==> (#[trigger] lines[r]).len() == 3
    &&& forall|r: int, c: int|
        0 <= r < 3 && 0 <= c < 3 ==> Square::of_letter(#[trigger] lines[r][c]) is Some
}

/// The squares that a notation names, row by row.
pub open spec fn parsed_cells(text: Seq<char>) -> Seq<Square> {
    Seq::new(9, |k: int| Square::of_letter(lines_of(text)[k / 3][k % 3]).unwrap())
}

/// The line that stands for row `r`: the letters of its three squares.
pub open spec fn row_text(cells: Seq<Square>, r: int) -> Seq<char> {
    seq![cells[3 * r].letter(), cells[3 * r + 1].letter(), cells[3 * r + 2].letter()]
}

/// The notation of the board that reads `cells`: its three rows with a line
/// feed between one and the next.
pub open spec fn build_text(cells: Seq<Square>) -> Seq<char> {
    row_text(cells, 0) + seq!['\n'] + row_text(cells, 1) + seq!['\n'] + row_text(cells, 2)
}

/// `lines` written one after the other with a line feed between them.
spec fn joined(lines: Seq<Seq<char>>) -> Seq<char>
    decreases lines.len(),
{
    if lines.len() == 0 {
        Seq::empty()
    } else if lines.len() == 1 {
        lines[0]
    } else {
        joined(lines.drop_last()) + seq!['\n'] + lines.last()
    }
}

/// Eleven characters, every fourth a line feed and each of the others the
/// letter of a square.
pub open spec fn is_grid(text: Seq<char>) -> bool {
    &&& text.len() == 11
    &&& forall|i: int|
        0 <= i < 11 ==> if i % 4 == 3 {
            text[i] == '\n'
        } else {
            Square::of_letter(#[trigger] text[i]) is Some
        }
}

/// A text has at least one line, no line holds a line feed, and the lines
/// joined by line feeds are the text.
proof fn lemma_lines_join(text: Seq<char>)
    ensures
        lines_of(text).len() >= 1,
        joined(lines_of(text)) == text,
        forall|r: int, c: int|
            0 <= r < lines_of(text).len() && 0 <= c < lines_of(text)[r].len()
                ==> #[trigger] lines_of(text)[r][c] != '\n',
    decreases text.len(),
{
    let lines = lines_of(text);
    if text.len() > 0 {
        let before = lines_of(text.drop_last());
        lemma_lines_join(text.drop_last());
        assert(text =~= text.drop_last().push(text.last()));
        if text.last() == '\n' {
            assert(lines.drop_last() =~= before);
            assert(joined(lines) =~= text);
        } else {
            let last = before.last().push(text.last());
            if before.len() == 1 {
                assert(joined(lines) =~= text);
            } else {
                assert(lines.drop_last() =~= before.drop_last());
                assert(joined(lines) =~= text);
            }
        }
    }
}

/// Adding a character to a text opens a new line if it is a line feed and
/// else lengthens the last line.
proof fn lemma_lines_push(text: Seq<char>, c: char)
    ensures
        lines_of(text.push(c)) == if c == '\n' {
            lines_of(text).push(Seq::empty())
        } else {
            lines_of(text).drop_last().push(lines_of(text).last().push(c))
        },
{
    assert(text.push(c).drop_last() =~= text);
}

/// The lines of the first `n` characters of a grid: the rows that are
/// complete, then the part of the row that `n` falls in.
proof fn lemma_grid_lines(text: Seq<char>, n: int)
    requires
        is_grid(text),
        0 <= n <= 11,
    ensures
        lines_of(text.take(n)).len() == n / 4 + 1,
        forall|r: int|
            0 <= r < n / 4 ==> #[trigger] lines_of(text.take(n))[r] == text.subrange(
                4 * r,
                4 * r + 3,
            ),
        lines_of(text.take(n))[n / 4] == text.subrange(4 * (n / 4), n),
    decreases n,
{
    if n == 0 {
        assert(text.take(0) =~= Seq::<char>::empty());
        assert(lines_of(text.take(0))[0] =~= text.subrange(0, 0));
    } else {
        lemma_grid_lines(text, n - 1);
        lemma_lines_push(text.take(n - 1), text[n - 1]);
        assert(text.take(n) =~= text.take(n - 1).push(text[n - 1]));
        let before = lines_of(text.take(n - 1));
        let now = lines_of(text.take(n));
        if (n - 1) % 4 == 3 {
            assert(now[n / 4] =~= text.subrange(4 * (n / 4), n));
            assert(before[(n - 1) / 4] =~= text.subrange(4 * ((n - 1) / 4), 4 * ((n - 1) / 4) + 3));
        } else {
            assert(Square::of_letter(text[n - 1]) is Some);
            assert(now[n / 4] =~= text.subrange(4 * (n / 4), n));
        }
    }
}

/// A text is the notation of a board exactly when it is a grid, and then
/// each letter stands in its line where it stands in the grid.
pub proof fn lemma_build_text_is_grid(text: Seq<char>)
    ensures
        is_build_text(text) <==> is_grid(text),
        is_grid(text) ==> forall|r: int, c: int|
            0 <= r < 3 && 0 <= c < 3 ==> #[trigger] lines_of(text)[r][c] == text[4 * r + c],
{
    let lines = lines_of(text);
    if is_grid(text) {
        lemma_grid_lines(text, 11);
        assert(text.take(11) =~= text);
        assert(lines[2] == text.subrange(8, 11));
        assert forall|r: int, c: int| 0 <= r < 3 && 0 <= c < 3 implies #[trigger] lines[r][c]
            == text[4 * r + c] by {
            if r < 2 {
                assert(lines[r] == text.subrange(4 * r, 4 * r + 3));
            }
        }
        assert forall|r: int, c: int| 0 <= r < 3 && 0 <= c < 3 implies Square::of_letter(
            #[trigger] lines[r][c],
        ) is Some by {
            assert(lines[r][c] == text[4 * r + c]);
            assert(Square::of_letter(text[4 * r + c]) is Some);
        }
    }
    if is_build_text(text) {
        lemma_lines_join(text);
        let two = lines.drop_last();
        assert(two.drop_last() =~= seq![lines[0]]);
        assert(joined(two.drop_last()) == lines[0]);
        assert(joined(two) == lines[0] + seq!['\n'] + lines[1]);
        assert(text == lines[0] + seq!['\n'] + lines[1] + seq!['\n'] + lines[2]);
        assert forall|i: int| 0 <= i < 11 implies if i % 4 == 3 {
            text[i] == '\n'
        } else {
            Square::of_letter(#[trigger] text[i]) is Some
        } by {
            if i % 4 != 3 {
                assert(text[i] == lines[i / 4][i % 4]);
            }
        }
    }
}

impl Board {
    /// Reads a board from its notation. Fails where the text has not three
    /// lines, a line has not three characters, or a character is none of
    /// `X`, `O` and `-`.
    pub fn from_str(s: &str) -> (res: Result<Board, BoardBuildError>)
        ensures
            match res {
                Ok(board) => is_build_text(s@) && board@ == parsed_cells(s@),
                Err(_) => !is_build_text(s@),
            },
    {
        proof {
            lemma_build_text_is_grid(s@);
        }
        if s.unicode_len() != 11 {
            return Err(BoardBuildError);
        }
        let mut board = Board { squares: [[Square::Empty; 3]; 3] };
        let mut i: usize = 0;
        while i < 11
            invariant
                i <= 11,
                s@.len() == 11,
                is_build_text(s@) <==> is_grid(s@),
                forall|j: int|
                    0 <= j < i ==> if j % 4 == 3 {
                        s@[j] == '\n'
                    } else {
                        Square::of_letter(#[trigger] s@[j]) == Some(board.squares[j / 4][j % 4])
                    },
            decreases 11 - i,
        {
            let c = s.get_char(i);
            if i % 4 == 3 {
                if c != '\n' {
                    return Err(BoardBuildError);
                }
            } else {
                match Square::from_char(c) {
                    Some(sq) => {
                        board.squares[i / 4][i % 4] = sq;
                    },
                    None => {
                        return Err(BoardBuildError);
                    },
                }
            }
            i += 1;
        }
        proof {
            assert(is_grid(s@));
            assert forall|k: int| 0 <= k < 9 implies board@[k] == parsed_cells(s@)[k] by {
                let j = 4 * (k / 3) + k % 3;
                assert(j / 4 == k / 3 && j % 4 == k % 3);
                assert(Square::of_letter(s@[j]) == Some(board.squares[j / 4][j % 4]));
                assert(lines_of(s@)[k / 3][k % 3] == s@[j]);
            }
            assert(board@ =~= parsed_cells(s@));
        }
        Ok(board)
    }

    /// Writes the board in its notation.
    pub fn to_build_string(&self) -> (s: String)
        ensures
            s@ == build_text(self@),
    {
        let mut s = String::new();
        let ghost text = build_text(self@);
        proof {
            reveal_strlit("\n");
        }
        for x in 0..3usize
            invariant
                text == build_text(self@),
                "\n"@ == seq!['\n'],
                s@ == text.take(
                    if x == 0 {
                        0
                    } else {
                        4 * x - 1
                    },
                ),
        {
            if x > 0 {
                s.append("\n");
                assert(s@ =~= text.take(4 * x));
            }
            for y in 0..3usize
                invariant
                    x < 3,
                    text == build_text(self@),
                    s@ == text.take(4 * x + y),
            {
                assert(self@[3 * x + y] == self.squares[x as int][y as int]);
                s.append(self.squares[x][y].build_str());
                assert(s@ =~= text.take(4 * x + y + 1));
            }
        }
        assert(text.take(11) =~= text);
        s
    }
}

/// Reading the notation of a board gives the squares of that board back.
pub proof fn lemma_text_round_trip(cells: Seq<Square>)
    requires
        cells.len() == 9,
    ensures
        is_build_text(build_text(cells)),
        parsed_cells(build_text(cells)) == cells,
{
    let text = build_text(cells);
    lemma_build_text_is_grid(text);
    assert(is_grid(text));
    assert forall|k: int| 0 <= k < 9 implies parsed_cells(text)[k] == cells[k] by {
        assert(lines_of(text)[k / 3][k % 3] == text[4 * (k / 3) + k % 3]);
    }
    assert(parsed_cells(text) =~= cells);
}

/// A board read from the notation of `board` is `board`.
pub proof fn lemma_board_round_trip(board: Board, read: Board)
    requires
        read@ == parsed_cells(build_text(board@)),
    ensures
        is_build_text(build_text(board@)),
        read == board,
{
    lemma_text_round_trip(board@);
    lemma_view_determines_board(read, board);
}

/// Writing the board that a notation names gives that notation back.
pub proof fn lemma_cells_round_trip(text: Seq<char>)
    requires
        is_build_text(text),
    ensures
        build_text(parsed_cells(text)) == text,
{
    let cells = parsed_cells(text);
    lemma_build_text_is_grid(text);
    assert forall|i: int| 0 <= i < 11 implies build_text(cells)[i] == text[i] by {
        if i % 4 != 3 {
            let k = 3 * (i / 4) + i % 4;
            assert(k / 3 == i / 4 && k % 3 == i % 4);
            assert(lines_of(text)[k / 3][k % 3] == text[i]);
            assert(Square::of_letter(text[i]) is Some);
        }
    }
    assert(build_text(cells) =~= text);
}

} // verus!
