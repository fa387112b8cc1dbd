//! Sides, piece kinds, their numeric tags, and the error kinds of the engine.
use crate::bits::holds;
use crate::bits::test_square;
use crate::bits::Bitboard;
use vstd::prelude::*;

verus! {

/// The two sides. White is the first side and moves towards lower square
/// indices; black is the second side.
#[derive(Debug, Clone, Copy, PartialEq, Eq, Structural)]
pub enum Color {
    White,
    Black,
}

/// The six piece kinds, and `Empty`, which only ever stands in the captured
/// field of a quiet move.
#[derive(Debug, Clone, Copy, PartialEq, Eq, Structural)]
pub enum Piece {
    Pawn,
    Knight,
    Bishop,
    Rook,
    Queen,
    King,
    Empty,
}

/// What can go wrong in the engine.
#[derive(Debug, Clone, Copy, PartialEq, Eq, Structural)]
pub enum ChessError {
    /// A square index above 63 at encoding time, or a tag in an encoded
    /// move that names no side or no piece kind that can stand there.
    InvalidMoveEncoding,
    /// `undo_move` on a position whose move stack is empty.
    EmptyHistory,
    /// A number that is not the tag of any piece kind.
    UnreachablePieceTag,
}

impl Color {
    /// The tag of a side: 0 for white, 1 for black.
    pub open spec fn tag(self) -> int {
        match self {
            Color::White => 0,
            Color::Black => 1,
        }
    }

    pub open spec fn other(self) -> Color {
        match self {
            Color::White => Color::Black,
            Color::Black => Color::White,
        }
    }

    /// The side with tag `t` (black for every tag but 0).
    pub open spec fn from_tag(t: int) -> Color {
        if t == 0 {
            Color::White
        } else {
            Color::Black
        }
    }

    /// Index of this side in the per-side arrays of a position.
    pub fn index(self) -> (r: usize)
        ensures
            r == self.tag(),
            r < 2,
    {
        match self {
            Color::White => 0,
            Color::Black => 1,
        }
    }
}

impl Piece {
    /// The tag of a piece kind, 0 for a pawn up to 5 for a king; 6 for `Empty`.
    pub open spec fn tag(self) -> int {
        match self {
            Piece::Pawn => 0,
            Piece::Knight => 1,
            Piece::Bishop => 2,
            Piece::Rook => 3,
            Piece::Queen => 4,
            Piece::King => 5,
            Piece::Empty => 6,
        }
    }

    /// The piece kind with tag `t` (`Empty` for every tag above 5).
    pub open spec fn from_tag(t: int) -> Piece {
        if t == 0 {
            Piece::Pawn
        } else if t == 1 {
            Piece::Knight
        } else if t == 2 {
            Piece::Bishop
        } else if t == 3 {
            Piece::Rook
        } else if t == 4 {
            Piece::Queen
        } else if t == 5 {
            Piece::King
        } else {
            Piece::Empty
        }
    }

    /// Tag of this kind as a machine integer.
    pub fn index(self) -> (r: usize)
        ensures
            r == self.tag(),
            r <= 6,
            r < 6 <==> self != Piece::Empty,
    {
        match self {
            Piece::Pawn => 0,
            Piece::Knight => 1,
            Piece::Bishop => 2,
            Piece::Rook => 3,
            Piece::Queen => 4,
            Piece::King => 5,
            Piece::Empty => 6,
        }
    }
}

pub fn opposite_color(color: Color) -> (r: Color)
    ensures
        r == color.other(),
{
    match color {
        Color::White => Color::Black,
        Color::Black => Color::White,
    }
}

pub fn number_to_piece(piece: u32) -> (r: Result<Piece, ChessError>)
    ensures
        piece <= 6 ==> r == Ok::<Piece, ChessError>(Piece::from_tag(piece as int)),
        piece > 6 ==> r == Err::<Piece, ChessError>(ChessError::UnreachablePieceTag),
{
    match piece {
        0 => Ok(Piece::Pawn),
        1 => Ok(Piece::Knight),
        2 => Ok(Piece::Bishop),
        3 => Ok(Piece::Rook),
        4 => Ok(Piece::Queen),
        5 => Ok(Piece::King),
        6 => Ok(Piece::Empty),
        _ => Err(ChessError::UnreachablePieceTag),
    }
}

pub fn number_to_color(color: u32) -> (r: Result<Color, ChessError>)
    ensures
        color <= 1 ==> r == Ok::<Color, ChessError>(Color::from_tag(color as int)),
        color > 1 ==> r == Err::<Color, ChessError>(ChessError::InvalidMoveEncoding),
{
    match color {
        0 => Ok(Color::White),
        1 => Ok(Color::Black),
        _ => Err(ChessError::InvalidMoveEncoding),
    }
}

/// The text of one row of a square set: the digit of the rank, two blanks,
/// and for each square of the row `1` if it is in the set and `0` if not,
/// with a blank between squares.
pub open spec fn row_text(bb: u64, row: int) -> Seq<u8> {
    Seq::new(
        18,
        |i: int|
            if i == 0 {
                (56 - row) as u8
            } else if i % 2 == 0 || i == 1 {
                32u8
            } else if holds(bb, row * 8 + (i - 3) / 2) {
                49u8
            } else {
                48u8
            },
    )
}

/// The picture of a square set: eight rows of text, the eighth rank first,
/// each as `row_text` gives it.
pub fn render_bitboard(bb: Bitboard) -> (r: Vec<Vec<u8>>)
    ensures
        r.len() == 8,
        forall|row: int| 0 <= row < 8 ==> (#[trigger] r[row])@ == row_text(bb, row),
{
    let mut lines: Vec<Vec<u8>> = Vec::new();
    let mut row: u8 = 0;
    while row < 8
        invariant
            row <= 8,
            lines.len() == row,
            forall|done: int| 0 <= done < row ==> (#[trigger] lines[done])@ == row_text(bb, done),
        decreases 8 - row,
    {
        let mut line: Vec<u8> = Vec::new();
        line.push(56 - row);
        line.push(32);
        let mut col: u8 = 0;
        while col < 8
            invariant
                row < 8,
                col <= 8,
                line.len() == 2 + 2 * col,
                forall|i: int| 0 <= i < line.len() ==> #[trigger] line[i] == row_text(bb, row as int)[i],
            decreases 8 - col,
        {
            line.push(32);
            if test_square(bb, row * 8 + col) {
                line.push(49);
            } else {
                line.push(48);
            }
            col += 1;
        }
        proof {
            assert(line@ =~= row_text(bb, row as int));
        }
        lines.push(line);
        row += 1;
    }
    lines
}

} // verus!
