//! Reading a position from Forsyth-Edwards notation.
//!
//! The text is read as bytes. It holds six fields, set apart by blanks:
//! the placement of the pieces, the side to move, the castling rights, the
//! en-passant square, the half-move flag and the move counter.
//!
//! The placement lists the rows from row 0 down, set apart by `/`; in a row
//! a letter puts a piece on the next column and a digit skips that many
//! columns. The half-move flag is 0 or 1. A position is only given back if
//! it has the invariant of [`Position::wf`].
use crate::bits::holds;
use crate::bits::lemma_union_laws;
use crate::bits::square_bit;
use crate::bits::square_mask;
use crate::bits::Bitboard;
use crate::board::put;
use crate::board::BoardState;
use crate::board::Position;
use crate::sets::lemma_row_disjoint_after_put;
use crate::sets::lemma_rows_disjoint_unions;
use crate::sets::lemma_sides_after_put;
use crate::sets::lemma_single_holds;
use crate::sets::lemma_union_after_put;
use crate::sets::lemma_union_of_row_holds;
use crate::sets::lemma_unions_apart;
use crate::sets::row_disjoint;
use crate::sets::rows_disjoint;
use crate::sets::union_of_row;
use crate::utils::Color;
use crate::utils::Piece;
use vstd::prelude::*;
use vstd::string::StringSliceAdditionalSpecFns;

verus! {

/// Why a text is not a position.
#[derive(Debug, Clone, Copy, PartialEq, Eq, Structural)]
pub enum FenError {
    /// The text does not hold six fields.
    FieldCount,
    /// The placement does not hold eight rows, or puts a piece beyond the
    /// eighth column of a row.
    RankCount,
    /// The placement holds a byte that is neither a piece letter, a digit
    /// nor `/`.
    PieceLetter,
    /// White does not have exactly one king.
    WhiteKings,
    /// Black does not have exactly one king.
    BlackKings,
    /// The side to move is neither `w` nor `b`.
    ToMove,
    /// The castling rights hold a byte other than `K`, `Q`, `k`, `q`, `-`.
    Castling,
    /// The en-passant field is longer than two bytes.
    EnPassantLength,
    /// The en-passant field is neither `-` nor a square, or the square does
    /// not lie right behind a pawn that could have advanced two squares.
    EnPassantSquare,
    /// The half-move flag is not 0 or 1.
    Halfmove,
    /// The move counter is not a number that fits 32 bits.
    Fullmove,
}

/// What the six fields say.
pub struct FenParts {
    pub pieces: Seq<Seq<u64>>,
    pub to_move: Color,
    pub castling: Seq<Seq<u64>>,
    pub en_passant: u64,
    pub halfmove: int,
    pub fullmove: int,
}

/// Where the reading of the placement stands: the pieces put so far, and
/// the row and column of the next square.
pub struct Placement {
    pub pieces: Seq<Seq<u64>>,
    pub row: int,
    pub col: int,
}

pub open spec fn is_blank(b: u8) -> bool {
    b == 32 || (9 <= b && b <= 13)
}

/// The fields of `s` from byte `i` on, given the bytes of the field that is
/// being read.
pub open spec fn fields_scan(s: Seq<u8>, i: int, current: Seq<u8>) -> Seq<Seq<u8>>
    decreases s.len() - i,
{
    let closed = if current.len() > 0 {
        seq![current]
    } else {
        Seq::<Seq<u8>>::empty()
    };
    if i < 0 || i >= s.len() {
        closed
    } else if is_blank(s[i]) {
        closed + fields_scan(s, i + 1, Seq::empty())
    } else {
        fields_scan(s, i + 1, current.push(s[i]))
    }
}

/// The fields of a text: its maximal runs of bytes that are not blanks.
pub open spec fn fields_of(s: Seq<u8>) -> Seq<Seq<u8>> {
    fields_scan(s, 0, Seq::empty())
}

/// Two rows of `n` empty sets.
pub open spec fn empty_rows(n: nat) -> Seq<Seq<u64>> {
    Seq::new(2, |c: int| Seq::new(n, |k: int| 0u64))
}

/// The side and kind that a piece letter stands for.
pub open spec fn piece_of_letter(b: u8) -> Option<(Color, Piece)> {
    if b == 80 {
        Some((Color::White, Piece::Pawn))
    } else if b == 78 {
        Some((Color::White, Piece::Knight))
    } else if b == 66 {
        Some((Color::White, Piece::Bishop))
    } else if b == 82 {
        Some((Color::White, Piece::Rook))
    } else if b == 81 {
        Some((Color::White, Piece::Queen))
    } else if b == 75 {
        Some((Color::White, Piece::King))
    } else if b == 112 {
        Some((Color::Black, Piece::Pawn))
    } else if b == 110 {
        Some((Color::Black, Piece::Knight))
    } else if b == 98 {
        Some((Color::Black, Piece::Bishop))
    } else if b == 114 {
        Some((Color::Black, Piece::Rook))
    } else if b == 113 {
        Some((Color::Black, Piece::Queen))
    } else if b == 107 {
        Some((Color::Black, Piece::King))
    } else {
        None
    }
}

/// Reading one byte of the placement. `/` goes to the next row; a digit
/// skips columns, never past the end of the row; a piece letter puts the
/// piece on the next square of the row.
pub open spec fn place_step(at: Placement, b: u8) -> Result<Placement, FenError> {
    if b == 47 {
        if at.row >= 7 {
            Err(FenError::RankCount)
        } else {
            Ok(Placement { pieces: at.pieces, row: at.row + 1, col: 0 })
        }
    } else if 48 <= b && b <= 57 {
        Ok(
            Placement {
                pieces: at.pieces,
                row: at.row,
                col: if at.col + (b - 48) > 8 {
                    8
                } else {
                    at.col + (b - 48)
                },
            },
        )
    } else {
        match piece_of_letter(b) {
            None => Err(FenError::PieceLetter),
            Some((side, kind)) => if at.col >= 8 {
                Err(FenError::RankCount)
            } else {
                Ok(
                    Placement {
                        pieces: put(
                            at.pieces,
                            side.tag(),
                            kind.tag(),
                            at.pieces[side.tag()][kind.tag()] | square_bit(at.row * 8 + at.col),
                        ),
                        row: at.row,
                        col: at.col + 1,
                    },
                )
            },
        }
    }
}

/// Reading the first `n` bytes of the placement.
pub open spec fn place_first(s: Seq<u8>, n: nat) -> Result<Placement, FenError>
    decreases n,
{
    if n == 0 {
        Ok(Placement { pieces: empty_rows(6), row: 0, col: 0 })
    } else {
        match place_first(s, (n - 1) as nat) {
            Err(e) => Err(e),
            Ok(at) => place_step(at, s[n - 1]),
        }
    }
}

/// The pieces that a placement field puts on the board.
pub open spec fn placement_of(s: Seq<u8>) -> Result<Seq<Seq<u64>>, FenError> {
    match place_first(s, s.len()) {
        Err(e) => Err(e),
        Ok(at) => if at.row == 7 {
            Ok(at.pieces)
        } else {
            Err(FenError::RankCount)
        },
    }
}

pub open spec fn to_move_of(s: Seq<u8>) -> Result<Color, FenError> {
    if s.len() == 1 && s[0] == 119 {
        Ok(Color::White)
    } else if s.len() == 1 && s[0] == 98 {
        Ok(Color::Black)
    } else {
        Err(FenError::ToMove)
    }
}

/// Reading one byte of the castling rights.
pub open spec fn castling_step(rights: Seq<Seq<u64>>, b: u8) -> Result<Seq<Seq<u64>>, FenError> {
    if b == 75 {
        Ok(put(rights, 0, 0, square_bit(63)))
    } else if b == 81 {
        Ok(put(rights, 0, 1, square_bit(56)))
    } else if b == 107 {
        Ok(put(rights, 1, 0, square_bit(0)))
    } else if b == 113 {
        Ok(put(rights, 1, 1, square_bit(7)))
    } else if b == 45 {
        Ok(rights)
    } else {
        Err(FenError::Castling)
    }
}

/// Reading the first `n` bytes of the castling rights.
pub open spec fn castling_first(s: Seq<u8>, n: nat) -> Result<Seq<Seq<u64>>, FenError>
    decreases n,
{
    if n == 0 {
        Ok(empty_rows(2))
    } else {
        match castling_first(s, (n - 1) as nat) {
            Err(e) => Err(e),
            Ok(rights) => castling_step(rights, s[n - 1]),
        }
    }
}

/// The en-passant set: empty for `-`, one square for a column letter `a`
/// to `h` followed by a rank digit `1` to `8`.
pub open spec fn en_passant_of(s: Seq<u8>) -> Result<u64, FenError> {
    if s.len() > 2 {
        Err(FenError::EnPassantLength)
    } else if s.len() == 1 && s[0] == 45 {
        Ok(0u64)
    } else if s.len() == 2 && 97 <= s[0] && s[0] <= 104 && 49 <= s[1] && s[1] <= 56 {
        Ok(square_bit((56 - s[1]) * 8 + (s[0] - 97)))
    } else {
        Err(FenError::EnPassantSquare)
    }
}

pub open spec fn is_digit(b: u8) -> bool {
    48 <= b && b <= 57
}

/// The number that the first `n` digits of `s` write.
pub open spec fn number_first(s: Seq<u8>, n: nat) -> int
    decreases n,
{
    if n == 0 {
        0
    } else {
        number_first(s, (n - 1) as nat) * 10 + (s[n - 1] - 48)
    }
}

/// The number that a field of digits writes, if it fits 32 bits.
pub open spec fn number_of(s: Seq<u8>) -> Option<u32> {
    if s.len() > 0 && (forall|i: int| 0 <= i < s.len() ==> is_digit(#[trigger] s[i])) && number_first(
        s,
        s.len(),
    ) <= u32::MAX {
        Some(number_first(s, s.len()) as u32)
    } else {
        None
    }
}

/// What the six fields of a text say, or the first thing that is wrong
/// with them.
pub open spec fn parts_of(s: Seq<u8>) -> Result<FenParts, FenError> {
    let fields = fields_of(s);
    if fields.len() != 6 {
        Err(FenError::FieldCount)
    } else {
        match placement_of(fields[0]) {
            Err(e) => Err(e),
            Ok(pieces) => match to_move_of(fields[1]) {
                Err(e) => Err(e),
                Ok(to_move) => match castling_first(fields[2], fields[2].len()) {
                    Err(e) => Err(e),
                    Ok(castling) => match en_passant_of(fields[3]) {
                        Err(e) => Err(e),
                        Ok(en_passant) => match number_of(fields[4]) {
                            None => Err(FenError::Halfmove),
                            Some(halfmove) => if halfmove > 1 {
                                Err(FenError::Halfmove)
                            } else {
                                match number_of(fields[5]) {
                                    None => Err(FenError::Fullmove),
                                    Some(fullmove) => Ok(
                                        FenParts {
                                            pieces,
                                            to_move,
                                            castling,
                                            en_passant,
                                            halfmove: halfmove as int,
                                            fullmove: fullmove as int,
                                        },
                                    ),
                                }
                            },
                        },
                    },
                },
            },
        }
    }
}

/// The position that the parts make, with an empty stack.
pub open spec fn position_of(parts: FenParts) -> Position {
    Position {
        pieces: parts.pieces,
        by_side: seq![union_of_row(parts.pieces[0]), union_of_row(parts.pieces[1])],
        occupied: union_of_row(parts.pieces[0]) | union_of_row(parts.pieces[1]),
        to_move: parts.to_move,
        castling: parts.castling,
        en_passant: parts.en_passant,
        halfmove: parts.halfmove,
        fullmove: parts.fullmove,
        history: Seq::empty(),
    }
}

/// The position that a text stands for, or the first thing that is wrong
/// with it: with the fields, with the number of kings, or with the
/// en-passant square.
pub open spec fn fen_outcome(s: Seq<u8>) -> Result<Position, FenError> {
    match parts_of(s) {
        Err(e) => Err(e),
        Ok(parts) => {
            let p = position_of(parts);
            if crate::bits::popcount(p.piece_set(Color::White, Piece::King)) != 1 {
                Err(FenError::WhiteKings)
            } else if crate::bits::popcount(p.piece_set(Color::Black, Piece::King)) != 1 {
                Err(FenError::BlackKings)
            } else if !p.en_passant_ok() {
                Err(FenError::EnPassantSquare)
            } else {
                Ok(p)
            }
        },
    }
}

/// Splits a text into its fields.
fn split_fields(text: &[u8]) -> (r: Vec<Vec<u8>>)
    ensures
        r.len() == fields_of(text@).len(),
        forall|i: int| 0 <= i < r.len() ==> (#[trigger] r[i])@ == fields_of(text@)[i],
{
    let mut done: Vec<Vec<u8>> = Vec::new();
    let mut current: Vec<u8> = Vec::new();
    let ghost mut closed: Seq<Seq<u8>> = Seq::empty();
    let mut i: usize = 0;
    while i < text.len()
        invariant
            i <= text.len(),
            done.len() == closed.len(),
            forall|j: int| 0 <= j < done.len() ==> (#[trigger] done[j])@ == closed[j],
            fields_of(text@) == closed + fields_scan(text@, i as int, current@),
        decreases text.len() - i,
    {
        let b = text[i];
        let ghost rest = fields_scan(text@, i as int, current@);
        if b == 32 || (9 <= b && b <= 13) {
            let ghost tail = fields_scan(text@, i + 1, Seq::empty());
            if current.len() > 0 {
                proof {
                    assert(rest == seq![current@] + tail);
                    assert(closed + (seq![current@] + tail) =~= closed.push(current@) + tail);
                    closed = closed.push(current@);
                }
                done.push(current);
                current = Vec::new();
            } else {
                proof {
                    assert(current@ =~= Seq::<u8>::empty());
                    assert(rest == Seq::<Seq<u8>>::empty() + tail);
                    assert(closed + (Seq::<Seq<u8>>::empty() + tail) =~= closed + tail);
                }
            }
        } else {
            proof {
                assert(rest == fields_scan(text@, i + 1, current@.push(b)));
            }
            current.push(b);
        }
        i += 1;
    }
    if current.len() > 0 {
        proof {
            assert(closed + seq![current@] =~= closed.push(current@));
            closed = closed.push(current@);
        }
        done.push(current);
    } else {
        proof {
            assert(closed + Seq::<Seq<u8>>::empty() =~= closed);
        }
    }
    done
}

/// The rows of the piece sets as a mathematical value.
pub open spec fn rows_of(pieces: [[Bitboard; 6]; 2]) -> Seq<Seq<u64>> {
    Seq::new(2, |c: int| pieces[c]@)
}

/// The rows of the castling rights as a mathematical value.
pub open spec fn rights_of(rights: [[Bitboard; 2]; 2]) -> Seq<Seq<u64>> {
    Seq::new(2, |c: int| rights[c]@)
}

/// The side and kind of a piece letter, as indices.
fn letter_indices(b: u8) -> (r: Option<(usize, usize)>)
    ensures
        match piece_of_letter(b) {
            None => r.is_none(),
            Some((side, kind)) => r == Some((side.tag() as usize, kind.tag() as usize)),
        },
        r matches Some(found) ==> found.0 < 2 && found.1 < 6,
{
    if b == 80 {
        Some((0, 0))
    } else if b == 78 {
        Some((0, 1))
    } else if b == 66 {
        Some((0, 2))
    } else if b == 82 {
        Some((0, 3))
    } else if b == 81 {
        Some((0, 4))
    } else if b == 75 {
        Some((0, 5))
    } else if b == 112 {
        Some((1, 0))
    } else if b == 110 {
        Some((1, 1))
    } else if b == 98 {
        Some((1, 2))
    } else if b == 114 {
        Some((1, 3))
    } else if b == 113 {
        Some((1, 4))
    } else if b == 107 {
        Some((1, 5))
    } else {
        None
    }
}

/// Reads the placement field.
fn read_placement(field: &Vec<u8>) -> (r: Result<[[Bitboard; 6]; 2], FenError>)
    ensures
        match placement_of(field@) {
            Err(e) => r == Err::<[[Bitboard; 6]; 2], FenError>(e),
            Ok(pieces) => r.is_ok() && rows_of(r.unwrap()) == pieces,
        },
{
    let mut pieces: [[Bitboard; 6]; 2] = [[0u64; 6]; 2];
    let mut row: u8 = 0;
    let mut col: u8 = 0;
    let mut i: usize = 0;
    proof {
        assert(rows_of(pieces) =~~= empty_rows(6));
    }
    while i < field.len()
        invariant
            i <= field.len(),
            row <= 7,
            col <= 8,
            place_first(field@, i as nat) == Ok::<Placement, FenError>(
                Placement { pieces: rows_of(pieces), row: row as int, col: col as int },
            ),
        decreases field.len() - i,
    {
        let b = field[i];
        let ghost at = Placement { pieces: rows_of(pieces), row: row as int, col: col as int };
        proof {
            assert(place_first(field@, (i + 1) as nat) == place_step(at, b));
            if place_step(at, b).is_err() {
                lemma_failure_stays(field@, (i + 1) as nat, field.len() as nat);
            }
        }
        if b == 47 {
            if row >= 7 {
                return Err(FenError::RankCount);
            }
            row += 1;
            col = 0;
        } else if 48 <= b && b <= 57 {
            col = if col + (b - 48) > 8 {
                8
            } else {
                col + (b - 48)
            };
        } else {
            match letter_indices(b) {
                None => {
                    return Err(FenError::PieceLetter);
                },
                Some((side, kind)) => {
                    if col >= 8 {
                        return Err(FenError::RankCount);
                    }
                    let ghost before = rows_of(pieces);
                    pieces[side][kind] = pieces[side][kind] | square_mask(row * 8 + col);
                    col += 1;
                    proof {
                        assert(rows_of(pieces) =~~= put(
                            before,
                            side as int,
                            kind as int,
                            before[side as int][kind as int] | square_bit(at.row * 8 + at.col),
                        ));
                    }
                },
            }
        }
        i += 1;
    }
    if row == 7 {
        Ok(pieces)
    } else {
        Err(FenError::RankCount)
    }
}

/// The squares that hold a piece of either row.
pub open spec fn occupied_of(pieces: Seq<Seq<u64>>) -> u64 {
    union_of_row(pieces[0]) | union_of_row(pieces[1])
}

/// The rows are two rows of six sets, and no two of the twelve sets share
/// a square.
pub open spec fn rows_apart(pieces: Seq<Seq<u64>>) -> bool {
    &&& pieces.len() == 2
    &&& pieces[0].len() == 6
    &&& pieces[1].len() == 6
    &&& row_disjoint(pieces[0])
    &&& row_disjoint(pieces[1])
    &&& rows_disjoint(pieces[0], pieces[1])
}

/// What holds while the placement is read: the sets are apart, the next
/// square is on or right behind the board, and every piece stands before
/// it.
pub open spec fn placement_ok(at: Placement) -> bool {
    &&& rows_apart(at.pieces)
    &&& 0 <= at.row <= 7
    &&& 0 <= at.col <= 8
    &&& forall|sq: int| #[trigger] holds(occupied_of(at.pieces), sq) ==> sq < at.row * 8 + at.col
}

proof fn lemma_place_start()
    ensures
        placement_ok(Placement { pieces: empty_rows(6), row: 0, col: 0 }),
{
    let rows = empty_rows(6);
    lemma_union_laws(0, 0, 0);
    assert(row_disjoint(rows[0]));
    assert(row_disjoint(rows[1]));
    assert(rows_disjoint(rows[0], rows[1]));
    assert(occupied_of(rows) == 0);
    assert forall|sq: int| #[trigger] holds(occupied_of(rows), sq) implies sq < 0 by {
        lemma_single_holds(0, sq);
    }
}

proof fn lemma_place_step_ok(at: Placement, b: u8)
    requires
        placement_ok(at),
        place_step(at, b).is_ok(),
    ensures
        placement_ok(place_step(at, b).unwrap()),
{
    let next = place_step(at, b).unwrap();
    if b == 47 {
    } else if 48 <= b && b <= 57 {
    } else {
        let (side, kind) = piece_of_letter(b).unwrap();
        let c = side.tag();
        let k = kind.tag();
        let t = at.row * 8 + at.col;
        let own = union_of_row(at.pieces[c]);
        let others = union_of_row(at.pieces[1 - c]);
        lemma_unions_apart(at.pieces[0], at.pieces[1]);
        lemma_union_laws(own, others, 0);
        assert(!holds(occupied_of(at.pieces), t));
        assert(!holds(own | others, t));
        lemma_sides_after_put(own, others, t);
        lemma_union_of_row_holds(at.pieces[c], t);
        lemma_row_disjoint_after_put(at.pieces[c], k, t);
        lemma_union_after_put(at.pieces[c], k, t);
        assert(next.pieces[c] == at.pieces[c].update(k, at.pieces[c][k] | square_bit(t)));
        assert(next.pieces[1 - c] == at.pieces[1 - c]);
        assert(union_of_row(next.pieces[c]) == own | square_bit(t));
        lemma_rows_disjoint_unions(next.pieces[0], next.pieces[1]);
        assert(rows_apart(next.pieces));
        assert forall|sq: int| #[trigger] holds(occupied_of(next.pieces), sq) implies sq < t
            + 1 by {
            assert(holds(own | others, sq) || holds(others | own, sq) || sq == t);
        }
    }
}

/// The reading of the placement goes over the squares in rising order and
/// puts each piece on a square of its own.
proof fn lemma_placement_apart(s: Seq<u8>, n: nat)
    requires
        n <= s.len(),
    ensures
        place_first(s, n) matches Ok(at) ==> placement_ok(at),
    decreases n,
{
    if n == 0 {
        lemma_place_start();
    } else {
        lemma_placement_apart(s, (n - 1) as nat);
        match place_first(s, (n - 1) as nat) {
            Err(_) => {},
            Ok(at) => {
                if place_step(at, s[n - 1]).is_ok() {
                    lemma_place_step_ok(at, s[n - 1]);
                }
            },
        }
    }
}

/// Each castling right that is read is empty or the home square of its
/// rook.
proof fn lemma_castling_shape(s: Seq<u8>, n: nat)
    requires
        n <= s.len(),
    ensures
        castling_first(s, n) matches Ok(rights) ==> {
            &&& rights.len() == 2
            &&& rights[0].len() == 2
            &&& rights[1].len() == 2
            &&& (rights[0][0] == 0 || rights[0][0] == square_bit(63))
            &&& (rights[0][1] == 0 || rights[0][1] == square_bit(56))
            &&& (rights[1][0] == 0 || rights[1][0] == square_bit(0))
            &&& (rights[1][1] == 0 || rights[1][1] == square_bit(7))
        },
    decreases n,
{
    if n > 0 {
        lemma_castling_shape(s, (n - 1) as nat);
    }
}

/// Once the reading of the placement has failed, it has failed for good.
proof fn lemma_failure_stays(s: Seq<u8>, n: nat, m: nat)
    requires
        n <= m,
        place_first(s, n).is_err(),
    ensures
        place_first(s, m) == place_first(s, n),
    decreases m,
{
    if n < m {
        lemma_failure_stays(s, n, (m - 1) as nat);
    }
}

proof fn lemma_castling_failure_stays(s: Seq<u8>, n: nat, m: nat)
    requires
        n <= m,
        castling_first(s, n).is_err(),
    ensures
        castling_first(s, m) == castling_first(s, n),
    decreases m,
{
    if n < m {
        lemma_castling_failure_stays(s, n, (m - 1) as nat);
    }
}

/// Reads the castling rights.
fn read_castling(field: &Vec<u8>) -> (r: Result<[[Bitboard; 2]; 2], FenError>)
    ensures
        match castling_first(field@, field@.len()) {
            Err(e) => r == Err::<[[Bitboard; 2]; 2], FenError>(e),
            Ok(rights) => r.is_ok() && rights_of(r.unwrap()) == rights,
        },
{
    let mut rights: [[Bitboard; 2]; 2] = [[0u64; 2]; 2];
    let mut i: usize = 0;
    proof {
        assert(rights_of(rights) =~~= empty_rows(2));
    }
    while i < field.len()
        invariant
            i <= field.len(),
            castling_first(field@, i as nat) == Ok::<Seq<Seq<u64>>, FenError>(rights_of(rights)),
        decreases field.len() - i,
    {
        let b = field[i];
        let ghost before = rights_of(rights);
        proof {
            assert(castling_first(field@, (i + 1) as nat) == castling_step(before, b));
            if castling_step(before, b).is_err() {
                lemma_castling_failure_stays(field@, (i + 1) as nat, field.len() as nat);
            }
        }
        if b == 75 {
            rights[0][0] = square_mask(63);
            proof {
                assert(rights_of(rights) =~~= put(before, 0, 0, square_bit(63)));
            }
        } else if b == 81 {
            rights[0][1] = square_mask(56);
            proof {
                assert(rights_of(rights) =~~= put(before, 0, 1, square_bit(56)));
            }
        } else if b == 107 {
            rights[1][0] = square_mask(0);
            proof {
                assert(rights_of(rights) =~~= put(before, 1, 0, square_bit(0)));
            }
        } else if b == 113 {
            rights[1][1] = square_mask(7);
            proof {
                assert(rights_of(rights) =~~= put(before, 1, 1, square_bit(7)));
            }
        } else if b != 45 {
            return Err(FenError::Castling);
        }
        i += 1;
    }
    Ok(rights)
}

/// Reads the side to move.
fn read_to_move(field: &Vec<u8>) -> (r: Result<Color, FenError>)
    ensures
        r == to_move_of(field@),
{
    if field.len() == 1 && field[0] == 119 {
        Ok(Color::White)
    } else if field.len() == 1 && field[0] == 98 {
        Ok(Color::Black)
    } else {
        Err(FenError::ToMove)
    }
}

/// Reads the en-passant field.
fn read_en_passant(field: &Vec<u8>) -> (r: Result<Bitboard, FenError>)
    ensures
        r == en_passant_of(field@),
{
    if field.len() > 2 {
        Err(FenError::EnPassantLength)
    } else if field.len() == 1 && field[0] == 45 {
        Ok(0)
    } else if field.len() == 2 && 97 <= field[0] && field[0] <= 104 && 49 <= field[1] && field[1]
        <= 56 {
        Ok(square_mask((56 - field[1]) * 8 + (field[0] - 97)))
    } else {
        Err(FenError::EnPassantSquare)
    }
}

/// A number written with more digits is no smaller.
proof fn lemma_number_grows(s: Seq<u8>, n: nat, m: nat)
    requires
        n <= m <= s.len(),
        forall|i: int| 0 <= i < s.len() ==> is_digit(#[trigger] s[i]),
    ensures
        0 <= number_first(s, n) <= number_first(s, m),
    decreases m,
{
    if n < m {
        lemma_number_grows(s, n, (m - 1) as nat);
        assert(is_digit(s[m - 1]));
    } else if n > 0 {
        lemma_number_grows(s, (n - 1) as nat, (n - 1) as nat);
        assert(is_digit(s[n - 1]));
    }
}

/// Reads a field of digits.
fn read_number(field: &Vec<u8>) -> (r: Option<u32>)
    ensures
        r == number_of(field@),
{
    if field.len() == 0 {
        return None;
    }
    let mut value: u64 = 0;
    let mut i: usize = 0;
    while i < field.len()
        invariant
            i <= field.len(),
            forall|j: int| 0 <= j < i ==> is_digit(#[trigger] field@[j]),
            value == number_first(field@, i as nat),
            value <= u32::MAX,
        decreases field.len() - i,
    {
        let b = field[i];
        if !(48 <= b && b <= 57) {
            return None;
        }
        let next: u64 = value * 10 + (b - 48) as u64;
        if next > u32::MAX as u64 {
            proof {
                if forall|j: int| 0 <= j < field@.len() ==> is_digit(#[trigger] field@[j]) {
                    lemma_number_grows(field@, (i + 1) as nat, field@.len());
                }
            }
            return None;
        }
        value = next;
        i += 1;
    }
    Some(value as u32)
}

impl BoardState {
    /// Reads a position from Forsyth-Edwards notation.
    ///
    /// The answer is the position that [`fen_outcome`] gives for the bytes
    /// of the text, or the error that it gives. A position that is given
    /// back has the invariant and an empty stack.
    pub fn from_fen(fen_string: &str) -> (r: Result<BoardState, FenError>)
        ensures
            match fen_outcome(fen_string.spec_bytes()) {
                Err(e) => r == Err::<BoardState, FenError>(e),
                Ok(p) => r.is_ok() && r.unwrap()@ == p,
            },
            r.is_ok() ==> r.unwrap()@.wf() && r.unwrap()@.history.len() == 0,
    {
        let text = fen_string.as_bytes();
        let fields = split_fields(text);
        if fields.len() != 6 {
            return Err(FenError::FieldCount);
        }
        let pieces = match read_placement(&fields[0]) {
            Ok(found) => found,
            Err(e) => {
                return Err(e);
            },
        };
        let to_move = match read_to_move(&fields[1]) {
            Ok(found) => found,
            Err(e) => {
                return Err(e);
            },
        };
        let castling = match read_castling(&fields[2]) {
            Ok(found) => found,
            Err(e) => {
                return Err(e);
            },
        };
        let en_passant = match read_en_passant(&fields[3]) {
            Ok(found) => found,
            Err(e) => {
                return Err(e);
            },
        };
        let halfmove = match read_number(&fields[4]) {
            Some(found) => found,
            None => {
                return Err(FenError::Halfmove);
            },
        };
        if halfmove > 1 {
            return Err(FenError::Halfmove);
        }
        let fullmove = match read_number(&fields[5]) {
            Some(found) => found,
            None => {
                return Err(FenError::Fullmove);
            },
        };
        let board = BoardState::from_external_state(
            pieces,
            to_move,
            castling,
            en_passant,
            halfmove,
            fullmove,
        );
        proof {
            let parts = parts_of(fen_string.spec_bytes()).unwrap();
            let p = position_of(parts);
            assert(board@.pieces =~~= p.pieces);
            assert(board@.castling =~~= p.castling);
            assert(board@.by_side =~= p.by_side);
            assert(board@.history =~= p.history);
            assert(board@ == p);
        }
        if crate::bits::count_squares(board.get_piece_bb(Color::White, Piece::King)) != 1 {
            return Err(FenError::WhiteKings);
        }
        if crate::bits::count_squares(board.get_piece_bb(Color::Black, Piece::King)) != 1 {
            return Err(FenError::BlackKings);
        }
        if !board.en_passant_is_ok() {
            return Err(FenError::EnPassantSquare);
        }
        proof {
            reveal(Position::wf);
            lemma_placement_apart(fields[0]@, fields[0]@.len());
            lemma_castling_shape(fields[2]@, fields[2]@.len());
            assert(board@.castling_ok()) by {
                assert forall|s: Color, wing: int| 0 <= wing < 2 implies #[trigger] board@.castling[s.tag()][wing]
                    == 0 || board@.castling[s.tag()][wing] == square_bit(
                    crate::board::rook_home(s, wing),
                ) by {}
            }
            assert(board@.history_ok());
        }
        Ok(board)
    }
}

/// What is wrong, in words.
pub open spec fn message_of(e: FenError) -> Seq<char> {
    match e {
        FenError::FieldCount => "Incorrect fen string!"@,
        FenError::RankCount => "Incorrect pieces placement in the fen string!"@,
        FenError::PieceLetter => "Incorrect piece in fen string!"@,
        FenError::WhiteKings => "Incorrect fen string! Not exactly 1 white king on the board!"@,
        FenError::BlackKings => "Incorrect fen string! Not exactly 1 black king on the board!"@,
        FenError::ToMove => "Incorrect to move color in fen string!"@,
        FenError::Castling => "Incorrect castlings rights in fen string!"@,
        FenError::EnPassantLength => "Incorrect length of en passant square in fen string!"@,
        FenError::EnPassantSquare => "Incorrect en passant square position in fen string!"@,
        FenError::Halfmove => "Incorrect halfmove count in a fen string!"@,
        FenError::Fullmove => "Incorrect fullmove count in a fen string!"@,
    }
}

impl FenError {
    /// What is wrong, in words.
    pub fn message(&self) -> (r: &'static str)
        ensures
            r@ == message_of(*self),
    {
        match self {
            FenError::FieldCount => "Incorrect fen string!",
            FenError::RankCount => "Incorrect pieces placement in the fen string!",
            FenError::PieceLetter => "Incorrect piece in fen string!",
            FenError::WhiteKings => "Incorrect fen string! Not exactly 1 white king on the board!",
            FenError::BlackKings => "Incorrect fen string! Not exactly 1 black king on the board!",
            FenError::ToMove => "Incorrect to move color in fen string!",
            FenError::Castling => "Incorrect castlings rights in fen string!",
            FenError::EnPassantLength => "Incorrect length of en passant square in fen string!",
            FenError::EnPassantSquare => "Incorrect en passant square position in fen string!",
            FenError::Halfmove => "Incorrect halfmove count in a fen string!",
            FenError::Fullmove => "Incorrect fullmove count in a fen string!",
        }
    }
}

} // verus!
