//! The position, the packed move, and making and taking back a move.
//!
//! A move is packed into a `u32`:
//!
//! | bits  | field                                     |
//! |-------|-------------------------------------------|
//! | 0-5   | square the piece leaves                   |
//! | 6-11  | square the piece lands on                 |
//! | 12-14 | tag of the moving piece kind              |
//! | 15    | tag of the moving side                    |
//! | 16-18 | tag of the captured kind (6 when none is) |
//! | 19    | promotion flag                            |
//!
//! The bits above bit 19 carry nothing and are ignored when a move is read.
use crate::bits::square_bit;
use crate::bits::square_mask;
use crate::bits::Bitboard;
use crate::invariants::lemma_make_keeps_wf;
use crate::invariants::lemma_undo_keeps_wf;
use crate::sets::moved;
use crate::utils::number_to_color;
use crate::utils::number_to_piece;
use crate::utils::opposite_color;
use crate::utils::ChessError;
use crate::utils::Color;
use crate::utils::Piece;
use vstd::prelude::*;

verus! {

pub type EncodedMove = u32;

/// The fields of a move: from, to, moving kind, moving side, captured kind,
/// promotion flag.
pub type DecodedMove = (u8, u8, Piece, Color, Piece, bool);

/// The move that stands for "no move".
pub const NULL_MOVE: EncodedMove = 0;

/// The packed form of a move.
pub open spec fn encode_spec(
    from: int,
    to: int,
    piece: Piece,
    color: Color,
    captured: Piece,
    promotion: bool,
) -> int {
    from + to * 64 + piece.tag() * 4096 + color.tag() * 32768 + captured.tag() * 65536 + if promotion {
        524288int
    } else {
        0int
    }
}

pub open spec fn from_field(m: u32) -> int {
    m as int % 64
}

pub open spec fn to_field(m: u32) -> int {
    (m as int / 64) % 64
}

pub open spec fn piece_field(m: u32) -> int {
    (m as int / 4096) % 8
}

pub open spec fn color_field(m: u32) -> int {
    (m as int / 32768) % 2
}

pub open spec fn captured_field(m: u32) -> int {
    (m as int / 65536) % 8
}

pub open spec fn promotion_field(m: u32) -> int {
    (m as int / 524288) % 2
}

/// A packed move can be read when both of its kind tags name a kind.
pub open spec fn decodable(m: u32) -> bool {
    piece_field(m) <= 6 && captured_field(m) <= 6
}

/// The fields of a packed move.
pub open spec fn decode_spec(m: u32) -> DecodedMove {
    (
        from_field(m) as u8,
        to_field(m) as u8,
        Piece::from_tag(piece_field(m)),
        Color::from_tag(color_field(m)),
        Piece::from_tag(captured_field(m)),
        promotion_field(m) == 1,
    )
}

proof fn lemma_encode_bits(from: u32, to: u32, piece: u32, color: u32, captured: u32, promo: u32)
    by (bit_vector)
    requires
        from <= 63,
        to <= 63,
        piece <= 6,
        color <= 1,
        captured <= 6,
        promo <= 1,
    ensures
        (from & 63) | ((to & 63) << 6) | ((piece & 7) << 12) | (color << 15) | (captured << 16) | (
        promo << 19) == from + to * 64 + piece * 4096 + color * 32768 + captured * 65536 + promo
            * 524288,
        from + to * 64 + piece * 4096 + color * 32768 + captured * 65536 + promo * 524288
            < 0x10_0000,
        (from + to * 64 + piece * 4096 + color * 32768 + captured * 65536 + promo * 524288) % 64
            == from,
        ((from + to * 64 + piece * 4096 + color * 32768 + captured * 65536 + promo * 524288) / 64)
            % 64 == to,
        ((from + to * 64 + piece * 4096 + color * 32768 + captured * 65536 + promo * 524288)
            / 4096) % 8 == piece,
        ((from + to * 64 + piece * 4096 + color * 32768 + captured * 65536 + promo * 524288)
            / 32768) % 2 == color,
        ((from + to * 64 + piece * 4096 + color * 32768 + captured * 65536 + promo * 524288)
            / 65536) % 8 == captured,
        ((from + to * 64 + piece * 4096 + color * 32768 + captured * 65536 + promo * 524288)
            / 524288) % 2 == promo,
{
}

proof fn lemma_decode_bits(m: u32)
    by (bit_vector)
    ensures
        m & 63 == m % 64,
        (m >> 6) & 63 == (m / 64) % 64,
        (m >> 12) & 7 == (m / 4096) % 8,
        (m >> 15) & 1 == (m / 32768) % 2,
        (m >> 16) & 7 == (m / 65536) % 8,
        (m >> 19) & 1 == (m / 524288) % 2,
{
}

/// Reading a packed move gives back the fields it was packed from.
pub proof fn lemma_decode_encode(
    from: int,
    to: int,
    piece: Piece,
    color: Color,
    captured: Piece,
    promotion: bool,
)
    requires
        0 <= from <= 63,
        0 <= to <= 63,
    ensures
        0 <= encode_spec(from, to, piece, color, captured, promotion) < 0x10_0000,
        decodable(encode_spec(from, to, piece, color, captured, promotion) as u32),
        decode_spec(encode_spec(from, to, piece, color, captured, promotion) as u32) == (
            from as u8,
            to as u8,
            piece,
            color,
            captured,
            promotion,
        ),
{
    let promo: u32 = if promotion {
        1
    } else {
        0
    };
    lemma_encode_bits(
        from as u32,
        to as u32,
        piece.tag() as u32,
        color.tag() as u32,
        captured.tag() as u32,
        promo,
    );
}

/// Packs the fields of a move.
pub(crate) fn pack_move(
    from_pos: u8,
    to_pos: u8,
    piece: Piece,
    color: Color,
    captured_piece: Piece,
    is_promotion: bool,
) -> (r: EncodedMove)
    requires
        from_pos <= 63,
        to_pos <= 63,
    ensures
        r == encode_spec(from_pos as int, to_pos as int, piece, color, captured_piece, is_promotion),
{
    let promo: u32 = if is_promotion {
        1
    } else {
        0
    };
    let piece_tag = piece.index() as u32;
    let color_tag = color.index() as u32;
    let captured_tag = captured_piece.index() as u32;
    proof {
        lemma_encode_bits(from_pos as u32, to_pos as u32, piece_tag, color_tag, captured_tag, promo);
    }
    ((from_pos as u32) & 63) | (((to_pos as u32) & 63) << 6) | ((piece_tag & 7) << 12) | (color_tag
        << 15) | (captured_tag << 16) | (promo << 19)
}

/// The position as a mathematical value: what [`BoardState`] stands for.
pub struct Position {
    /// The squares of each kind of piece, by side tag and kind tag.
    pub pieces: Seq<Seq<u64>>,
    /// The squares of all the pieces of each side, by side tag.
    pub by_side: Seq<u64>,
    /// The squares of all the pieces.
    pub occupied: u64,
    pub to_move: Color,
    /// Castling rights by side tag and wing (0 the king's wing, 1 the
    /// queen's): empty when the right is lost, else the home square of the
    /// rook.
    pub castling: Seq<Seq<u64>>,
    /// Empty, or the square a pawn passed over on its two-square advance.
    pub en_passant: u64,
    /// 0 before white's half of a move, 1 before black's.
    pub halfmove: int,
    pub fullmove: int,
    /// The moves made and not taken back, oldest first.
    pub history: Seq<u32>,
}

/// Replaces entry `j` of row `i`.
pub open spec fn put(rows: Seq<Seq<u64>>, i: int, j: int, v: u64) -> Seq<Seq<u64>> {
    rows.update(i, rows[i].update(j, v))
}

/// The home square of the rook of `side` on `wing`.
pub open spec fn rook_home(side: Color, wing: int) -> int {
    match side {
        Color::White => if wing == 0 {
            63
        } else {
            56
        },
        Color::Black => if wing == 0 {
            0
        } else {
            7
        },
    }
}

/// A pawn move of two squares from the home row.
pub open spec fn double_advance(side: Color, from: int, to: int) -> bool {
    match side {
        Color::White => 48 <= from <= 55 && to == from - 16,
        Color::Black => 8 <= from <= 15 && to == from + 16,
    }
}

/// The row where a two-square advance of `side` lands.
pub open spec fn on_landing_row(side: Color, sq: int) -> bool {
    match side {
        Color::White => 32 <= sq <= 39,
        Color::Black => 24 <= sq <= 31,
    }
}

/// The square right behind `sq`, as `side` sees the board.
pub open spec fn square_behind(side: Color, sq: int) -> int {
    match side {
        Color::White => sq + 8,
        Color::Black => sq - 8,
    }
}

/// The square right ahead of `sq`, as `side` sees the board.
pub open spec fn square_ahead(side: Color, sq: int) -> int {
    match side {
        Color::White => sq - 8,
        Color::Black => sq + 8,
    }
}

/// A packed move that `make_move` can carry out: it can be read, and the
/// moving kind is a real kind.
pub open spec fn movable(m: u32) -> bool {
    decodable(m) && piece_field(m) != 6
}

impl Position {
    /// The rows have the lengths that the side and kind tags index.
    pub open spec fn shaped(self) -> bool {
        &&& self.pieces.len() == 2
        &&& self.pieces[0].len() == 6
        &&& self.pieces[1].len() == 6
        &&& self.by_side.len() == 2
        &&& self.castling.len() == 2
        &&& self.castling[0].len() == 2
        &&& self.castling[1].len() == 2
    }

    pub open spec fn piece_set(self, side: Color, kind: Piece) -> u64 {
        self.pieces[side.tag()][kind.tag()]
    }

    pub open spec fn side_set(self, side: Color) -> u64 {
        self.by_side[side.tag()]
    }

    /// The kind of the piece of `side` that stands on a square of `target`:
    /// the first kind, in tag order, whose set meets `target`; `Empty` when
    /// none does.
    pub open spec fn occupant(self, side: Color, target: u64) -> Piece {
        if self.piece_set(side, Piece::Pawn) & target != 0 {
            Piece::Pawn
        } else if self.piece_set(side, Piece::Knight) & target != 0 {
            Piece::Knight
        } else if self.piece_set(side, Piece::Bishop) & target != 0 {
            Piece::Bishop
        } else if self.piece_set(side, Piece::Rook) & target != 0 {
            Piece::Rook
        } else if self.piece_set(side, Piece::Queen) & target != 0 {
            Piece::Queen
        } else if self.piece_set(side, Piece::King) & target != 0 {
            Piece::King
        } else {
            Piece::Empty
        }
    }

    /// The position after the move `m`, for a move that [`movable`] admits.
    ///
    /// The captured piece leaves its set; the moving piece leaves `from` and
    /// lands on `to`, in its own set and in the set of its side; `to` leaves
    /// the set of the other side. A king move gives up both castling
    /// rights of its side, a rook move from a home square the right of that
    /// wing. A two-square pawn advance from the home row sets the en-passant
    /// square to the square passed over; any other move clears it. The move
    /// goes on the stack, and the half-move flag flips: from 1 it goes to 0,
    /// white is to move and the move counter goes up; from anything else it
    /// goes to 1 and black is to move.
    pub open spec fn make_spec(self, m: u32) -> Position {
        let (from, to, piece, side, captured, _) = decode_spec(m);
        let us = side.tag();
        let them = side.other().tag();
        let from_bit = square_bit(from as int);
        let to_bit = square_bit(to as int);
        let pieces1 = if captured != Piece::Empty {
            put(self.pieces, them, captured.tag(), self.pieces[them][captured.tag()] & !to_bit)
        } else {
            self.pieces
        };
        let pieces2 = put(
            pieces1,
            us,
            piece.tag(),
            moved(pieces1[us][piece.tag()], from as int, to as int),
        );
        let own = moved(self.by_side[us], from as int, to as int);
        let others = self.by_side[them] & !to_bit;
        let castling = if piece == Piece::King {
            put(put(self.castling, us, 0, 0), us, 1, 0)
        } else if piece == Piece::Rook {
            if from == rook_home(side, 0) {
                put(self.castling, us, 0, 0)
            } else if from == rook_home(side, 1) {
                put(self.castling, us, 1, 0)
            } else {
                self.castling
            }
        } else {
            self.castling
        };
        Position {
            pieces: pieces2,
            by_side: self.by_side.update(us, own).update(them, others),
            occupied: own | others,
            to_move: if self.halfmove == 1 {
                Color::White
            } else {
                Color::Black
            },
            castling,
            en_passant: if piece == Piece::Pawn && double_advance(side, from as int, to as int) {
                square_bit(square_ahead(side, from as int))
            } else {
                0
            },
            halfmove: if self.halfmove == 1 {
                0
            } else {
                1
            },
            fullmove: if self.halfmove == 1 {
                self.fullmove + 1
            } else {
                self.fullmove
            },
            history: self.history.push(m),
        }
    }

    /// The position after the last move is taken back, for a position whose
    /// stack is not empty and whose last move [`movable`] admits.
    ///
    /// The moving piece leaves `to` and stands on `from` again, and the
    /// captured piece, if any, stands on `to` again. After a pawn move that
    /// started on the row where two-square advances land, the en-passant
    /// square is the square behind `from`; after any other move it is empty.
    /// After a rook move from a home square the castling right of that wing
    /// is that square; after a king move each right of the side is there
    /// exactly when a rook of the side stands on the home square. The move
    /// leaves the stack, the half-move flag flips back (and the move counter
    /// goes down when the flag was 0), and the side to move changes.
    pub open spec fn undo_spec(self) -> Position {
        let m = self.history.last();
        let (from, to, piece, side, captured, _) = decode_spec(m);
        let us = side.tag();
        let them = side.other().tag();
        let from_bit = square_bit(from as int);
        let to_bit = square_bit(to as int);
        let castling = if piece == Piece::King {
            put(
                put(
                    self.castling,
                    us,
                    0,
                    self.pieces[us][Piece::Rook.tag()] & square_bit(rook_home(side, 0)),
                ),
                us,
                1,
                self.pieces[us][Piece::Rook.tag()] & square_bit(rook_home(side, 1)),
            )
        } else if piece == Piece::Rook {
            if from == rook_home(side, 0) {
                put(self.castling, us, 0, from_bit)
            } else if from == rook_home(side, 1) {
                put(self.castling, us, 1, from_bit)
            } else {
                self.castling
            }
        } else {
            self.castling
        };
        let pieces1 = put(
            self.pieces,
            us,
            piece.tag(),
            moved(self.pieces[us][piece.tag()], to as int, from as int),
        );
        let own = moved(self.by_side[us], to as int, from as int);
        let pieces2 = if captured != Piece::Empty {
            put(pieces1, them, captured.tag(), pieces1[them][captured.tag()] | to_bit)
        } else {
            pieces1
        };
        let others = if captured != Piece::Empty {
            self.by_side[them] | to_bit
        } else {
            self.by_side[them]
        };
        Position {
            pieces: pieces2,
            by_side: self.by_side.update(us, own).update(them, others),
            occupied: own | others,
            to_move: self.to_move.other(),
            castling,
            en_passant: if piece == Piece::Pawn && on_landing_row(side, from as int) {
                square_bit(square_behind(side, from as int))
            } else {
                0
            },
            halfmove: if self.halfmove == 0 {
                1
            } else {
                0
            },
            fullmove: if self.halfmove == 0 {
                self.fullmove - 1
            } else {
                self.fullmove
            },
            history: self.history.drop_last(),
        }
    }
}

/// The position of a game: where the pieces stand, who is to move, what
/// rights are left, and the stack of the moves made.
#[derive(Debug, Clone, PartialEq, Eq)]
pub struct BoardState {
    pub bb_pieces: [[Bitboard; 6]; 2],
    pub bb_colors: [Bitboard; 2],
    pub bb_fullboard: Bitboard,
    pub to_move: Color,
    pub bb_castling_rigths: [[Bitboard; 2]; 2],
    pub bb_en_passant: Bitboard,
    pub halfmove: u32,
    pub fullmove: u32,
    pub move_history: Vec<EncodedMove>,
}

impl View for BoardState {
    type V = Position;

    open spec fn view(&self) -> Position {
        Position {
            pieces: Seq::new(2, |c: int| self.bb_pieces[c]@),
            by_side: self.bb_colors@,
            occupied: self.bb_fullboard,
            to_move: self.to_move,
            castling: Seq::new(2, |c: int| self.bb_castling_rigths[c]@),
            en_passant: self.bb_en_passant,
            halfmove: self.halfmove as int,
            fullmove: self.fullmove as int,
            history: self.move_history@,
        }
    }
}

impl BoardState {
    /// Packs a move. The square indices must not exceed 63.
    pub fn encode_move(
        &self,
        from_pos: u8,
        to_pos: u8,
        piece: Piece,
        color: Color,
        captured_piece: Piece,
        is_promotion: bool,
    ) -> (r: Result<EncodedMove, ChessError>)
        ensures
            from_pos <= 63 && to_pos <= 63 ==> r == Ok::<EncodedMove, ChessError>(
                encode_spec(
                    from_pos as int,
                    to_pos as int,
                    piece,
                    color,
                    captured_piece,
                    is_promotion,
                ) as u32,
            ),
            from_pos > 63 || to_pos > 63 ==> r == Err::<EncodedMove, ChessError>(
                ChessError::InvalidMoveEncoding,
            ),
    {
        if from_pos > 63 || to_pos > 63 {
            return Err(ChessError::InvalidMoveEncoding);
        }
        Ok(pack_move(from_pos, to_pos, piece, color, captured_piece, is_promotion))
    }

    /// Reads a packed move. A tag of 7 in either kind field names no kind.
    pub fn decode_move(&self, piece_move: EncodedMove) -> (r: Result<DecodedMove, ChessError>)
        ensures
            decodable(piece_move) ==> r == Ok::<DecodedMove, ChessError>(decode_spec(piece_move)),
            !decodable(piece_move) ==> r == Err::<DecodedMove, ChessError>(
                ChessError::InvalidMoveEncoding,
            ),
    {
        proof {
            lemma_decode_bits(piece_move);
        }
        let from: u8 = (piece_move & 63) as u8;
        let to: u8 = ((piece_move >> 6) & 63) as u8;
        let piece = match number_to_piece((piece_move >> 12) & 7) {
            Ok(p) => p,
            Err(_) => {
                return Err(ChessError::InvalidMoveEncoding);
            },
        };
        let color = match number_to_color((piece_move >> 15) & 1) {
            Ok(c) => c,
            Err(_) => {
                return Err(ChessError::InvalidMoveEncoding);
            },
        };
        let captured_piece = match number_to_piece((piece_move >> 16) & 7) {
            Ok(p) => p,
            Err(_) => {
                return Err(ChessError::InvalidMoveEncoding);
            },
        };
        let is_promotion = (piece_move >> 19) & 1 == 1;
        Ok((from, to, piece, color, captured_piece, is_promotion))
    }

    pub fn get_piece_bb(&self, color: Color, piece: Piece) -> (r: Bitboard)
        requires
            piece != Piece::Empty,
        ensures
            r == self@.piece_set(color, piece),
    {
        self.bb_pieces[color.index()][piece.index()]
    }

    pub fn get_color_bb(&self, color: Color) -> (r: Bitboard)
        ensures
            r == self@.side_set(color),
    {
        self.bb_colors[color.index()]
    }

    /// The kind of the piece of `side` on a square of `to_bb`, `Empty` when
    /// there is none.
    pub fn piece_on(&self, side: Color, to_bb: Bitboard) -> (r: Piece)
        ensures
            r == self@.occupant(side, to_bb),
    {
        let row = side.index();
        if self.bb_pieces[row][0] & to_bb != 0 {
            Piece::Pawn
        } else if self.bb_pieces[row][1] & to_bb != 0 {
            Piece::Knight
        } else if self.bb_pieces[row][2] & to_bb != 0 {
            Piece::Bishop
        } else if self.bb_pieces[row][3] & to_bb != 0 {
            Piece::Rook
        } else if self.bb_pieces[row][4] & to_bb != 0 {
            Piece::Queen
        } else if self.bb_pieces[row][5] & to_bb != 0 {
            Piece::King
        } else {
            Piece::Empty
        }
    }

    /// What the side to move captures on a square of `to_bb`.
    pub fn get_captured_piece(&self, to_bb: Bitboard) -> (r: Piece)
        ensures
            r == self@.occupant(self@.to_move.other(), to_bb),
    {
        self.piece_on(opposite_color(self.to_move), to_bb)
    }
}

/// The home square of the rook of `side` on `wing`.
fn rook_home_square(side: Color, wing: usize) -> (r: u8)
    ensures
        r == rook_home(side, wing as int),
        r < 64,
{
    match side {
        Color::White => if wing == 0 {
            63
        } else {
            56
        },
        Color::Black => if wing == 0 {
            0
        } else {
            7
        },
    }
}

impl BoardState {
    /// Makes a move on the board and puts it on the stack.
    ///
    /// A packed move that cannot be read, or whose moving kind is `Empty`,
    /// is refused and the position stays as it is. A move that the board
    /// admits and that captures no king keeps the invariant of the position.
    #[verifier::rlimit(50)]
    pub fn make_move(&mut self, piece_move: EncodedMove) -> (r: Result<(), ChessError>)
        requires
            movable(piece_move) && old(self).halfmove == 1 ==> old(self).fullmove < u32::MAX,
        ensures
            movable(piece_move) ==> r.is_ok() && final(self)@ == old(self)@.make_spec(piece_move),
            !movable(piece_move) ==> r == Err::<(), ChessError>(ChessError::InvalidMoveEncoding)
                && *final(self) == *old(self),
            old(self)@.wf() && old(self)@.admits(piece_move) ==> final(self)@.wf(),
    {
        proof {
            if old(self)@.wf() && old(self)@.admits(piece_move) {
                lemma_make_keeps_wf(old(self)@, piece_move);
            }
        }
        let (from, to, piece, color, captured_piece, _) = match self.decode_move(piece_move) {
            Ok(fields) => fields,
            Err(e) => {
                return Err(e);
            },
        };
        if piece == Piece::Empty {
            return Err(ChessError::InvalidMoveEncoding);
        }
        let start_bb = square_mask(from);
        let end_bb = square_mask(to);
        let us = color.index();
        let them = opposite_color(color).index();
        let kind = piece.index();

        if captured_piece != Piece::Empty {
            let taken = captured_piece.index();
            self.bb_pieces[them][taken] = self.bb_pieces[them][taken] & !end_bb;
        }
        self.bb_colors[us] = (self.bb_colors[us] & !start_bb) | end_bb;
        self.bb_colors[them] = self.bb_colors[them] & !end_bb;
        self.bb_fullboard = self.bb_colors[us] | self.bb_colors[them];

        match piece {
            Piece::King => {
                self.bb_castling_rigths[us][0] = 0;
                self.bb_castling_rigths[us][1] = 0;
            },
            Piece::Rook => {
                if from == rook_home_square(color, 0) {
                    self.bb_castling_rigths[us][0] = 0;
                } else if from == rook_home_square(color, 1) {
                    self.bb_castling_rigths[us][1] = 0;
                }
            },
            _ => {},
        }
        self.bb_en_passant = 0;
        if piece == Piece::Pawn {
            match color {
                Color::White => {
                    if 48 <= from && from <= 55 && to + 16 == from {
                        self.bb_en_passant = square_mask(from - 8);
                    }
                },
                Color::Black => {
                    if 8 <= from && from <= 15 && to == from + 16 {
                        self.bb_en_passant = square_mask(from + 8);
                    }
                },
            }
        }
        self.bb_pieces[us][kind] = (self.bb_pieces[us][kind] & !start_bb) | end_bb;
        self.move_history.push(piece_move);

        if self.halfmove == 1 {
            self.to_move = Color::White;
            self.halfmove = 0;
            self.fullmove = self.fullmove + 1;
        } else {
            self.to_move = Color::Black;
            self.halfmove = 1;
        }
        proof {
            let after = old(self)@.make_spec(piece_move);
            assert(self@.pieces =~~= after.pieces);
            assert(self@.by_side =~= after.by_side);
            assert(self@.castling =~~= after.castling);
        }
        Ok(())
    }

    /// Takes the last move back.
    ///
    /// With an empty stack this is `EmptyHistory`; with a last entry that
    /// `make_move` would have refused it is `InvalidMoveEncoding`. Either
    /// way the position stays as it is. Taking back keeps the invariant of
    /// the position, and on a position with the invariant it only fails for
    /// an empty stack.
    #[verifier::rlimit(50)]
    pub fn undo_move(&mut self) -> (r: Result<(), ChessError>)
        requires
            old(self).move_history.len() > 0 && movable(old(self).move_history@.last()) && old(
                self,
            ).halfmove == 0 ==> old(self).fullmove > 0,
        ensures
            old(self).move_history.len() == 0 ==> r == Err::<(), ChessError>(
                ChessError::EmptyHistory,
            ) && *final(self) == *old(self),
            old(self).move_history.len() > 0 && !movable(old(self).move_history@.last()) ==> r
                == Err::<(), ChessError>(ChessError::InvalidMoveEncoding) && *final(self) == *old(
                self,
            ),
            old(self).move_history.len() > 0 && movable(old(self).move_history@.last())
                ==> r.is_ok() && final(self)@ == old(self)@.undo_spec(),
            old(self)@.wf() ==> final(self)@.wf(),
            old(self)@.wf() && old(self).move_history.len() > 0 ==> r.is_ok(),
    {
        proof {
            if old(self)@.wf() && old(self).move_history.len() > 0 {
                lemma_undo_keeps_wf(old(self)@);
            }
        }
        let depth = self.move_history.len();
        if depth == 0 {
            return Err(ChessError::EmptyHistory);
        }
        let last_move = self.move_history[depth - 1];
        let (from, to, piece, color, captured_piece, _) = match self.decode_move(last_move) {
            Ok(fields) => fields,
            Err(e) => {
                return Err(e);
            },
        };
        if piece == Piece::Empty {
            return Err(ChessError::InvalidMoveEncoding);
        }
        self.move_history.pop();
        let start_bb = square_mask(from);
        let end_bb = square_mask(to);
        let us = color.index();
        let them = opposite_color(color).index();
        let kind = piece.index();

        self.bb_en_passant = 0;
        match piece {
            Piece::Pawn => {
                match color {
                    Color::White => {
                        if 32 <= from && from <= 39 {
                            self.bb_en_passant = square_mask(from + 8);
                        }
                    },
                    Color::Black => {
                        if 24 <= from && from <= 31 {
                            self.bb_en_passant = square_mask(from - 8);
                        }
                    },
                }
            },
            Piece::Rook => {
                if from == rook_home_square(color, 0) {
                    self.bb_castling_rigths[us][0] = start_bb;
                } else if from == rook_home_square(color, 1) {
                    self.bb_castling_rigths[us][1] = start_bb;
                }
            },
            Piece::King => {
                let rooks = self.bb_pieces[us][3];
                self.bb_castling_rigths[us][0] = rooks & square_mask(rook_home_square(color, 0));
                self.bb_castling_rigths[us][1] = rooks & square_mask(rook_home_square(color, 1));
            },
            _ => {},
        }
        self.bb_pieces[us][kind] = (self.bb_pieces[us][kind] & !end_bb) | start_bb;
        self.bb_colors[us] = (self.bb_colors[us] & !end_bb) | start_bb;
        if captured_piece != Piece::Empty {
            let taken = captured_piece.index();
            self.bb_pieces[them][taken] = self.bb_pieces[them][taken] | end_bb;
            self.bb_colors[them] = self.bb_colors[them] | end_bb;
        }
        self.bb_fullboard = self.bb_colors[us] | self.bb_colors[them];

        if self.halfmove == 0 {
            self.halfmove = 1;
            self.fullmove = self.fullmove - 1;
        } else {
            self.halfmove = 0;
        }
        self.to_move = opposite_color(self.to_move);
        proof {
            let after = old(self)@.undo_spec();
            assert(self@.pieces =~~= after.pieces);
            assert(self@.by_side =~= after.by_side);
            assert(self@.castling =~~= after.castling);
            assert(self@.history =~= after.history);
        }
        Ok(())
    }
}

} // verus!
