//! Setting up a position from its parts, and checking that it is one that a
//! game can start from.
use crate::bits::count_squares;
use crate::bits::holds;
use crate::bits::lemma_count_below_empty;
use crate::bits::lowest_square_index;
use crate::bits::square_bit;
use crate::bits::square_mask;
use crate::bits::test_square;
use crate::bits::Bitboard;
use crate::board::BoardState;
use crate::board::Position;
use crate::magic::AttackTables;
use crate::sets::lemma_rows_disjoint_unions;
use crate::sets::lemma_single_holds;
use crate::sets::lemma_single_member;
use crate::sets::row_disjoint;
use crate::sets::union_of_row;
use crate::utils::opposite_color;
use crate::utils::Color;
use vstd::prelude::*;

verus! {

/// The union of the six sets of a row.
fn union_row(row: &[Bitboard; 6]) -> (r: Bitboard)
    ensures
        r == union_of_row(row@),
{
    row[0] | row[1] | row[2] | row[3] | row[4] | row[5]
}

/// Whether no two sets of a row share a square.
fn row_is_disjoint(row: &[Bitboard; 6]) -> (r: bool)
    ensures
        r == row_disjoint(row@),
{
    let mut i: usize = 0;
    while i < 6
        invariant
            i <= 6,
            forall|a: int, b: int|
                0 <= a < i && 0 <= b < 6 && a != b ==> #[trigger] (row@[a] & row@[b]) == 0,
        decreases 6 - i,
    {
        let mut j: usize = 0;
        while j < 6
            invariant
                i < 6,
                j <= 6,
                forall|a: int, b: int|
                    0 <= a < i && 0 <= b < 6 && a != b ==> #[trigger] (row@[a] & row@[b]) == 0,
                forall|b: int| 0 <= b < j && i != b ==> #[trigger] (row@[i as int] & row@[b]) == 0,
            decreases 6 - j,
        {
            if i != j && row[i] & row[j] != 0 {
                return false;
            }
            j += 1;
        }
        i += 1;
    }
    true
}

impl BoardState {
    /// Sets up a position from the twelve piece sets, the side to move, the
    /// castling rights, the en-passant set and the two counters. The set of
    /// each side and the occupied set are the unions of the piece sets, and
    /// the stack is empty.
    pub fn from_external_state(
        bb_pieces: [[Bitboard; 6]; 2],
        to_move: Color,
        bb_castling_rigths: [[Bitboard; 2]; 2],
        bb_en_passant: Bitboard,
        halfmove: u32,
        fullmove: u32,
    ) -> (r: BoardState)
        ensures
            r.bb_pieces == bb_pieces,
            r.to_move == to_move,
            r.bb_castling_rigths == bb_castling_rigths,
            r.bb_en_passant == bb_en_passant,
            r.halfmove == halfmove,
            r.fullmove == fullmove,
            r.move_history@.len() == 0,
            r@.by_side[0] == union_of_row(r@.pieces[0]),
            r@.by_side[1] == union_of_row(r@.pieces[1]),
            r@.occupied == r@.by_side[0] | r@.by_side[1],
    {
        let white = union_row(&bb_pieces[0]);
        let black = union_row(&bb_pieces[1]);
        BoardState {
            bb_pieces,
            bb_colors: [white, black],
            bb_fullboard: white | black,
            to_move,
            bb_castling_rigths,
            bb_en_passant,
            halfmove,
            fullmove,
            move_history: Vec::new(),
        }
    }

    /// Whether the en-passant set is empty, or one square right behind a
    /// pawn on the row where two-square advances land.
    pub(crate) fn en_passant_is_ok(&self) -> (r: bool)
        ensures
            r == self@.en_passant_ok(),
    {
        let ep = self.bb_en_passant;
        if ep == 0 {
            proof {
                lemma_count_below_empty(64);
                assert forall|sq: int| !#[trigger] holds(ep, sq) by {
                    lemma_single_holds(0, sq);
                }
            }
            return true;
        }
        proof {
            crate::bits::lemma_lowest_square(ep);
            crate::bits::lemma_count_below_member(ep, crate::bits::lowest_square(ep), 64);
        }
        if count_squares(ep) != 1 {
            return false;
        }
        let sq = lowest_square_index(ep);
        proof {
            lemma_single_member(ep, sq as int);
            assert forall|other: int| #[trigger] holds(ep, other) == (other == sq) by {
                lemma_single_holds(sq as int, other);
            }
        }
        if 40 <= sq && sq <= 47 {
            test_square(self.bb_pieces[0][0], sq - 8)
        } else if 16 <= sq && sq <= 23 {
            test_square(self.bb_pieces[1][0], sq + 8)
        } else {
            false
        }
    }

    /// Whether each castling right is empty or the home square of its rook.
    fn castling_is_ok(&self) -> (r: bool)
        ensures
            r == self@.castling_ok(),
    {
        let c = &self.bb_castling_rigths;
        let a = c[0][0] == 0 || c[0][0] == square_mask(63);
        let b = c[0][1] == 0 || c[0][1] == square_mask(56);
        let d = c[1][0] == 0 || c[1][0] == square_mask(0);
        let e = c[1][1] == 0 || c[1][1] == square_mask(7);
        proof {
            if a && b && d && e {
                assert forall|s: Color, wing: int| 0 <= wing < 2 implies #[trigger] self@.castling[s.tag()][wing]
                    == 0 || self@.castling[s.tag()][wing] == square_bit(
                    crate::board::rook_home(s, wing),
                ) by {}
            } else if !a {
                assert(self@.castling[Color::White.tag()][0] == c[0][0]);
            } else if !b {
                assert(self@.castling[Color::White.tag()][1] == c[0][1]);
            } else if !d {
                assert(self@.castling[Color::Black.tag()][0] == c[1][0]);
            } else {
                assert(self@.castling[Color::Black.tag()][1] == c[1][1]);
            }
        }
        a && b && d && e
    }

    /// Whether this is a position with the invariant and an empty stack.
    pub fn is_valid_start(&self) -> (r: bool)
        ensures
            r == (self@.wf() && self@.history.len() == 0),
    {
        proof {
            reveal(Position::wf);
        }
        if self.move_history.len() != 0 {
            return false;
        }
        let white = union_row(&self.bb_pieces[0]);
        let black = union_row(&self.bb_pieces[1]);
        proof {
            lemma_rows_disjoint_unions(self@.pieces[0], self@.pieces[1]);
        }
        let coherent = row_is_disjoint(&self.bb_pieces[0]) && row_is_disjoint(&self.bb_pieces[1])
            && white & black == 0 && self.bb_colors[0] == white && self.bb_colors[1] == black
            && self.bb_fullboard == white | black;
        let kings = count_squares(self.bb_pieces[0][5]) == 1 && count_squares(
            self.bb_pieces[1][5],
        ) == 1;
        coherent && kings && self.en_passant_is_ok() && self.castling_is_ok() && self.halfmove <= 1
    }

    /// Whether this is a position to search from, with an empty stack: it
    /// has the invariant, the side to move goes with the half-move flag, the
    /// side that is not to move is not in check, and no piece of the side
    /// to move stands on the en-passant square.
    pub fn is_playable(&self, tables: &AttackTables) -> (r: bool)
        requires
            tables.wf(),
        ensures
            r == (self@.playable() && self@.history.len() == 0),
    {
        if !self.is_valid_start() {
            return false;
        }
        let turn = match self.to_move {
            Color::White => self.halfmove == 0,
            Color::Black => self.halfmove != 0,
        };
        let waiting = opposite_color(self.to_move);
        turn && !self.is_in_check(tables, &waiting) && self.bb_en_passant & self.get_color_bb(
            self.to_move,
        ) == 0
    }
}

} // verus!
