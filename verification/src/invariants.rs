//! What holds of every position of a game, and why making and taking back
//! moves keeps it so.
use crate::bits::holds;
use crate::bits::lemma_count_below_empty;
use crate::bits::lemma_count_below_single;
use crate::bits::lemma_union_laws;
use crate::bits::popcount;
use crate::bits::square_bit;
use crate::board::decode_spec;
use crate::board::double_advance;
use crate::board::movable;
use crate::board::on_landing_row;
use crate::board::rook_home;
use crate::board::square_ahead;
use crate::board::square_behind;
use crate::board::Position;
use crate::sets::lemma_meet_with_square;
use crate::sets::lemma_moved_holds;
use crate::sets::lemma_moved_single;
use crate::sets::lemma_out_and_in;
use crate::sets::lemma_row_disjoint_after_clear;
use crate::sets::lemma_row_disjoint_after_move;
use crate::sets::lemma_row_disjoint_after_put;
use crate::sets::lemma_rows_disjoint_unions;
use crate::sets::lemma_sides_after_move;
use crate::sets::lemma_sides_after_undo;
use crate::sets::lemma_single_holds;
use crate::sets::lemma_single_member;
use crate::sets::lemma_there_and_back;
use crate::sets::lemma_union_after_clear;
use crate::sets::lemma_union_after_move;
use crate::sets::lemma_union_after_put;
use crate::sets::lemma_union_of_row_holds;
use crate::sets::moved;
use crate::sets::row_disjoint;
use crate::sets::rows_disjoint;
use crate::sets::union_of_row;
use crate::utils::Color;
use crate::utils::Piece;
use vstd::prelude::*;

verus! {

impl Position {
    /// A piece of `side` and `kind` stands on `sq`.
    pub open spec fn stands(self, side: Color, kind: Piece, sq: int) -> bool {
        kind != Piece::Empty && holds(self.piece_set(side, kind), sq)
    }

    /// No two of the twelve piece sets share a square, the set of each side
    /// is the union of its six piece sets, and the occupied set is the
    /// union of the two sides.
    pub open spec fn coherent(self) -> bool {
        &&& self.shaped()
        &&& row_disjoint(self.pieces[0])
        &&& row_disjoint(self.pieces[1])
        &&& rows_disjoint(self.pieces[0], self.pieces[1])
        &&& self.by_side[0] == union_of_row(self.pieces[0])
        &&& self.by_side[1] == union_of_row(self.pieces[1])
        &&& self.occupied == self.by_side[0] | self.by_side[1]
    }

    /// Each side has exactly one king.
    pub open spec fn one_king_each(self) -> bool {
        &&& popcount(self.piece_set(Color::White, Piece::King)) == 1
        &&& popcount(self.piece_set(Color::Black, Piece::King)) == 1
    }

    /// The en-passant set holds at most one square, and that square lies
    /// right behind a pawn on the row where two-square advances land.
    pub open spec fn en_passant_ok(self) -> bool {
        &&& popcount(self.en_passant) <= 1
        &&& forall|sq: int| #[trigger]
            holds(self.en_passant, sq) ==> (40 <= sq <= 47 && self.stands(
                Color::White,
                Piece::Pawn,
                sq - 8,
            )) || (16 <= sq <= 23 && self.stands(Color::Black, Piece::Pawn, sq + 8))
    }

    /// Each castling right is empty or the home square of its rook.
    pub open spec fn castling_ok(self) -> bool {
        forall|s: Color, wing: int|
            0 <= wing < 2 ==> #[trigger] self.castling[s.tag()][wing] == 0
                || self.castling[s.tag()][wing] == square_bit(rook_home(s, wing))
    }

    /// The half-move flag is 0 or 1, and the counters have room for taking
    /// back every move on the stack.
    pub open spec fn counters_ok(self) -> bool {
        &&& 0 <= self.halfmove <= 1
        &&& 0 <= self.fullmove
        &&& self.history.len() <= 2 * self.fullmove + self.halfmove
    }

    /// The board admits the move `m`: the moving piece stands on `from`,
    /// no friendly piece stands on `to`, and the captured kind is what the
    /// other side has on `to`.
    pub open spec fn fits(self, m: u32) -> bool {
        let (from, to, piece, side, captured, _) = decode_spec(m);
        &&& movable(m)
        &&& self.stands(side, piece, from as int)
        &&& !holds(self.side_set(side), to as int)
        &&& captured == self.occupant(side.other(), square_bit(to as int))
    }

    /// The board admits the move `m`, and `m` does not capture a king.
    pub open spec fn admits(self, m: u32) -> bool {
        self.fits(m) && decode_spec(m).4 != Piece::King
    }

    /// The last move on the stack can be taken back: its piece stands on
    /// `to`, `from` is free, and `to` is free of the other side if the move
    /// captured. A move that captured a king cannot.
    pub open spec fn revertible(self) -> bool {
        let (from, to, piece, side, captured, _) = decode_spec(self.history.last());
        &&& self.history.len() > 0
        &&& movable(self.history.last())
        &&& self.stands(side, piece, to as int)
        &&& !holds(self.occupied, from as int)
        &&& captured != Piece::King
        &&& captured != Piece::Empty ==> !holds(self.side_set(side.other()), to as int)
    }

    /// Every move on the stack can be taken back in its turn.
    pub open spec fn history_ok(self) -> bool
        decreases self.history.len(),
    {
        self.history.len() > 0 ==> self.revertible() && self.undo_spec().history_ok()
    }

    /// The invariant of a position.
    #[verifier::opaque]
    pub open spec fn wf(self) -> bool {
        &&& self.coherent()
        &&& self.one_king_each()
        &&& self.en_passant_ok()
        &&& self.castling_ok()
        &&& self.counters_ok()
        &&& self.history_ok()
    }

    /// Two positions with the same pieces, counters and stack. They may
    /// differ in the en-passant square and the castling rights.
    pub open spec fn same_board(self, other: Position) -> bool {
        &&& self.pieces == other.pieces
        &&& self.by_side == other.by_side
        &&& self.occupied == other.occupied
        &&& self.to_move == other.to_move
        &&& self.halfmove == other.halfmove
        &&& self.fullmove == other.fullmove
        &&& self.history == other.history
    }

    /// White is to move exactly when the half-move flag is 0.
    pub open spec fn turn_ok(self) -> bool {
        (self.to_move == Color::White) == (self.halfmove == 0)
    }

    /// Taking `m` back after making it gives the en-passant square and the
    /// castling rights that were there: the en-passant set is what taking
    /// back a move from `from` leaves, and a castling right that the move
    /// gives up is one that taking back restores.
    pub open spec fn restorable(self, m: u32) -> bool {
        let (from, to, piece, side, captured, _) = decode_spec(m);
        let us = side.tag();
        &&& self.turn_ok()
        &&& self.en_passant == if piece == Piece::Pawn && on_landing_row(side, from as int) {
            square_bit(square_behind(side, from as int))
        } else {
            0
        }
        &&& piece == Piece::King ==> forall|wing: int|
            0 <= wing < 2 ==> #[trigger] self.castling[us][wing] == self.piece_set(
                side,
                Piece::Rook,
            ) & square_bit(rook_home(side, wing))
        &&& piece == Piece::Rook ==> forall|wing: int|
            0 <= wing < 2 && from == rook_home(side, wing) ==> #[trigger] self.castling[us][wing]
                == square_bit(from as int)
    }
}

/// What a side has on a square is the one kind that stands there.
pub proof fn lemma_occupant(p: Position, side: Color, sq: int)
    requires
        p.shaped(),
        0 <= sq < 64,
    ensures
        p.occupant(side, square_bit(sq)) != Piece::Empty ==> p.stands(
            side,
            p.occupant(side, square_bit(sq)),
            sq,
        ),
        p.occupant(side, square_bit(sq)) == Piece::Empty ==> !holds(
            union_of_row(p.pieces[side.tag()]),
            sq,
        ),
{
    let row = p.pieces[side.tag()];
    lemma_meet_with_square(row[0], sq);
    lemma_meet_with_square(row[1], sq);
    lemma_meet_with_square(row[2], sq);
    lemma_meet_with_square(row[3], sq);
    lemma_meet_with_square(row[4], sq);
    lemma_meet_with_square(row[5], sq);
    lemma_union_of_row_holds(row, sq);
}

/// Making a move that the board admits and taking it back leaves the
/// pieces, the counters and the stack as they were.
pub proof fn lemma_make_undo_board(p: Position, m: u32)
    requires
        p.coherent(),
        p.fits(m),
        0 <= p.halfmove <= 1,
    ensures
        p.make_spec(m).undo_spec().pieces == p.pieces,
        p.make_spec(m).undo_spec().by_side == p.by_side,
        p.make_spec(m).undo_spec().occupied == p.occupied,
        p.make_spec(m).undo_spec().halfmove == p.halfmove,
        p.make_spec(m).undo_spec().fullmove == p.fullmove,
        p.make_spec(m).undo_spec().history == p.history,
        p.turn_ok() ==> p.make_spec(m).undo_spec().to_move == p.to_move,
{
    let (from, to, piece, side, captured, _) = decode_spec(m);
    let made = p.make_spec(m);
    let back = made.undo_spec();
    let f = from as int;
    let t = to as int;
    let us = side.tag();
    let them = side.other().tag();
    assert(made.history.last() == m);
    assert(made.history.drop_last() =~= p.history);
    lemma_occupant(p, side.other(), t);
    lemma_union_of_row_holds(p.pieces[us], f);
    lemma_union_of_row_holds(p.pieces[us], t);
    lemma_union_of_row_holds(p.pieces[them], t);
    lemma_there_and_back(p.pieces[us][piece.tag()], f, t);
    lemma_there_and_back(p.by_side[us], f, t);
    lemma_out_and_in(p.by_side[them], t);
    if captured != Piece::Empty {
        lemma_out_and_in(p.pieces[them][captured.tag()], t);
    }
    assert(back.pieces =~~= p.pieces);
    assert(back.by_side =~= p.by_side);
    lemma_union_laws(p.by_side[0], p.by_side[1], 0);
}

/// Taking back a move right after making it gives the position back, the
/// depth of the stack included, when the board admits the move and the
/// en-passant square and castling rights are ones that taking back
/// restores.
pub proof fn lemma_undo_after_make(p: Position, m: u32)
    requires
        p.coherent(),
        p.fits(m),
        0 <= p.halfmove <= 1,
        p.restorable(m),
    ensures
        p.make_spec(m).undo_spec() == p,
{
    lemma_make_undo_board(p, m);
    let (from, to, piece, side, captured, _) = decode_spec(m);
    let made = p.make_spec(m);
    let back = made.undo_spec();
    let us = side.tag();
    assert(made.history.last() == m);
    assert(back.en_passant == p.en_passant);
    if piece == Piece::King {
        assert(made.pieces[us][Piece::Rook.tag()] == p.pieces[us][Piece::Rook.tag()]);
        assert(p.castling[us][0] == p.piece_set(side, Piece::Rook) & square_bit(rook_home(side, 0)));
        assert(p.castling[us][1] == p.piece_set(side, Piece::Rook) & square_bit(rook_home(side, 1)));
    }
    if piece == Piece::Rook {
        if from == rook_home(side, 0) {
            assert(p.castling[us][0] == square_bit(from as int));
        } else if from == rook_home(side, 1) {
            assert(p.castling[us][1] == square_bit(from as int));
        }
    }
    assert(back.castling =~~= p.castling);
}

/// Whether every move on the stack can be taken back depends on the
/// pieces and the stack alone.
pub proof fn lemma_history_ok_same_board(a: Position, b: Position)
    requires
        a.pieces == b.pieces,
        a.by_side == b.by_side,
        a.occupied == b.occupied,
        a.history == b.history,
    ensures
        a.history_ok() == b.history_ok(),
    decreases a.history.len(),
{
    if a.history.len() > 0 {
        assert(a.revertible() == b.revertible());
        lemma_history_ok_same_board(a.undo_spec(), b.undo_spec());
    }
}

/// Making a move that the board admits, and that captures no king, keeps
/// the invariant: each side still has one king, no two piece sets share a
/// square, and the derived sets are the unions they stand for.
pub proof fn lemma_make_keeps_wf(p: Position, m: u32)
    requires
        p.wf(),
        p.admits(m),
    ensures
        p.make_spec(m).wf(),
{
    let (from, to, piece, side, captured, _) = decode_spec(m);
    let made = p.make_spec(m);
    let f = from as int;
    let t = to as int;
    let us = side.tag();
    let them = side.other().tag();
    let k = piece.tag();
    let c = captured.tag();
    let row_us = p.pieces[us];
    let row_them = p.pieces[them];
    let own = p.by_side[us];
    let others = p.by_side[them];
    reveal(Position::wf);
    assert(made.history.last() == m);
    lemma_occupant(p, side.other(), t);
    lemma_union_of_row_holds(row_us, f);
    lemma_union_of_row_holds(row_us, t);
    lemma_rows_disjoint_unions(p.pieces[0], p.pieces[1]);
    lemma_union_laws(own, others, 0);
    lemma_union_laws(others, own, 0);
    lemma_sides_after_move(own, others, f, t);

    assert(made.coherent()) by {
        assert(made.pieces[us] == row_us.update(k, moved(row_us[k], f, t)));
        lemma_row_disjoint_after_move(row_us, k, f, t);
        lemma_union_after_move(row_us, k, f, t);
        if captured != Piece::Empty {
            assert(made.pieces[them] == row_them.update(c, row_them[c] & !square_bit(t)));
            lemma_row_disjoint_after_clear(row_them, c, t);
            lemma_union_after_clear(row_them, c, t);
        } else {
            assert(made.pieces[them] == row_them);
            lemma_out_and_in(others, t);
        }
        lemma_rows_disjoint_unions(made.pieces[0], made.pieces[1]);
        lemma_union_laws(made.by_side[0], made.by_side[1], 0);
    }
    assert(made.one_king_each()) by {
        if piece == Piece::King {
            lemma_single_member(row_us[k], f);
            lemma_moved_single(f, t);
            lemma_count_below_single(t, 64);
        }
    }
    assert(made.en_passant_ok()) by {
        if piece == Piece::Pawn && double_advance(side, f, t) {
            let e = square_ahead(side, f);
            lemma_count_below_single(e, 64);
            assert forall|sq: int| #[trigger] holds(made.en_passant, sq) implies (40 <= sq <= 47
                && made.stands(Color::White, Piece::Pawn, sq - 8)) || (16 <= sq <= 23
                && made.stands(Color::Black, Piece::Pawn, sq + 8)) by {
                lemma_single_holds(e, sq);
                lemma_moved_holds(row_us[k], f, t, t);
            }
        } else {
            lemma_count_below_empty(64);
            assert forall|sq: int| #[trigger] holds(made.en_passant, sq) implies false by {
                lemma_single_holds(0, sq);
            }
        }
    }
    assert(made.castling_ok());
    assert(made.counters_ok());
    assert(made.history_ok()) by {
        lemma_moved_holds(row_us[k], f, t, t);
        assert(made.revertible());
        lemma_make_undo_board(p, m);
        lemma_history_ok_same_board(made.undo_spec(), p);
    }
}

/// Taking back the last move keeps the invariant. On a position with the
/// invariant and a stack that is not empty, taking back is always possible.
pub proof fn lemma_undo_keeps_wf(p: Position)
    requires
        p.wf(),
        p.history.len() > 0,
    ensures
        movable(p.history.last()),
        p.halfmove == 0 ==> p.fullmove > 0,
        p.undo_spec().wf(),
{
    let (from, to, piece, side, captured, _) = decode_spec(p.history.last());
    let back = p.undo_spec();
    let f = from as int;
    let t = to as int;
    let us = side.tag();
    let them = side.other().tag();
    let k = piece.tag();
    let c = captured.tag();
    let row_us = p.pieces[us];
    let row_them = p.pieces[them];
    let own = p.by_side[us];
    let others = p.by_side[them];
    reveal(Position::wf);
    assert(p.revertible());
    lemma_union_of_row_holds(row_us, f);
    lemma_union_of_row_holds(row_us, t);
    lemma_rows_disjoint_unions(p.pieces[0], p.pieces[1]);
    lemma_union_laws(own, others, 0);
    lemma_union_laws(others, own, 0);
    lemma_sides_after_undo(own, others, f, t);

    assert(back.coherent()) by {
        assert(back.pieces[us] == row_us.update(k, moved(row_us[k], t, f)));
        lemma_row_disjoint_after_move(row_us, k, t, f);
        lemma_union_after_move(row_us, k, t, f);
        if captured != Piece::Empty {
            assert(back.pieces[them] == row_them.update(c, row_them[c] | square_bit(t)));
            lemma_row_disjoint_after_put(row_them, c, t);
            lemma_union_after_put(row_them, c, t);
        } else {
            assert(back.pieces[them] == row_them);
        }
        lemma_rows_disjoint_unions(back.pieces[0], back.pieces[1]);
        lemma_union_laws(back.by_side[0], back.by_side[1], 0);
    }
    assert(back.one_king_each()) by {
        if piece == Piece::King {
            lemma_single_member(row_us[k], t);
            lemma_moved_single(t, f);
            lemma_count_below_single(f, 64);
        }
    }
    assert(back.en_passant_ok()) by {
        if piece == Piece::Pawn && on_landing_row(side, f) {
            let e = square_behind(side, f);
            lemma_count_below_single(e, 64);
            assert forall|sq: int| #[trigger] holds(back.en_passant, sq) implies (40 <= sq <= 47
                && back.stands(Color::White, Piece::Pawn, sq - 8)) || (16 <= sq <= 23
                && back.stands(Color::Black, Piece::Pawn, sq + 8)) by {
                lemma_single_holds(e, sq);
                lemma_moved_holds(row_us[k], t, f, f);
            }
        } else {
            lemma_count_below_empty(64);
            assert forall|sq: int| #[trigger] holds(back.en_passant, sq) implies false by {
                lemma_single_holds(0, sq);
            }
        }
    }
    assert(back.castling_ok()) by {
        lemma_meet_with_square(p.pieces[us][Piece::Rook.tag()], rook_home(side, 0));
        lemma_meet_with_square(p.pieces[us][Piece::Rook.tag()], rook_home(side, 1));
    }
    assert(back.counters_ok());
}

} // verus!
