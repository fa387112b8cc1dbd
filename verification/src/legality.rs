//! What holds of the moves that the generator gives: the board admits each
//! of them, and none captures a king unless that king is in check.
use crate::bits::holds;
use crate::bits::lemma_squares_from_members;
use crate::bits::lemma_union_laws;
use crate::bits::square_bit;
use crate::bits::squares_of;
use crate::board::decode_spec;
use crate::board::double_advance;
use crate::board::lemma_decode_encode;
use crate::board::movable;
use crate::board::square_ahead;
use crate::board::Position;
use crate::sets::lemma_masked_free;
use crate::sets::lemma_meet_with_square;
use crate::sets::lemma_moved_holds;
use crate::sets::lemma_pawn_destination_free;
use crate::sets::lemma_pawn_double_passes_free;
use crate::sets::lemma_rows_disjoint_unions;
use crate::sets::lemma_union_holds;
use crate::utils::Color;
use crate::utils::Piece;
use vstd::prelude::*;

verus! {

impl Position {
    /// The generator gives the move of the piece of `side` and `kind` from
    /// `from` to `to`: the piece stands on `from`, and `to` is one of its
    /// destinations.
    pub open spec fn generates(self, side: Color, kind: Piece, from: int, to: int) -> bool {
        &&& kind != Piece::Empty
        &&& 0 <= from < 64
        &&& 0 <= to < 64
        &&& holds(self.piece_set(side, kind), from)
        &&& holds(self.destinations(side, kind, from), to)
    }

    /// A position to search from: it has the invariant, the side to move
    /// goes with the half-move flag, the side that just moved is not in
    /// check, and no piece of the side to move stands on the en-passant
    /// square.
    pub open spec fn playable(self) -> bool {
        &&& self.wf()
        &&& self.turn_ok()
        &&& !self.in_check(self.to_move.other())
        &&& self.en_passant & self.side_set(self.to_move) == 0
    }
}

/// Each of the moves of the first `n` pieces is the move of a piece that
/// stands on the board to one of its destinations.
proof fn lemma_moves_of_pieces_member(
    p: Position,
    side: Color,
    kind: Piece,
    sources: Seq<u8>,
    n: nat,
    i: int,
)
    requires
        kind != Piece::Empty,
        n <= sources.len(),
        forall|j: int|
            0 <= j < sources.len() ==> #[trigger] sources[j] < 64 && holds(
                p.piece_set(side, kind),
                sources[j] as int,
            ),
        0 <= i < p.moves_of_pieces(side, kind, sources, n).len(),
    ensures
        exists|from: int, to: int| #[trigger]
            p.generates(side, kind, from, to) && p.moves_of_pieces(side, kind, sources, n)[i]
                == p.move_to(side, kind, from, to),
    decreases n,
{
    let head = p.moves_of_pieces(side, kind, sources, (n - 1) as nat);
    if i < head.len() {
        lemma_moves_of_pieces_member(p, side, kind, sources, (n - 1) as nat, i);
    } else {
        let from = sources[n - 1] as int;
        let targets = squares_of(p.destinations(side, kind, from));
        lemma_squares_from_members(p.destinations(side, kind, from), 0);
        let to = targets[i - head.len()] as int;
        assert(p.generates(side, kind, from, to));
    }
}

proof fn lemma_moves_of_kind_member(p: Position, side: Color, kind: Piece, i: int)
    requires
        kind != Piece::Empty,
        0 <= i < p.moves_of_kind(side, kind).len(),
    ensures
        exists|k: Piece, from: int, to: int| #[trigger]
            p.generates(side, k, from, to) && p.moves_of_kind(side, kind)[i] == p.move_to(
                side,
                k,
                from,
                to,
            ),
{
    let sources = squares_of(p.piece_set(side, kind));
    lemma_squares_from_members(p.piece_set(side, kind), 0);
    lemma_moves_of_pieces_member(p, side, kind, sources, sources.len(), i);
    let (from, to) = choose|from: int, to: int| #[trigger]
        p.generates(side, kind, from, to) && p.moves_of_pieces(
            side,
            kind,
            sources,
            sources.len(),
        )[i] == p.move_to(side, kind, from, to);
    assert(p.generates(side, kind, from, to));
}

/// Each generated move is the move of a piece that stands on the board to
/// one of its destinations, with the captured kind that stands there.
pub proof fn lemma_generated_member(p: Position, side: Color, i: int)
    requires
        0 <= i < p.generated_moves(side).len(),
    ensures
        exists|k: Piece, from: int, to: int| #[trigger]
            p.generates(side, k, from, to) && p.generated_moves(side)[i] == p.move_to(
                side,
                k,
                from,
                to,
            ),
{
    reveal(Position::generated_moves);
    let a = p.moves_of_kind(side, Piece::Pawn);
    let b = p.moves_of_kind(side, Piece::King);
    let c = p.moves_of_kind(side, Piece::Knight);
    let d = p.moves_of_kind(side, Piece::Bishop);
    let e = p.moves_of_kind(side, Piece::Rook);
    let g = p.moves_of_kind(side, Piece::Queen);
    if i < a.len() {
        lemma_moves_of_kind_member(p, side, Piece::Pawn, i);
    } else if i < a.len() + b.len() {
        lemma_moves_of_kind_member(p, side, Piece::King, i - a.len());
    } else if i < a.len() + b.len() + c.len() {
        lemma_moves_of_kind_member(p, side, Piece::Knight, i - a.len() - b.len());
    } else if i < a.len() + b.len() + c.len() + d.len() {
        lemma_moves_of_kind_member(p, side, Piece::Bishop, i - a.len() - b.len() - c.len());
    } else if i < a.len() + b.len() + c.len() + d.len() + e.len() {
        lemma_moves_of_kind_member(
            p,
            side,
            Piece::Rook,
            i - a.len() - b.len() - c.len() - d.len(),
        );
    } else {
        lemma_moves_of_kind_member(
            p,
            side,
            Piece::Queen,
            i - a.len() - b.len() - c.len() - d.len() - e.len(),
        );
    }
}

/// The fields of a generated move.
pub proof fn lemma_generated_fields(p: Position, side: Color, kind: Piece, from: int, to: int)
    requires
        p.generates(side, kind, from, to),
    ensures
        movable(p.move_to(side, kind, from, to)),
        decode_spec(p.move_to(side, kind, from, to)) == (
            from as u8,
            to as u8,
            kind,
            side,
            p.occupant(side.other(), square_bit(to)),
            false,
        ),
{
    lemma_decode_encode(from, to, kind, side, p.occupant(side.other(), square_bit(to)), false);
}

/// The board admits every generated move, as long as no friendly piece
/// stands on the en-passant square.
pub proof fn lemma_generated_fits(p: Position, side: Color, kind: Piece, from: int, to: int)
    requires
        p.coherent(),
        p.generates(side, kind, from, to),
        p.en_passant & p.side_set(side) == 0,
    ensures
        p.fits(p.move_to(side, kind, from, to)),
{
    lemma_generated_fields(p, side, kind, from, to);
    let friendly = p.side_set(side);
    let enemy = p.side_set(side.other());
    lemma_rows_disjoint_unions(p.pieces[0], p.pieces[1]);
    lemma_union_laws(friendly, enemy, 0);
    lemma_union_laws(enemy, friendly, 0);
    match kind {
        Piece::Pawn => {
            lemma_pawn_destination_free(side, from, friendly, enemy, p.en_passant, to);
        },
        Piece::Knight => {
            lemma_masked_free(crate::attacks::knight_attacks(from), friendly, to);
        },
        Piece::Bishop => {
            lemma_masked_free(crate::attacks::bishop_attacks(from, p.occupied), friendly, to);
        },
        Piece::Rook => {
            lemma_masked_free(crate::attacks::rook_attacks(from, p.occupied), friendly, to);
        },
        Piece::Queen => {
            lemma_masked_free(crate::attacks::queen_attacks(from, p.occupied), friendly, to);
        },
        Piece::King => {
            lemma_masked_free(crate::attacks::king_attacks(from), friendly, to);
        },
        Piece::Empty => {},
    }
}

/// The reach of the first `n` pieces covers the destinations of each.
proof fn lemma_reach_of_pieces_covers(
    p: Position,
    side: Color,
    kind: Piece,
    sources: Seq<u8>,
    n: nat,
    j: int,
    to: int,
)
    requires
        0 <= j < n <= sources.len(),
        holds(p.destinations(side, kind, sources[j] as int), to),
    ensures
        holds(p.reach_of_pieces(side, kind, sources, n), to),
    decreases n,
{
    lemma_union_holds(
        p.reach_of_pieces(side, kind, sources, (n - 1) as nat),
        p.destinations(side, kind, sources[n - 1] as int),
        to,
    );
    if j < n - 1 {
        lemma_reach_of_pieces_covers(p, side, kind, sources, (n - 1) as nat, j, to);
    }
}

/// The reach of a side covers every destination of each of its pieces.
pub proof fn lemma_reach_covers(p: Position, side: Color, kind: Piece, from: int, to: int)
    requires
        p.generates(side, kind, from, to),
    ensures
        holds(p.reach(side), to),
{
    let sources = squares_of(p.piece_set(side, kind));
    lemma_squares_from_members(p.piece_set(side, kind), 0);
    let j = choose|j: int| 0 <= j < sources.len() && sources[j] == from as u8;
    lemma_reach_of_pieces_covers(p, side, kind, sources, sources.len(), j, to);
    let a = p.reach_of_kind(side, Piece::Pawn);
    let b = p.reach_of_kind(side, Piece::King);
    let c = p.reach_of_kind(side, Piece::Knight);
    let d = p.reach_of_kind(side, Piece::Bishop);
    let e = p.reach_of_kind(side, Piece::Rook);
    let g = p.reach_of_kind(side, Piece::Queen);
    lemma_union_holds(a, b, to);
    lemma_union_holds(a | b, c, to);
    lemma_union_holds(a | b | c, d, to);
    lemma_union_holds(a | b | c | d, e, to);
    lemma_union_holds(a | b | c | d | e, g, to);
}

/// No generated move captures a king that is not in check.
pub proof fn lemma_generated_spares_king(
    p: Position,
    side: Color,
    kind: Piece,
    from: int,
    to: int,
)
    requires
        p.shaped(),
        p.generates(side, kind, from, to),
        !p.in_check(side.other()),
    ensures
        p.occupant(side.other(), square_bit(to)) != Piece::King,
{
    reveal(Position::in_check);
    let king = p.piece_set(side.other(), Piece::King);
    lemma_reach_covers(p, side, kind, from, to);
    lemma_meet_with_square(king, to);
    lemma_union_holds(p.reach(side), king, to);
}

/// After a generated move from a position to search from, the en-passant
/// square is free.
pub proof fn lemma_en_passant_free_after(
    p: Position,
    side: Color,
    kind: Piece,
    from: int,
    to: int,
)
    requires
        p.wf(),
        p.generates(side, kind, from, to),
        p.en_passant & p.side_set(side) == 0,
    ensures
        p.make_spec(p.move_to(side, kind, from, to)).en_passant & p.make_spec(
            p.move_to(side, kind, from, to),
        ).occupied == 0,
{
    reveal(Position::wf);
    let m = p.move_to(side, kind, from, to);
    let made = p.make_spec(m);
    lemma_generated_fields(p, side, kind, from, to);
    lemma_generated_fits(p, side, kind, from, to);
    let friendly = p.side_set(side);
    let enemy = p.side_set(side.other());
    if kind == Piece::Pawn && double_advance(side, from, to) {
        let mid = square_ahead(side, from);
        assert(!holds(p.en_passant, to));
        lemma_pawn_double_passes_free(side, from, friendly, enemy, p.en_passant, to);
        lemma_moved_holds(friendly, from, to, mid);
        lemma_moved_holds(enemy, from, to, mid);
        lemma_union_holds(friendly, enemy, mid);
        lemma_union_holds(made.by_side[side.tag()], made.by_side[side.other().tag()], mid);
        lemma_meet_with_square(made.occupied, mid);
        lemma_union_laws(made.occupied, square_bit(mid), 0);
    } else {
        lemma_union_laws(made.occupied, 0, 0);
    }
}

/// Every generated move keeps the invariant when it is made, from a
/// position with the invariant in which the other side is not in check and
/// no friendly piece stands on the en-passant square: each side keeps its
/// one king, and no two piece sets share a square.
pub proof fn lemma_generated_keeps_wf(p: Position, side: Color, i: int)
    requires
        p.wf(),
        !p.in_check(side.other()),
        p.en_passant & p.side_set(side) == 0,
        0 <= i < p.generated_moves(side).len(),
    ensures
        p.admits(p.generated_moves(side)[i]),
        p.make_spec(p.generated_moves(side)[i]).wf(),
        p.make_spec(p.generated_moves(side)[i]).undo_spec().wf(),
{
    let m = p.generated_moves(side)[i];
    assert(p.coherent()) by {
        reveal(Position::wf);
    }
    lemma_generated_member(p, side, i);
    let (kind, from, to) = choose|kind: Piece, from: int, to: int| #[trigger]
        p.generates(side, kind, from, to) && p.generated_moves(side)[i] == p.move_to(
            side,
            kind,
            from,
            to,
        );
    lemma_generated_fields(p, side, kind, from, to);
    lemma_generated_fits(p, side, kind, from, to);
    lemma_generated_spares_king(p, side, kind, from, to);
    crate::invariants::lemma_make_keeps_wf(p, m);
    crate::invariants::lemma_undo_keeps_wf(p.make_spec(m));
}

/// Taking back a generated move right after making it gives the position
/// back, bit for bit and with the same depth of stack, from a position with
/// the invariant in which no friendly piece stands on the en-passant
/// square, as long as the en-passant square and the castling rights of the
/// position are ones that taking the move back restores.
pub proof fn lemma_generated_round_trip(p: Position, side: Color, i: int)
    requires
        p.wf(),
        p.en_passant & p.side_set(side) == 0,
        0 <= i < p.generated_moves(side).len(),
        p.restorable(p.generated_moves(side)[i]),
    ensures
        p.make_spec(p.generated_moves(side)[i]).undo_spec() == p,
{
    let m = p.generated_moves(side)[i];
    assert(p.coherent() && p.counters_ok()) by {
        reveal(Position::wf);
    }
    lemma_generated_member(p, side, i);
    let (kind, from, to) = choose|kind: Piece, from: int, to: int| #[trigger]
        p.generates(side, kind, from, to) && p.generated_moves(side)[i] == p.move_to(
            side,
            kind,
            from,
            to,
        );
    lemma_generated_fields(p, side, kind, from, to);
    lemma_generated_fits(p, side, kind, from, to);
    crate::invariants::lemma_undo_after_make(p, m);
}

} // verus!
