//! All the pseudo-legal moves of one side, and whether a king is attacked.
use crate::bits::lemma_lowest_square;
use crate::bits::lemma_remove_decreases;
use crate::bits::lemma_squares_from_members;
use crate::bits::lemma_squares_of_empty;
use crate::bits::lemma_squares_of_lowest;
use crate::bits::lowest_square;
use crate::bits::lowest_square_index;
use crate::bits::square_bit;
use crate::bits::square_mask;
use crate::bits::squares_of;
use crate::bits::Bitboard;
use crate::board::encode_spec;
use crate::board::pack_move;
use crate::board::BoardState;
use crate::board::EncodedMove;
use crate::board::Position;
use crate::magic::AttackTables;
use crate::move_generation::bishop_destinations;
use crate::move_generation::generate_bishop_moves;
use crate::move_generation::generate_king_moves;
use crate::move_generation::generate_knight_moves;
use crate::move_generation::generate_pawn_moves;
use crate::move_generation::generate_quen_moves;
use crate::move_generation::generate_rook_moves;
use crate::move_generation::king_destinations;
use crate::move_generation::knight_destinations;
use crate::move_generation::pawn_destinations;
use crate::move_generation::queen_destinations;
use crate::move_generation::rook_destinations;
use crate::piece_parsing::parse_bitboards;
use crate::piece_parsing::tagged_squares;
use crate::utils::opposite_color;
use crate::utils::Color;
use crate::utils::Piece;
use vstd::prelude::*;

verus! {

broadcast use crate::bits::group_bits;

impl Position {
    /// Where the piece of `side` and `kind` on `from` may move.
    pub open spec fn destinations(self, side: Color, kind: Piece, from: int) -> u64 {
        let friendly = self.side_set(side);
        match kind {
            Piece::Pawn => pawn_destinations(
                side,
                from,
                friendly,
                self.side_set(side.other()),
                self.en_passant,
            ),
            Piece::Knight => knight_destinations(from, friendly),
            Piece::Bishop => bishop_destinations(from, friendly, self.occupied),
            Piece::Rook => rook_destinations(from, friendly, self.occupied),
            Piece::Queen => queen_destinations(from, friendly, self.occupied),
            Piece::King => king_destinations(from, friendly),
            Piece::Empty => 0,
        }
    }

    /// The packed move of the piece of `side` and `kind` from `from` to
    /// `to`: the captured kind is what the other side has on `to`, and the
    /// promotion flag is off.
    pub open spec fn move_to(self, side: Color, kind: Piece, from: int, to: int) -> u32 {
        encode_spec(
            from,
            to,
            kind,
            side,
            self.occupant(side.other(), square_bit(to)),
            false,
        ) as u32
    }

    /// The moves of one piece, one for each square of `targets` in order.
    pub open spec fn moves_to(self, side: Color, kind: Piece, from: int, targets: Seq<u8>) -> Seq<
        u32,
    > {
        Seq::new(targets.len(), |i: int| self.move_to(side, kind, from, targets[i] as int))
    }

    /// The moves of the first `n` pieces of `sources`, piece after piece.
    pub open spec fn moves_of_pieces(
        self,
        side: Color,
        kind: Piece,
        sources: Seq<u8>,
        n: nat,
    ) -> Seq<u32>
        decreases n,
    {
        if n == 0 {
            Seq::empty()
        } else {
            let from = sources[n - 1] as int;
            self.moves_of_pieces(side, kind, sources, (n - 1) as nat) + self.moves_to(
                side,
                kind,
                from,
                squares_of(self.destinations(side, kind, from)),
            )
        }
    }

    /// The moves of all the pieces of one kind: the pieces in rising order
    /// of their squares, the destinations of each in rising order.
    pub open spec fn moves_of_kind(self, side: Color, kind: Piece) -> Seq<u32> {
        let sources = squares_of(self.piece_set(side, kind));
        self.moves_of_pieces(side, kind, sources, sources.len())
    }

    /// All the pseudo-legal moves of `side`: pawns first, then kings,
    /// knights, bishops, rooks and queens.
    #[verifier::opaque]
    pub open spec fn generated_moves(self, side: Color) -> Seq<u32> {
        self.moves_of_kind(side, Piece::Pawn) + self.moves_of_kind(side, Piece::King)
            + self.moves_of_kind(side, Piece::Knight) + self.moves_of_kind(side, Piece::Bishop)
            + self.moves_of_kind(side, Piece::Rook) + self.moves_of_kind(side, Piece::Queen)
    }

    /// The union of the destinations of the first `n` pieces of `sources`.
    pub open spec fn reach_of_pieces(self, side: Color, kind: Piece, sources: Seq<u8>, n: nat) -> u64
        decreases n,
    {
        if n == 0 {
            0
        } else {
            self.reach_of_pieces(side, kind, sources, (n - 1) as nat) | self.destinations(
                side,
                kind,
                sources[n - 1] as int,
            )
        }
    }

    /// Every square that some piece of `side` of this kind may move to.
    pub open spec fn reach_of_kind(self, side: Color, kind: Piece) -> u64 {
        let sources = squares_of(self.piece_set(side, kind));
        self.reach_of_pieces(side, kind, sources, sources.len())
    }

    /// Every square that some piece of `side` may move to.
    pub open spec fn reach(self, side: Color) -> u64 {
        self.reach_of_kind(side, Piece::Pawn) | self.reach_of_kind(side, Piece::King)
            | self.reach_of_kind(side, Piece::Knight) | self.reach_of_kind(side, Piece::Bishop)
            | self.reach_of_kind(side, Piece::Rook) | self.reach_of_kind(side, Piece::Queen)
    }

    /// The king of `side` stands on a square that the other side may move
    /// to.
    #[verifier::opaque]
    pub open spec fn in_check(self, side: Color) -> bool {
        self.reach(side.other()) & self.piece_set(side, Piece::King) != 0
    }
}

/// The answer of a piece generator lists, for the pieces of `kind` in
/// rising order, the square set of the piece and its destinations.
pub open spec fn lists_kind(p: Position, side: Color, kind: Piece, found: Seq<(u64, u64)>) -> bool {
    let sources = squares_of(p.piece_set(side, kind));
    &&& found.len() == sources.len()
    &&& forall|i: int|
        0 <= i < found.len() ==> #[trigger] found[i] == (
            square_bit(sources[i] as int),
            p.destinations(side, kind, sources[i] as int),
        )
}

proof fn lemma_lowest_of_single(sq: int)
    requires
        0 <= sq < 64,
    ensures
        square_bit(sq) != 0,
        lowest_square(square_bit(sq)) == sq,
{
    assert(crate::bits::holds(square_bit(sq), sq));
    crate::bits::lemma_holds_nonzero(square_bit(sq), sq);
    lemma_lowest_square(square_bit(sq));
}

impl BoardState {
    /// Appends to `moves_vec` one packed move for each destination of one
    /// piece, lowest destination first.
    fn push_moves_of_piece(
        &self,
        moves_vec: &mut Vec<EncodedMove>,
        from_bb: Bitboard,
        targets: Bitboard,
        piece: Piece,
        color: Color,
    )
        requires
            from_bb != 0,
        ensures
            final(moves_vec)@ == old(moves_vec)@ + self@.moves_to(
                color,
                piece,
                lowest_square(from_bb),
                squares_of(targets),
            ),
    {
        let from = lowest_square_index(from_bb);
        let ghost all = self@.moves_to(color, piece, from as int, squares_of(targets));
        let mut move_bb = targets;
        let ghost mut done: int = 0;
        proof {
            lemma_squares_from_members(targets, 0);
        }
        while move_bb != 0
            invariant
                from < 64,
                0 <= done,
                all == self@.moves_to(color, piece, from as int, squares_of(targets)),
                squares_of(targets).len() == done + squares_of(move_bb).len(),
                forall|i: int|
                    0 <= i < squares_of(move_bb).len() ==> #[trigger] squares_of(move_bb)[i]
                        == squares_of(targets)[done + i],
                moves_vec@ == old(moves_vec)@ + all.subrange(0, done),
            decreases move_bb,
        {
            let least_sign_bit = lowest_square_index(move_bb);
            let to_bb = square_mask(least_sign_bit);
            let captured = self.piece_on(opposite_color(color), to_bb);
            proof {
                lemma_squares_of_lowest(move_bb);
                lemma_remove_decreases(move_bb, least_sign_bit as int);
                let rest = squares_of(move_bb ^ square_bit(least_sign_bit as int));
                assert(squares_of(move_bb)[0] == least_sign_bit);
                assert forall|i: int| 0 <= i < rest.len() implies #[trigger] rest[i] == squares_of(
                    targets,
                )[done + 1 + i] by {
                    assert(rest[i] == squares_of(move_bb)[i + 1]);
                }
                crate::board::lemma_decode_encode(
                    from as int,
                    least_sign_bit as int,
                    piece,
                    color,
                    captured,
                    false,
                );
            }
            let packed = pack_move(from, least_sign_bit, piece, color, captured, false);
            moves_vec.push(packed);
            proof {
                assert(packed == all[done]);
                assert(all.subrange(0, done + 1) =~= all.subrange(0, done).push(packed));
                done = done + 1;
            }
            move_bb = move_bb ^ to_bb;
        }
        proof {
            lemma_squares_of_empty();
            assert(all.subrange(0, done) =~= all);
        }
    }

    /// Appends to `moves_vec` the moves of all the pieces of one kind.
    fn push_moves_of_kind(
        &self,
        moves_vec: &mut Vec<EncodedMove>,
        found: &Vec<(Bitboard, Bitboard)>,
        piece: Piece,
        color: Color,
    )
        requires
            lists_kind(self@, color, piece, found@),
        ensures
            final(moves_vec)@ == old(moves_vec)@ + self@.moves_of_kind(color, piece),
    {
        let ghost sources = squares_of(self@.piece_set(color, piece));
        let mut index: usize = 0;
        proof {
            lemma_squares_from_members(self@.piece_set(color, piece), 0);
        }
        while index < found.len()
            invariant
                index <= found.len(),
                sources == squares_of(self@.piece_set(color, piece)),
                lists_kind(self@, color, piece, found@),
                forall|i: int| 0 <= i < sources.len() ==> #[trigger] sources[i] < 64,
                moves_vec@ == old(moves_vec)@ + self@.moves_of_pieces(
                    color,
                    piece,
                    sources,
                    index as nat,
                ),
            decreases found.len() - index,
        {
            let entry = found[index];
            proof {
                lemma_lowest_of_single(sources[index as int] as int);
            }
            let ghost before = moves_vec@;
            self.push_moves_of_piece(moves_vec, entry.0, entry.1, piece, color);
            proof {
                let head = self@.moves_of_pieces(color, piece, sources, index as nat);
                let tail = self@.moves_to(
                    color,
                    piece,
                    sources[index as int] as int,
                    squares_of(self@.destinations(color, piece, sources[index as int] as int)),
                );
                assert(moves_vec@ == before + tail);
                assert((old(moves_vec)@ + head) + tail =~= old(moves_vec)@ + (head + tail));
            }
            index += 1;
        }
    }
}

/// The entries that `parse_bitboards` gives name the side and the squares
/// of the set, each on the board.
proof fn lemma_tagged_squares(color: Color, bitboards: u64)
    ensures
        crate::move_generation::entries_on_board(tagged_squares(color, bitboards)),
        tagged_squares(color, bitboards).len() == squares_of(bitboards).len(),
        forall|i: int|
            0 <= i < squares_of(bitboards).len() ==> {
                &&& Color::from_tag((#[trigger] tagged_squares(color, bitboards)[i]).0 as int)
                    == color
                &&& tagged_squares(color, bitboards)[i].1 == squares_of(bitboards)[i]
            },
{
    lemma_squares_from_members(bitboards, 0);
}

impl BoardState {
    /// The union of the destinations in the answer of a piece generator.
    fn union_of_destinations(
        &self,
        found: &Vec<(Bitboard, Bitboard)>,
        Ghost(piece): Ghost<Piece>,
        Ghost(color): Ghost<Color>,
    ) -> (r: Bitboard)
        requires
            lists_kind(self@, color, piece, found@),
        ensures
            r == self@.reach_of_kind(color, piece),
    {
        let ghost sources = squares_of(self@.piece_set(color, piece));
        let mut all: Bitboard = 0;
        let mut index: usize = 0;
        while index < found.len()
            invariant
                index <= found.len(),
                sources == squares_of(self@.piece_set(color, piece)),
                lists_kind(self@, color, piece, found@),
                all == self@.reach_of_pieces(color, piece, sources, index as nat),
            decreases found.len() - index,
        {
            all = all | found[index].1;
            index += 1;
        }
        all
    }

    /// All the pseudo-legal moves of one side, as packed moves.
    pub fn generate_moves_by_color(&self, tables: &AttackTables, color: &Color) -> (r: Vec<
        EncodedMove,
    >)
        requires
            tables.wf(),
        ensures
            r@ == self@.generated_moves(*color),
    {
        let side = *color;
        let own = self.get_color_bb(side);
        let enemy = self.get_color_bb(opposite_color(side));
        let mut moves_vec: Vec<EncodedMove> = Vec::new();
        let ghost p = self@;

        proof {
            lemma_tagged_squares(side, p.piece_set(side, Piece::Pawn));
            lemma_tagged_squares(side, p.piece_set(side, Piece::King));
            lemma_tagged_squares(side, p.piece_set(side, Piece::Knight));
            lemma_tagged_squares(side, p.piece_set(side, Piece::Bishop));
            lemma_tagged_squares(side, p.piece_set(side, Piece::Rook));
            lemma_tagged_squares(side, p.piece_set(side, Piece::Queen));
        }
        let pawns_moves = generate_pawn_moves(
            tables,
            parse_bitboards(side, self.get_piece_bb(side, Piece::Pawn)),
            own,
            enemy,
            self.bb_en_passant,
        );
        self.push_moves_of_kind(&mut moves_vec, &pawns_moves, Piece::Pawn, side);

        let kings_moves = generate_king_moves(
            tables,
            parse_bitboards(side, self.get_piece_bb(side, Piece::King)),
            own,
        );
        self.push_moves_of_kind(&mut moves_vec, &kings_moves, Piece::King, side);

        let knights_moves = generate_knight_moves(
            tables,
            parse_bitboards(side, self.get_piece_bb(side, Piece::Knight)),
            own,
        );
        self.push_moves_of_kind(&mut moves_vec, &knights_moves, Piece::Knight, side);

        let bishops_moves = generate_bishop_moves(
            tables,
            parse_bitboards(side, self.get_piece_bb(side, Piece::Bishop)),
            own,
            self.bb_fullboard,
        );
        self.push_moves_of_kind(&mut moves_vec, &bishops_moves, Piece::Bishop, side);

        let rooks_moves = generate_rook_moves(
            tables,
            parse_bitboards(side, self.get_piece_bb(side, Piece::Rook)),
            own,
            self.bb_fullboard,
        );
        self.push_moves_of_kind(&mut moves_vec, &rooks_moves, Piece::Rook, side);

        let queens_moves = generate_quen_moves(
            tables,
            parse_bitboards(side, self.get_piece_bb(side, Piece::Queen)),
            self.bb_fullboard,
            own,
        );
        self.push_moves_of_kind(&mut moves_vec, &queens_moves, Piece::Queen, side);
        proof {
            reveal(Position::generated_moves);
            assert(moves_vec@ =~= p.generated_moves(side));
        }
        moves_vec
    }

    /// Every square that some piece of `color` may move to.
    pub fn destinations_by_color(&self, tables: &AttackTables, color: Color) -> (r: Bitboard)
        requires
            tables.wf(),
        ensures
            r == self@.reach(color),
    {
        let side = color;
        let own = self.get_color_bb(side);
        let enemy = self.get_color_bb(opposite_color(side));
        let ghost p = self@;
        proof {
            lemma_tagged_squares(side, p.piece_set(side, Piece::Pawn));
            lemma_tagged_squares(side, p.piece_set(side, Piece::King));
            lemma_tagged_squares(side, p.piece_set(side, Piece::Knight));
            lemma_tagged_squares(side, p.piece_set(side, Piece::Bishop));
            lemma_tagged_squares(side, p.piece_set(side, Piece::Rook));
            lemma_tagged_squares(side, p.piece_set(side, Piece::Queen));
        }
        let pawns_moves = generate_pawn_moves(
            tables,
            parse_bitboards(side, self.get_piece_bb(side, Piece::Pawn)),
            own,
            enemy,
            self.bb_en_passant,
        );
        let kings_moves = generate_king_moves(
            tables,
            parse_bitboards(side, self.get_piece_bb(side, Piece::King)),
            own,
        );
        let knights_moves = generate_knight_moves(
            tables,
            parse_bitboards(side, self.get_piece_bb(side, Piece::Knight)),
            own,
        );
        let bishops_moves = generate_bishop_moves(
            tables,
            parse_bitboards(side, self.get_piece_bb(side, Piece::Bishop)),
            own,
            self.bb_fullboard,
        );
        let rooks_moves = generate_rook_moves(
            tables,
            parse_bitboards(side, self.get_piece_bb(side, Piece::Rook)),
            own,
            self.bb_fullboard,
        );
        let queens_moves = generate_quen_moves(
            tables,
            parse_bitboards(side, self.get_piece_bb(side, Piece::Queen)),
            self.bb_fullboard,
            own,
        );
        self.union_of_destinations(&pawns_moves, Ghost(Piece::Pawn), Ghost(side))
            | self.union_of_destinations(&kings_moves, Ghost(Piece::King), Ghost(side))
            | self.union_of_destinations(&knights_moves, Ghost(Piece::Knight), Ghost(side))
            | self.union_of_destinations(&bishops_moves, Ghost(Piece::Bishop), Ghost(side))
            | self.union_of_destinations(&rooks_moves, Ghost(Piece::Rook), Ghost(side))
            | self.union_of_destinations(&queens_moves, Ghost(Piece::Queen), Ghost(side))
    }

    /// Whether the king of `color` stands on a square that the other side
    /// may move to.
    pub fn is_in_check(&self, tables: &AttackTables, color: &Color) -> (r: bool)
        requires
            tables.wf(),
        ensures
            r == self@.in_check(*color),
    {
        proof {
            reveal(Position::in_check);
        }
        let all_attacks = self.destinations_by_color(tables, opposite_color(*color));
        all_attacks & self.get_piece_bb(*color, Piece::King) != 0
    }
}

} // verus!
