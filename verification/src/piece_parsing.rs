//! From a square set to the list of its squares.
use crate::bits::lemma_remove_decreases;
use crate::bits::lemma_squares_of_empty;
use crate::bits::lemma_squares_of_lowest;
use crate::bits::lowest_square_index;
use crate::bits::square_bit;
use crate::bits::square_mask;
use crate::bits::squares_of;
use crate::bits::Bitboard;
use crate::utils::Color;
use vstd::prelude::*;

verus! {

/// One entry per member of `bitboards`, in rising order of the squares: the
/// tag of `color` and the square.
pub open spec fn tagged_squares(color: Color, bitboards: u64) -> Seq<(u8, u8)> {
    Seq::new(
        squares_of(bitboards).len(),
        |i: int| (color.tag() as u8, squares_of(bitboards)[i]),
    )
}

/// Lists the squares of a set, lowest first, each with the tag of `color`.
pub fn parse_bitboards(color: Color, bitboards: Bitboard) -> (r: Vec<(u8, u8)>)
    ensures
        r@ == tagged_squares(color, bitboards),
{
    let piece_color: u8 = match color {
        Color::White => 0,
        Color::Black => 1,
    };
    let mut pieces_vector: Vec<(u8, u8)> = Vec::new();
    let mut bb_pieces: u64 = bitboards;
    while bb_pieces != 0
        invariant
            piece_color == color.tag(),
            squares_of(bitboards).len() == pieces_vector.len() + squares_of(bb_pieces).len(),
            forall|i: int|
                0 <= i < pieces_vector.len() ==> #[trigger] pieces_vector[i] == (
                    piece_color,
                    squares_of(bitboards)[i],
                ),
            forall|i: int|
                0 <= i < squares_of(bb_pieces).len() ==> #[trigger] squares_of(bb_pieces)[i]
                    == squares_of(bitboards)[pieces_vector.len() + i],
        decreases bb_pieces,
    {
        let square_index: u8 = lowest_square_index(bb_pieces);
        proof {
            lemma_squares_of_lowest(bb_pieces);
            lemma_remove_decreases(bb_pieces, square_index as int);
            let rest = squares_of(bb_pieces ^ square_bit(square_index as int));
            assert(squares_of(bb_pieces)[0] == square_index);
            assert forall|i: int| 0 <= i < rest.len() implies #[trigger] rest[i] == squares_of(
                bitboards,
            )[pieces_vector.len() + 1 + i] by {
                assert(rest[i] == squares_of(bb_pieces)[i + 1]);
            }
        }
        pieces_vector.push((piece_color, square_index));
        bb_pieces = bb_pieces ^ square_mask(square_index);
    }
    proof {
        lemma_squares_of_empty();
        assert(pieces_vector@ =~= tagged_squares(color, bitboards));
    }
    pieces_vector
}

} // verus!
