//! Static evaluation: material, a bonus for the square of each piece, the
//! bishop pair, and the shelter of the king.
//!
//! The bonus tables are written for white. Black reads them with the rows
//! turned over, so that a black piece on a square scores what a white piece
//! scores on the square that mirrors it across the middle of the board.
use crate::attacks::king_attacks;
use crate::bits::count_squares;
use crate::bits::lemma_squares_from_members;
use crate::bits::popcount;
use crate::bits::squares_of;
use crate::board::BoardState;
use crate::board::Position;
use crate::magic::AttackTables;
use crate::move_generation::generate_king_moves;
use crate::move_generation::king_destinations;
use crate::piece_parsing::parse_bitboards;
use crate::utils::Color;
use crate::utils::Piece;
use vstd::prelude::*;

verus! {

/// Score of the side to move when it has no legal move and is in check.
pub const CHECKMATE: i32 = -10_000;

/// Score of the side to move when it has no legal move and is not in check.
pub const STALEMATE: i32 = 0;

pub const PAWN: i32 = 100;

pub const KNIGHT: i32 = 310;

pub const BISHOP: i32 = 330;

pub const ROOK: i32 = 500;

pub const QUEEN: i32 = 900;

pub const KING: i32 = 20_000;

pub const ENDGAME_PAWN: i32 = 200;

pub const ENDGAME_KNIGHT: i32 = 280;

pub const ENDGAME_BISHOP: i32 = 300;

pub const ENDGAME_ROOK: i32 = 600;

pub const ENDGAME_QUEEN: i32 = 920;

pub const ENDGAME_KING: i32 = 20_000;

/// Bonus of a side with exactly two bishops.
pub const BISHOP_PAIR_BONUS: i32 = 50;

/// Bonus of a king that cannot move, or has at most two friendly neighbours.
pub const KING_SHELTER_BONUS: i32 = 100;

/// Penalty of a king with more than two friendly neighbours.
pub const KING_CROWDED_PENALTY: i32 = 20;

/// Bonus of a white pawn by square, before the endgame.
pub const PAWN_MIDDLEGAME_BONUS: [i32; 64] = [
    0, 0, 0, 0, 0, 0, 0, 0,
    5, 10, 10, -20, -20, 10, 10, 5,
    5, -5, -10, 0, 0, -10, -5, 5,
    0, 0, 0, 20, 20, 0, 0, 0,
    5, 5, 10, 25, 25, 10, 5, 5,
    10, 10, 20, 30, 30, 20, 10, 10,
    50, 50, 50, 50, 50, 50, 50, 50,
    0, 0, 0, 0, 0, 0, 0, 0,
];

/// Bonus of a white pawn by square, in the endgame.
pub const PAWN_ENDGAME_BONUS: [i32; 64] = [
    0, 0, 0, 0, 0, 0, 0, 0,
    0, 0, 0, 0, 0, 0, 0, 0,
    5, 10, 10, -20, -20, 10, 10, 5,
    5, -5, -10, 0, 0, -10, -5, 5,
    0, 0, 0, 20, 20, 0, 0, 0,
    5, 5, 10, 25, 25, 10, 5, 5,
    10, 10, 20, 30, 30, 20, 10, 10,
    50, 50, 50, 50, 50, 50, 50, 50,
];

/// Bonus of a white knight by square.
pub const KNIGHT_BONUS: [i32; 64] = [
    -50, -40, -30, -30, -30, -30, -40, -50,
    -40, 20, 0, 0, 0, 0, -20, -40,
    -30, 0, 10, 15, 15, 10, 0, -30,
    -30, 5, 15, 20, 20, 15, 5, -30,
    -30, 0, 15, 20, 20, 15, 0, -30,
    -30, 5, 10, 15, 15, 10, 5, -30,
    -40, -20, 0, 5, 5, 0, -20, -40,
    -50, -40, -30, -30, -30, -30, -40, -50,
];

/// Bonus of a white bishop by square.
pub const BISHOP_BONUS: [i32; 64] = [
    -20, -10, -10, -10, -10, -10, -10, -20,
    -10, 0, 0, 0, 0, 0, 0, -10,
    -10, 0, 5, 10, 10, 5, 0, -10,
    -10, 5, 5, 10, 10, 5, 5, -10,
    -10, 0, 10, 10, 10, 10, 0, -10,
    -10, 10, 10, 10, 10, 10, 10, -10,
    -10, 5, 0, 0, 0, 0, 5, -10,
    -20, -10, -10, -10, -10, -10, -10, -20,
];

/// Bonus of a white rook by square.
pub const ROOK_BONUS: [i32; 64] = [
    0, 0, 0, 0, 0, 0, 0, 0,
    5, 10, 10, 10, 10, 10, 10, 5,
    -5, 0, 0, 0, 0, 0, 0, -5,
    -5, 0, 0, 0, 0, 0, 0, -5,
    -5, 0, 0, 0, 0, 0, 0, -5,
    -5, 0, 0, 0, 0, 0, 0, -5,
    -5, 0, 0, 0, 0, 0, 0, -5,
    0, 0, 0, 5, 5, 0, 0, 0,
];

/// Bonus of a white queen by square.
pub const QUEEN_BONUS: [i32; 64] = [
    -20, -10, -10, -5, -5, -10, -10, -20,
    -10, 0, 0, 0, 0, 0, 0, -10,
    -10, 0, 5, 5, 5, 5, 0, -10,
    -5, 0, 5, 5, 5, 5, 0, -5,
    0, 0, 5, 5, 5, 5, 0, -5,
    -10, 5, 5, 5, 5, 5, 0, -10,
    -10, 0, 5, 0, 0, 0, 0, -10,
    -20, -10, -10, -5, -5, -10, -10, -20,
];

/// Bonus of the white king by square, before the endgame.
pub const KING_MIDDLEGAME_BONUS: [i32; 64] = [
    -30, -40, -40, -50, -50, -40, -40, -30,
    -30, -40, -40, -50, -50, -40, -40, -30,
    -30, -40, -40, -50, -50, -40, -40, -30,
    -30, -40, -40, -50, -50, -40, -40, -30,
    -20, -30, -30, -40, -40, -30, -30, -20,
    -10, -20, -20, -20, -20, -20, -20, -10,
    20, 20, 0, 0, 0, 0, 20, 20,
    20, 30, 10, 0, 0, 10, 30, 20,
];

/// Bonus of the white king by square, in the endgame.
pub const KING_ENDGAME_BONUS: [i32; 64] = [
    -50, -40, -30, -20, -20, -30, -40, -50,
    -30, -20, -10, 0, 0, -10, -20, -30,
    -30, -10, 20, 30, 30, 20, -10, -30,
    -30, -10, 30, 40, 40, 30, -10, -30,
    -30, -10, 30, 40, 40, 30, -10, -30,
    -30, -10, 20, 30, 30, 20, -10, -30,
    -30, -30, 0, 0, 0, 0, -30, -30,
    -50, -30, -30, -30, -30, -30, -30, -50,
];

/// Fewer than six pieces other than pawns are on the board.
pub open spec fn is_endgame(p: Position) -> bool {
    popcount(
        p.occupied ^ p.piece_set(Color::White, Piece::Pawn) ^ p.piece_set(
            Color::Black,
            Piece::Pawn,
        ),
    ) < 6
}

/// The value of a piece of this kind.
pub open spec fn material(kind: Piece, endgame: bool) -> int {
    match kind {
        Piece::Pawn => if endgame {
            ENDGAME_PAWN as int
        } else {
            PAWN as int
        },
        Piece::Knight => if endgame {
            ENDGAME_KNIGHT as int
        } else {
            KNIGHT as int
        },
        Piece::Bishop => if endgame {
            ENDGAME_BISHOP as int
        } else {
            BISHOP as int
        },
        Piece::Rook => if endgame {
            ENDGAME_ROOK as int
        } else {
            ROOK as int
        },
        Piece::Queen => if endgame {
            ENDGAME_QUEEN as int
        } else {
            QUEEN as int
        },
        Piece::King => if endgame {
            ENDGAME_KING as int
        } else {
            KING as int
        },
        Piece::Empty => 0,
    }
}

/// The bonus table of a kind, as white reads it.
pub open spec fn bonus_table(kind: Piece, endgame: bool) -> [i32; 64] {
    match kind {
        Piece::Pawn => if endgame {
            PAWN_ENDGAME_BONUS
        } else {
            PAWN_MIDDLEGAME_BONUS
        },
        Piece::Knight => KNIGHT_BONUS,
        Piece::Bishop => BISHOP_BONUS,
        Piece::Rook => ROOK_BONUS,
        Piece::Queen => QUEEN_BONUS,
        _ => if endgame {
            KING_ENDGAME_BONUS
        } else {
            KING_MIDDLEGAME_BONUS
        },
    }
}

/// The square that mirrors `sq` across the middle of the board: same
/// column, rows counted from the other end.
pub open spec fn mirror(sq: int) -> int {
    (7 - sq / 8) * 8 + sq % 8
}

/// The bonus of a piece of `side` and `kind` on `sq`.
pub open spec fn bonus(side: Color, kind: Piece, endgame: bool, sq: int) -> int {
    match side {
        Color::White => bonus_table(kind, endgame)[sq] as int,
        Color::Black => bonus_table(kind, endgame)[mirror(sq)] as int,
    }
}

/// Material and bonus of the pieces on the first `n` squares of `squares`.
pub open spec fn score_of_squares(
    side: Color,
    kind: Piece,
    endgame: bool,
    squares: Seq<u8>,
    n: nat,
) -> int
    decreases n,
{
    if n == 0 {
        0
    } else {
        score_of_squares(side, kind, endgame, squares, (n - 1) as nat) + material(kind, endgame)
            + bonus(side, kind, endgame, squares[n - 1] as int)
    }
}

/// Material and bonus of all the pieces of `side` of one kind.
pub open spec fn score_of_kind(p: Position, side: Color, kind: Piece, endgame: bool) -> int {
    let squares = squares_of(p.piece_set(side, kind));
    score_of_squares(side, kind, endgame, squares, squares.len())
}

/// 50 for a side with exactly two bishops.
pub open spec fn bishop_pair(p: Position, side: Color) -> int {
    if popcount(p.piece_set(side, Piece::Bishop)) == 2 {
        BISHOP_PAIR_BONUS as int
    } else {
        0
    }
}

/// 100 for a side whose king has no pseudo-legal move (or that has no
/// king), 100 as well when at most two friendly pieces stand next to the
/// king, and -20 otherwise. Of several kings the one on the lowest square
/// counts.
pub open spec fn king_shelter(p: Position, side: Color) -> int {
    let kings = squares_of(p.piece_set(side, Piece::King));
    if kings.len() == 0 {
        KING_SHELTER_BONUS as int
    } else if king_destinations(kings[0] as int, p.side_set(side)) == 0 {
        KING_SHELTER_BONUS as int
    } else if popcount(p.side_set(side) & king_attacks(kings[0] as int)) <= 2 {
        KING_SHELTER_BONUS as int
    } else {
        -(KING_CROWDED_PENALTY as int)
    }
}

/// Everything that counts for one side.
pub open spec fn side_total(p: Position, side: Color) -> int {
    let endgame = is_endgame(p);
    score_of_kind(p, side, Piece::Pawn, endgame) + score_of_kind(p, side, Piece::Knight, endgame)
        + score_of_kind(p, side, Piece::Bishop, endgame) + score_of_kind(
        p,
        side,
        Piece::Rook,
        endgame,
    ) + score_of_kind(p, side, Piece::Queen, endgame) + score_of_kind(
        p,
        side,
        Piece::King,
        endgame,
    ) + bishop_pair(p, side) + if endgame {
        0
    } else {
        king_shelter(p, side)
    }
}

/// The static score of a position, seen from the side to move: white's
/// total less black's for white, black's less white's for black.
#[verifier::opaque]
pub open spec fn evaluate_spec(p: Position) -> int {
    match p.to_move {
        Color::White => side_total(p, Color::White) - side_total(p, Color::Black),
        Color::Black => side_total(p, Color::Black) - side_total(p, Color::White),
    }
}

/// No bonus is above 50 or below -50.
pub proof fn lemma_bonus_bounds(side: Color, kind: Piece, endgame: bool, sq: int)
    requires
        0 <= sq < 64,
    ensures
        -50 <= bonus(side, kind, endgame, sq) <= 50,
        0 <= mirror(sq) < 64,
{
    let t = bonus_table(kind, endgame);
    let i = if side == Color::White {
        sq
    } else {
        mirror(sq)
    };
    assert(forall|j: int| 0 <= j < 64 ==> -50 <= #[trigger] PAWN_MIDDLEGAME_BONUS[j] <= 50);
    assert(forall|j: int| 0 <= j < 64 ==> -50 <= #[trigger] PAWN_ENDGAME_BONUS[j] <= 50);
    assert(forall|j: int| 0 <= j < 64 ==> -50 <= #[trigger] KNIGHT_BONUS[j] <= 50);
    assert(forall|j: int| 0 <= j < 64 ==> -50 <= #[trigger] BISHOP_BONUS[j] <= 50);
    assert(forall|j: int| 0 <= j < 64 ==> -50 <= #[trigger] ROOK_BONUS[j] <= 50);
    assert(forall|j: int| 0 <= j < 64 ==> -50 <= #[trigger] QUEEN_BONUS[j] <= 50);
    assert(forall|j: int| 0 <= j < 64 ==> -50 <= #[trigger] KING_MIDDLEGAME_BONUS[j] <= 50);
    assert(forall|j: int| 0 <= j < 64 ==> -50 <= #[trigger] KING_ENDGAME_BONUS[j] <= 50);
    assert(-50 <= t[i] <= 50);
}

/// The bonus of a black piece is the bonus of a white piece of the same
/// kind on the mirrored square.
pub proof fn lemma_bonus_mirrored(kind: Piece, endgame: bool, sq: int)
    requires
        0 <= sq < 64,
    ensures
        0 <= mirror(sq) < 64,
        mirror(mirror(sq)) == sq,
        bonus(Color::Black, kind, endgame, sq) == bonus(Color::White, kind, endgame, mirror(sq)),
        bonus(Color::White, kind, endgame, sq) == bonus(Color::Black, kind, endgame, mirror(sq)),
{
}

/// The table of a kind.
fn table_of(kind: Piece, endgame: bool) -> (r: [i32; 64])
    ensures
        r == bonus_table(kind, endgame),
{
    match kind {
        Piece::Pawn => if endgame {
            PAWN_ENDGAME_BONUS
        } else {
            PAWN_MIDDLEGAME_BONUS
        },
        Piece::Knight => KNIGHT_BONUS,
        Piece::Bishop => BISHOP_BONUS,
        Piece::Rook => ROOK_BONUS,
        Piece::Queen => QUEEN_BONUS,
        _ => if endgame {
            KING_ENDGAME_BONUS
        } else {
            KING_MIDDLEGAME_BONUS
        },
    }
}

/// The value of a kind.
fn value_of(kind: Piece, endgame: bool) -> (r: i32)
    ensures
        r == material(kind, endgame),
        0 <= r <= 20_000,
{
    match kind {
        Piece::Pawn => if endgame {
            ENDGAME_PAWN
        } else {
            PAWN
        },
        Piece::Knight => if endgame {
            ENDGAME_KNIGHT
        } else {
            KNIGHT
        },
        Piece::Bishop => if endgame {
            ENDGAME_BISHOP
        } else {
            BISHOP
        },
        Piece::Rook => if endgame {
            ENDGAME_ROOK
        } else {
            ROOK
        },
        Piece::Queen => if endgame {
            ENDGAME_QUEEN
        } else {
            QUEEN
        },
        Piece::King => if endgame {
            ENDGAME_KING
        } else {
            KING
        },
        Piece::Empty => 0,
    }
}

/// Material and bonus of all the pieces of one side and kind.
fn score_pieces(board: &BoardState, side: Color, kind: Piece, endgame: bool) -> (r: i32)
    requires
        kind != Piece::Empty,
    ensures
        r == score_of_kind(board@, side, kind, endgame),
        -3200 <= r <= 1_283_200,
{
    let positions = parse_bitboards(side, board.get_piece_bb(side, kind));
    let table = table_of(kind, endgame);
    let value = value_of(kind, endgame);
    let ghost squares = squares_of(board@.piece_set(side, kind));
    let mut score: i32 = 0;
    let mut index: usize = 0;
    proof {
        lemma_squares_from_members(board@.piece_set(side, kind), 0);
    }
    while index < positions.len()
        invariant
            index <= positions.len(),
            positions.len() == squares.len(),
            squares.len() <= 64,
            forall|i: int| 0 <= i < squares.len() ==> #[trigger] squares[i] < 64,
            forall|i: int| 0 <= i < squares.len() ==> (#[trigger] positions[i]).1 == squares[i],
            table == bonus_table(kind, endgame),
            value == material(kind, endgame),
            score == score_of_squares(side, kind, endgame, squares, index as nat),
            -50 * index <= score <= 20050 * index,
        decreases positions.len() - index,
    {
        let sq = positions[index].1;
        proof {
            lemma_bonus_bounds(side, kind, endgame, sq as int);
        }
        let slot: u8 = match side {
            Color::White => sq,
            Color::Black => (7 - sq / 8) * 8 + sq % 8,
        };
        score = score + value + table[slot as usize];
        index += 1;
    }
    score
}

/// The bishop-pair bonus of one side.
fn bishop_pair_bonus(board: &BoardState, side: Color) -> (r: i32)
    ensures
        r == bishop_pair(board@, side),
{
    if count_squares(board.get_piece_bb(side, Piece::Bishop)) == 2 {
        BISHOP_PAIR_BONUS
    } else {
        0
    }
}

/// The king-shelter term of one side.
fn king_shelter_bonus(board: &BoardState, tables: &AttackTables, side: Color) -> (r: i32)
    requires
        tables.wf(),
    ensures
        r == king_shelter(board@, side),
{
    let own = board.get_color_bb(side);
    let kings = parse_bitboards(side, board.get_piece_bb(side, Piece::King));
    proof {
        lemma_squares_from_members(board@.piece_set(side, Piece::King), 0);
    }
    if kings.len() == 0 {
        return KING_SHELTER_BONUS;
    }
    let sq = kings[0].1;
    let king_moves = generate_king_moves(tables, kings, own);
    if king_moves[0].1 == 0 {
        KING_SHELTER_BONUS
    } else if count_squares(own & tables.king[sq as usize]) <= 2 {
        KING_SHELTER_BONUS
    } else {
        -KING_CROWDED_PENALTY
    }
}

/// Everything that counts for one side.
fn total_of_side(board: &BoardState, tables: &AttackTables, side: Color, endgame: bool) -> (r: i32)
    requires
        tables.wf(),
        endgame == is_endgame(board@),
    ensures
        r == side_total(board@, side),
        -20_000 <= r <= 7_700_000,
{
    let pieces = score_pieces(board, side, Piece::Pawn, endgame) + score_pieces(
        board,
        side,
        Piece::Knight,
        endgame,
    ) + score_pieces(board, side, Piece::Bishop, endgame) + score_pieces(
        board,
        side,
        Piece::Rook,
        endgame,
    ) + score_pieces(board, side, Piece::Queen, endgame) + score_pieces(
        board,
        side,
        Piece::King,
        endgame,
    );
    let pair = bishop_pair_bonus(board, side);
    if endgame {
        pieces + pair
    } else {
        pieces + pair + king_shelter_bonus(board, tables, side)
    }
}

/// The static score of the position, seen from the side to move.
pub fn evaluate(board: &BoardState, tables: &AttackTables) -> (r: i32)
    requires
        tables.wf(),
    ensures
        r == evaluate_spec(board@),
        -8_000_000 <= r <= 8_000_000,
{
    proof {
        reveal(evaluate_spec);
    }
    let others = (board.bb_fullboard ^ board.get_piece_bb(Color::White, Piece::Pawn))
        ^ board.get_piece_bb(Color::Black, Piece::Pawn);
    let endgame = count_squares(others) < 6;
    let white = total_of_side(board, tables, Color::White, endgame);
    let black = total_of_side(board, tables, Color::Black, endgame);
    match board.to_move {
        Color::White => white - black,
        Color::Black => black - white,
    }
}

} // verus!
