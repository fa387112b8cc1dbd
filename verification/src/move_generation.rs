//! Pseudo-legal destinations, piece by piece.
//!
//! Each generator takes the pieces of one kind as a list of (side tag,
//! square) entries and answers, for each entry in turn, the square of the
//! piece as a one-square set and the set of squares it may move to. A
//! destination obeys the way the piece moves and is not held by a friendly
//! piece; whether the move leaves the own king attacked is not looked at.
use crate::attacks::bishop_attacks;
use crate::attacks::king_attacks;
use crate::attacks::knight_attacks;
use crate::attacks::pawn_attacks;
use crate::attacks::queen_attacks;
use crate::attacks::rook_attacks;
use crate::bits::square_bit;
use crate::bits::square_mask;
use crate::bits::Bitboard;
use crate::magic::get_bishop_move;
use crate::magic::get_rook_move;
use crate::magic::AttackTables;
use crate::utils::Color;
use vstd::prelude::*;

verus! {

/// The set `b` moved `n` squares up the board as `side` sees it.
pub open spec fn forward(side: Color, b: u64, n: u64) -> u64 {
    match side {
        Color::White => b >> n,
        Color::Black => b << n,
    }
}

/// The set `b` moved `n` squares down the board as `side` sees it.
pub open spec fn backward(side: Color, b: u64, n: u64) -> u64 {
    match side {
        Color::White => b << n,
        Color::Black => b >> n,
    }
}

/// The row where the pawns of `side` start.
pub open spec fn on_home_row(side: Color, sq: int) -> bool {
    match side {
        Color::White => 48 <= sq <= 55,
        Color::Black => 8 <= sq <= 15,
    }
}

/// Where a pawn of `side` on `sq` may move: onto an enemy piece diagonally
/// ahead; one square ahead if that square is free; two squares ahead from
/// its home row if both squares are free; onto the en-passant square if the
/// pawn attacks it and an enemy piece stands right behind it.
pub open spec fn pawn_destinations(
    side: Color,
    sq: int,
    friendly: u64,
    enemy: u64,
    en_passant: u64,
) -> u64 {
    let occupied = friendly | enemy;
    let one = forward(side, square_bit(sq), 8);
    let two = forward(side, square_bit(sq), 16);
    let attacked = pawn_attacks(side, sq);
    let captures = attacked & enemy;
    let single = if one & occupied == 0 {
        one
    } else {
        0
    };
    let double = if on_home_row(side, sq) && one & occupied == 0 && two & occupied == 0 {
        two
    } else {
        0
    };
    let passing = if attacked & en_passant != 0 && backward(side, en_passant, 8) & enemy != 0 {
        en_passant
    } else {
        0
    };
    captures | single | double | passing
}

pub open spec fn knight_destinations(sq: int, friendly: u64) -> u64 {
    knight_attacks(sq) & !friendly
}

pub open spec fn king_destinations(sq: int, friendly: u64) -> u64 {
    king_attacks(sq) & !friendly
}

pub open spec fn rook_destinations(sq: int, friendly: u64, occupied: u64) -> u64 {
    rook_attacks(sq, occupied) & !friendly
}

pub open spec fn bishop_destinations(sq: int, friendly: u64, occupied: u64) -> u64 {
    bishop_attacks(sq, occupied) & !friendly
}

pub open spec fn queen_destinations(sq: int, friendly: u64, occupied: u64) -> u64 {
    queen_attacks(sq, occupied) & !friendly
}

/// Every entry names a side and a square of the board.
pub open spec fn entries_on_board(pieces: Seq<(u8, u8)>) -> bool {
    forall|i: int| 0 <= i < pieces.len() ==> (#[trigger] pieces[i]).0 < 2 && pieces[i].1 < 64
}

pub fn generate_pawn_moves(
    tables: &AttackTables,
    pawns: Vec<(u8, u8)>,
    bb_friendly_pieces: Bitboard,
    bb_enemy_pieces: Bitboard,
    bb_en_passant: Bitboard,
) -> (r: Vec<(Bitboard, Bitboard)>)
    requires
        tables.wf(),
        entries_on_board(pawns@),
    ensures
        r.len() == pawns.len(),
        forall|i: int|
            0 <= i < r.len() ==> #[trigger] r[i] == (
                square_bit(pawns[i].1 as int),
                pawn_destinations(
                    Color::from_tag(pawns[i].0 as int),
                    pawns[i].1 as int,
                    bb_friendly_pieces,
                    bb_enemy_pieces,
                    bb_en_passant,
                ),
            ),
{
    let mut bb_moves_vec: Vec<(Bitboard, Bitboard)> = Vec::new();
    let bb_fullboard = bb_friendly_pieces | bb_enemy_pieces;
    let mut index: usize = 0;
    while index < pawns.len()
        invariant
            tables.wf(),
            entries_on_board(pawns@),
            bb_fullboard == bb_friendly_pieces | bb_enemy_pieces,
            index <= pawns.len(),
            bb_moves_vec.len() == index,
            forall|i: int|
                0 <= i < index ==> #[trigger] bb_moves_vec[i] == (
                    square_bit(pawns[i].1 as int),
                    pawn_destinations(
                        Color::from_tag(pawns[i].0 as int),
                        pawns[i].1 as int,
                        bb_friendly_pieces,
                        bb_enemy_pieces,
                        bb_en_passant,
                    ),
                ),
        decreases pawns.len() - index,
    {
        let pawn = pawns[index];
        let bb_pawn = square_mask(pawn.1);
        let attack_squares = tables.pawn[pawn.0 as usize][pawn.1 as usize];
        let captures = attack_squares & bb_enemy_pieces;
        let one = if pawn.0 == 0 {
            bb_pawn >> 8
        } else {
            bb_pawn << 8
        };
        let two = if pawn.0 == 0 {
            bb_pawn >> 16
        } else {
            bb_pawn << 16
        };
        let on_home = if pawn.0 == 0 {
            pawn.1 >= 48 && pawn.1 <= 55
        } else {
            pawn.1 >= 8 && pawn.1 <= 15
        };
        let behind = if pawn.0 == 0 {
            bb_en_passant << 8
        } else {
            bb_en_passant >> 8
        };
        let single = if one & bb_fullboard == 0 {
            one
        } else {
            0
        };
        let double = if on_home && one & bb_fullboard == 0 && two & bb_fullboard == 0 {
            two
        } else {
            0
        };
        let passing = if attack_squares & bb_en_passant != 0 && behind & bb_enemy_pieces != 0 {
            bb_en_passant
        } else {
            0
        };
        bb_moves_vec.push((bb_pawn, captures | single | double | passing));
        index += 1;
    }
    bb_moves_vec
}

pub fn generate_king_moves(
    tables: &AttackTables,
    kings: Vec<(u8, u8)>,
    bb_friendly_pieces: Bitboard,
) -> (r: Vec<(Bitboard, Bitboard)>)
    requires
        tables.wf(),
        entries_on_board(kings@),
    ensures
        r.len() == kings.len(),
        forall|i: int|
            0 <= i < r.len() ==> #[trigger] r[i] == (
                square_bit(kings[i].1 as int),
                king_destinations(kings[i].1 as int, bb_friendly_pieces),
            ),
{
    let mut bb_moves_vec: Vec<(Bitboard, Bitboard)> = Vec::new();
    let mut index: usize = 0;
    while index < kings.len()
        invariant
            tables.wf(),
            entries_on_board(kings@),
            index <= kings.len(),
            bb_moves_vec.len() == index,
            forall|i: int|
                0 <= i < index ==> #[trigger] bb_moves_vec[i] == (
                    square_bit(kings[i].1 as int),
                    king_destinations(kings[i].1 as int, bb_friendly_pieces),
                ),
        decreases kings.len() - index,
    {
        let king = kings[index];
        let bb_moves: Bitboard = tables.king[king.1 as usize];
        bb_moves_vec.push((square_mask(king.1), bb_moves & !bb_friendly_pieces));
        index += 1;
    }
    bb_moves_vec
}

pub fn generate_knight_moves(
    tables: &AttackTables,
    knights: Vec<(u8, u8)>,
    bb_friendly_pieces: Bitboard,
) -> (r: Vec<(Bitboard, Bitboard)>)
    requires
        tables.wf(),
        entries_on_board(knights@),
    ensures
        r.len() == knights.len(),
        forall|i: int|
            0 <= i < r.len() ==> #[trigger] r[i] == (
                square_bit(knights[i].1 as int),
                knight_destinations(knights[i].1 as int, bb_friendly_pieces),
            ),
{
    let mut bb_moves_vec: Vec<(Bitboard, Bitboard)> = Vec::new();
    let mut index: usize = 0;
    while index < knights.len()
        invariant
            tables.wf(),
            entries_on_board(knights@),
            index <= knights.len(),
            bb_moves_vec.len() == index,
            forall|i: int|
                0 <= i < index ==> #[trigger] bb_moves_vec[i] == (
                    square_bit(knights[i].1 as int),
                    knight_destinations(knights[i].1 as int, bb_friendly_pieces),
                ),
        decreases knights.len() - index,
    {
        let knight = knights[index];
        let bb_moves: Bitboard = tables.knight[knight.1 as usize];
        bb_moves_vec.push((square_mask(knight.1), bb_moves & !bb_friendly_pieces));
        index += 1;
    }
    bb_moves_vec
}

/// The attack set of the rook on `sq`, through the magic table.
fn rook_lookup(tables: &AttackTables, sq: u8, bb_fullboard: Bitboard) -> (r: Bitboard)
    requires
        tables.wf(),
        sq < 64,
    ensures
        r == rook_attacks(sq as int, bb_fullboard),
{
    let entry = tables.rook.entries[sq as usize];
    assert(tables.rook.slot(sq as int, bb_fullboard) < tables.rook.moves.len());
    get_rook_move(tables, entry, bb_fullboard)
}

/// The attack set of the bishop on `sq`, through the magic table.
fn bishop_lookup(tables: &AttackTables, sq: u8, bb_fullboard: Bitboard) -> (r: Bitboard)
    requires
        tables.wf(),
        sq < 64,
    ensures
        r == bishop_attacks(sq as int, bb_fullboard),
{
    let entry = tables.bishop.entries[sq as usize];
    assert(tables.bishop.slot(sq as int, bb_fullboard) < tables.bishop.moves.len());
    get_bishop_move(tables, entry, bb_fullboard)
}

pub fn generate_rook_moves(
    tables: &AttackTables,
    rooks: Vec<(u8, u8)>,
    bb_friendly_pieces: Bitboard,
    bb_fullboard: Bitboard,
) -> (r: Vec<(Bitboard, Bitboard)>)
    requires
        tables.wf(),
        entries_on_board(rooks@),
    ensures
        r.len() == rooks.len(),
        forall|i: int|
            0 <= i < r.len() ==> #[trigger] r[i] == (
                square_bit(rooks[i].1 as int),
                rook_destinations(rooks[i].1 as int, bb_friendly_pieces, bb_fullboard),
            ),
{
    let mut bb_moves_vec: Vec<(Bitboard, Bitboard)> = Vec::new();
    let mut index: usize = 0;
    while index < rooks.len()
        invariant
            tables.wf(),
            entries_on_board(rooks@),
            index <= rooks.len(),
            bb_moves_vec.len() == index,
            forall|i: int|
                0 <= i < index ==> #[trigger] bb_moves_vec[i] == (
                    square_bit(rooks[i].1 as int),
                    rook_destinations(rooks[i].1 as int, bb_friendly_pieces, bb_fullboard),
                ),
        decreases rooks.len() - index,
    {
        let rook = rooks[index];
        bb_moves_vec.push(
            (square_mask(rook.1), rook_lookup(tables, rook.1, bb_fullboard) & !bb_friendly_pieces),
        );
        index += 1;
    }
    bb_moves_vec
}

pub fn generate_bishop_moves(
    tables: &AttackTables,
    bishops: Vec<(u8, u8)>,
    bb_friendly_pieces: Bitboard,
    bb_fullboard: Bitboard,
) -> (r: Vec<(Bitboard, Bitboard)>)
    requires
        tables.wf(),
        entries_on_board(bishops@),
    ensures
        r.len() == bishops.len(),
        forall|i: int|
            0 <= i < r.len() ==> #[trigger] r[i] == (
                square_bit(bishops[i].1 as int),
                bishop_destinations(bishops[i].1 as int, bb_friendly_pieces, bb_fullboard),
            ),
{
    let mut bb_moves_vec: Vec<(Bitboard, Bitboard)> = Vec::new();
    let mut index: usize = 0;
    while index < bishops.len()
        invariant
            tables.wf(),
            entries_on_board(bishops@),
            index <= bishops.len(),
            bb_moves_vec.len() == index,
            forall|i: int|
                0 <= i < index ==> #[trigger] bb_moves_vec[i] == (
                    square_bit(bishops[i].1 as int),
                    bishop_destinations(bishops[i].1 as int, bb_friendly_pieces, bb_fullboard),
                ),
        decreases bishops.len() - index,
    {
        let bishop = bishops[index];
        bb_moves_vec.push(
            (
                square_mask(bishop.1),
                bishop_lookup(tables, bishop.1, bb_fullboard) & !bb_friendly_pieces,
            ),
        );
        index += 1;
    }
    bb_moves_vec
}

/// A queen moves as a rook and as a bishop.
pub fn generate_quen_moves(
    tables: &AttackTables,
    queens: Vec<(u8, u8)>,
    bb_fullboard: Bitboard,
    bb_friendly_pieces: Bitboard,
) -> (r: Vec<(Bitboard, Bitboard)>)
    requires
        tables.wf(),
        entries_on_board(queens@),
    ensures
        r.len() == queens.len(),
        forall|i: int|
            0 <= i < r.len() ==> #[trigger] r[i] == (
                square_bit(queens[i].1 as int),
                queen_destinations(queens[i].1 as int, bb_friendly_pieces, bb_fullboard),
            ),
{
    let mut bb_moves_vec: Vec<(Bitboard, Bitboard)> = Vec::new();
    let mut index: usize = 0;
    while index < queens.len()
        invariant
            tables.wf(),
            entries_on_board(queens@),
            index <= queens.len(),
            bb_moves_vec.len() == index,
            forall|i: int|
                0 <= i < index ==> #[trigger] bb_moves_vec[i] == (
                    square_bit(queens[i].1 as int),
                    queen_destinations(queens[i].1 as int, bb_friendly_pieces, bb_fullboard),
                ),
        decreases queens.len() - index,
    {
        let queen = queens[index];
        let rook_moves = rook_lookup(tables, queen.1, bb_fullboard);
        let bishop_moves = bishop_lookup(tables, queen.1, bb_fullboard);
        bb_moves_vec.push((square_mask(queen.1), (rook_moves | bishop_moves) & !bb_friendly_pieces));
        index += 1;
    }
    bb_moves_vec
}

} // verus!
