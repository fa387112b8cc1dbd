//! Board geometry: where a knight, a king or a pawn attacks from a square,
//! and where a rook or a bishop attacks along its rays given the blockers.
//!
//! Rows count from the eighth rank (row 0) to the first (row 7), columns from
//! the a-file (column 0) to the h-file (column 7); square `row * 8 + col`.
//! White pawns move towards row 0, black pawns towards row 7.
use crate::bits::count_squares;
use crate::bits::holds;
use crate::bits::lemma_count_below_empty;
use crate::bits::lemma_count_below_member;
use crate::bits::lemma_count_below_single;
use crate::bits::lemma_count_below_union;
use crate::bits::lemma_union_laws;
use crate::bits::popcount;
use crate::bits::square_bit;
use crate::bits::square_mask;
use crate::bits::test_square;
use crate::bits::Bitboard;
use crate::utils::Color;
use vstd::prelude::*;

verus! {

broadcast use crate::bits::group_bits;

pub open spec fn row_of(sq: int) -> int {
    sq / 8
}

pub open spec fn col_of(sq: int) -> int {
    sq % 8
}

pub open spec fn on_board(row: int, col: int) -> bool {
    0 <= row < 8 && 0 <= col < 8
}

pub open spec fn square_at(row: int, col: int) -> int {
    row * 8 + col
}

/// The squares of one column of the board (column 0 is the a-file).
pub fn file_mask(col: u8) -> (r: Bitboard)
    requires
        col < 8,
    ensures
        forall|sq: int| #[trigger] holds(r, sq) == (0 <= sq < 64 && col_of(sq) == col),
{
    let mut mask: Bitboard = 0;
    let mut row: u8 = 0;
    while row < 8
        invariant
            col < 8,
            row <= 8,
            forall|sq: int| #[trigger] holds(mask, sq) == (0 <= sq < row * 8 && col_of(sq) == col),
        decreases 8 - row,
    {
        let ghost before = mask;
        mask = mask | square_mask(row * 8 + col);
        proof {
            assert forall|sq: int| #[trigger]
                holds(mask, sq) == (0 <= sq < (row + 1) * 8 && col_of(sq) == col) by {
                assert(holds(mask, sq) == (holds(before, sq) || sq == row * 8 + col));
                if row * 8 <= sq < row * 8 + 8 {
                    assert((sq % 8 == col) == (sq == row * 8 + col));
                }
            }
        }
        row += 1;
    }
    mask
}

/// The squares of one row of the board (row 0 is the eighth rank).
pub fn rank_mask(row: u8) -> (r: Bitboard)
    requires
        row < 8,
    ensures
        forall|sq: int| #[trigger] holds(r, sq) == (0 <= sq < 64 && row_of(sq) == row),
{
    let mut mask: Bitboard = 0;
    let mut col: u8 = 0;
    while col < 8
        invariant
            row < 8,
            col <= 8,
            forall|sq: int| #[trigger] holds(mask, sq) == (row * 8 <= sq < row * 8 + col),
        decreases 8 - col,
    {
        mask = mask | square_mask(row * 8 + col);
        col += 1;
    }
    mask
}

/// The pieces that attack a fixed pattern of squares whatever stands between.
#[derive(Debug, Clone, Copy, PartialEq, Eq, Structural)]
pub enum Leaper {
    Knight,
    King,
    WhitePawn,
    BlackPawn,
}

pub open spec fn distance(a: int, b: int) -> int {
    if a <= b {
        b - a
    } else {
        a - b
    }
}

/// A leaper of this kind on `from` attacks `to`.
pub open spec fn leaps(kind: Leaper, from: int, to: int) -> bool {
    let rows = distance(row_of(from), row_of(to));
    let cols = distance(col_of(from), col_of(to));
    &&& 0 <= from < 64
    &&& 0 <= to < 64
    &&& match kind {
        Leaper::Knight => (rows == 1 && cols == 2) || (rows == 2 && cols == 1),
        Leaper::King => rows <= 1 && cols <= 1 && from != to,
        Leaper::WhitePawn => row_of(to) == row_of(from) - 1 && cols == 1,
        Leaper::BlackPawn => row_of(to) == row_of(from) + 1 && cols == 1,
    }
}

/// The squares below `k` that a leaper on `from` attacks.
pub open spec fn leap_set_below(kind: Leaper, from: int, k: nat) -> u64
    decreases k,
{
    if k == 0 {
        0
    } else {
        leap_set_below(kind, from, (k - 1) as nat) | if leaps(kind, from, k - 1) {
            square_bit(k - 1)
        } else {
            0
        }
    }
}

/// All the squares that a leaper on `from` attacks.
pub open spec fn leap_set(kind: Leaper, from: int) -> u64 {
    leap_set_below(kind, from, 64)
}

pub open spec fn knight_attacks(sq: int) -> u64 {
    leap_set(Leaper::Knight, sq)
}

pub open spec fn king_attacks(sq: int) -> u64 {
    leap_set(Leaper::King, sq)
}

pub open spec fn pawn_leaper(side: Color) -> Leaper {
    match side {
        Color::White => Leaper::WhitePawn,
        Color::Black => Leaper::BlackPawn,
    }
}

/// The one or two squares diagonally ahead of a pawn of `side` on `sq`.
pub open spec fn pawn_attacks(side: Color, sq: int) -> u64 {
    leap_set(pawn_leaper(side), sq)
}

pub proof fn lemma_leap_set_below_holds(kind: Leaper, from: int, k: nat, t: int)
    requires
        k <= 64,
    ensures
        holds(leap_set_below(kind, from, k), t) == (0 <= t < k && leaps(kind, from, t)),
    decreases k,
{
    if k > 0 {
        lemma_leap_set_below_holds(kind, from, (k - 1) as nat, t);
    }
}

/// A square is in the attack set of a leaper exactly when the leaper's
/// pattern reaches it.
pub proof fn lemma_leap_set_holds(kind: Leaper, from: int, t: int)
    ensures
        holds(leap_set(kind, from), t) == leaps(kind, from, t),
{
    lemma_leap_set_below_holds(kind, from, 64, t);
}

fn gap(a: u8, b: u8) -> (r: u8)
    ensures
        r == distance(a as int, b as int),
{
    if a <= b {
        b - a
    } else {
        a - b
    }
}

/// Whether a leaper of this kind on `from` attacks `to`.
pub fn leaper_reaches(kind: Leaper, from: u8, to: u8) -> (r: bool)
    requires
        from < 64,
        to < 64,
    ensures
        r == leaps(kind, from as int, to as int),
{
    let rows = gap(from / 8, to / 8);
    let cols = gap(from % 8, to % 8);
    match kind {
        Leaper::Knight => (rows == 1 && cols == 2) || (rows == 2 && cols == 1),
        Leaper::King => rows <= 1 && cols <= 1 && from != to,
        Leaper::WhitePawn => to / 8 + 1 == from / 8 && cols == 1,
        Leaper::BlackPawn => to / 8 == from / 8 + 1 && cols == 1,
    }
}

/// The attack set of a leaper on `from`.
pub fn leaper_attack_set(kind: Leaper, from: u8) -> (r: Bitboard)
    requires
        from < 64,
    ensures
        r == leap_set(kind, from as int),
{
    let mut acc: Bitboard = 0;
    let mut t: u8 = 0;
    while t < 64
        invariant
            from < 64,
            t <= 64,
            acc == leap_set_below(kind, from as int, t as nat),
        decreases 64 - t,
    {
        if leaper_reaches(kind, from, t) {
            acc = acc | square_mask(t);
        } else {
            proof {
                lemma_union_laws(acc, 0, 0);
            }
        }
        t += 1;
    }
    acc
}

/// A step of one square: each part is -1, 0 or 1, and not both are 0.
pub open spec fn unit_step(dr: int, dc: int) -> bool {
    -1 <= dr <= 1 && -1 <= dc <= 1 && !(dr == 0 && dc == 0)
}

/// The squares a slider sees from (`row`, `col`) in direction (`dr`, `dc`),
/// walking at most `steps` squares: every square up to and including the
/// first blocker, or up to the edge of the board.
pub open spec fn ray(row: int, col: int, dr: int, dc: int, blockers: u64, steps: nat) -> u64
    decreases steps,
{
    if steps == 0 || !on_board(row + dr, col + dc) {
        0
    } else if holds(blockers, square_at(row + dr, col + dc)) {
        square_bit(square_at(row + dr, col + dc))
    } else {
        square_bit(square_at(row + dr, col + dc)) | ray(
            row + dr,
            col + dc,
            dr,
            dc,
            blockers,
            (steps - 1) as nat,
        )
    }
}

/// The squares on a ray where a blocker changes what the slider sees: all
/// the squares of the ray but the last one before the edge.
pub open spec fn ray_mask(row: int, col: int, dr: int, dc: int, steps: nat) -> u64
    decreases steps,
{
    if steps == 0 || !on_board(row + dr, col + dc) || !on_board(row + 2 * dr, col + 2 * dc) {
        0
    } else {
        square_bit(square_at(row + dr, col + dc)) | ray_mask(
            row + dr,
            col + dc,
            dr,
            dc,
            (steps - 1) as nat,
        )
    }
}

/// The four directions of a rook (`diagonal` false) or a bishop (true).
pub open spec fn direction(diagonal: bool, i: int) -> (int, int) {
    if diagonal {
        if i == 0 {
            (-1, -1)
        } else if i == 1 {
            (-1, 1)
        } else if i == 2 {
            (1, -1)
        } else {
            (1, 1)
        }
    } else {
        if i == 0 {
            (-1, 0)
        } else if i == 1 {
            (1, 0)
        } else if i == 2 {
            (0, -1)
        } else {
            (0, 1)
        }
    }
}

pub open spec fn slider_ray(diagonal: bool, sq: int, i: int, blockers: u64) -> u64 {
    ray(row_of(sq), col_of(sq), direction(diagonal, i).0, direction(diagonal, i).1, blockers, 7)
}

pub open spec fn slider_ray_mask(diagonal: bool, sq: int, i: int) -> u64 {
    ray_mask(row_of(sq), col_of(sq), direction(diagonal, i).0, direction(diagonal, i).1, 7)
}

/// The ray walk: what a rook (`diagonal` false) or a bishop (true) on `sq`
/// attacks when `blockers` are the occupied squares.
pub open spec fn slider_attacks(diagonal: bool, sq: int, blockers: u64) -> u64 {
    slider_ray(diagonal, sq, 0, blockers) | slider_ray(diagonal, sq, 1, blockers) | slider_ray(
        diagonal,
        sq,
        2,
        blockers,
    ) | slider_ray(diagonal, sq, 3, blockers)
}

pub open spec fn rook_attacks(sq: int, blockers: u64) -> u64 {
    slider_attacks(false, sq, blockers)
}

pub open spec fn bishop_attacks(sq: int, blockers: u64) -> u64 {
    slider_attacks(true, sq, blockers)
}

pub open spec fn queen_attacks(sq: int, blockers: u64) -> u64 {
    rook_attacks(sq, blockers) | bishop_attacks(sq, blockers)
}

/// The squares whose occupancy decides what a slider on `sq` attacks.
pub open spec fn slider_mask(diagonal: bool, sq: int) -> u64 {
    slider_ray_mask(diagonal, sq, 0) | slider_ray_mask(diagonal, sq, 1) | slider_ray_mask(
        diagonal,
        sq,
        2,
    ) | slider_ray_mask(diagonal, sq, 3)
}

/// Blockers off the mask of a ray do not change the ray.
pub proof fn lemma_ray_ignores_outside(
    row: int,
    col: int,
    dr: int,
    dc: int,
    blockers: u64,
    m: u64,
    steps: nat,
)
    requires
        on_board(row, col),
        forall|i: int| holds(ray_mask(row, col, dr, dc, steps), i) ==> holds(m, i),
    ensures
        ray(row, col, dr, dc, blockers, steps) == ray(row, col, dr, dc, blockers & m, steps),
    decreases steps,
{
    if steps > 0 && on_board(row + dr, col + dc) {
        let sq = square_at(row + dr, col + dc);
        let b = square_bit(sq);
        let rest = (steps - 1) as nat;
        if on_board(row + 2 * dr, col + 2 * dc) {
            assert(holds(ray_mask(row, col, dr, dc, steps), sq));
            assert(holds(blockers & m, sq) == holds(blockers, sq));
            lemma_ray_ignores_outside(row + dr, col + dc, dr, dc, blockers, m, rest);
        } else {
            assert(ray(row + dr, col + dc, dr, dc, blockers, rest) == 0);
            assert(ray(row + dr, col + dc, dr, dc, blockers & m, rest) == 0);
            lemma_union_laws(b, 0, 0);
        }
    }
}

/// Only the blockers on the mask of a slider decide what it attacks.
pub proof fn lemma_slider_attacks_masked(diagonal: bool, sq: int, blockers: u64)
    requires
        0 <= sq < 64,
    ensures
        slider_attacks(diagonal, sq, blockers) == slider_attacks(
            diagonal,
            sq,
            blockers & slider_mask(diagonal, sq),
        ),
{
    let m = slider_mask(diagonal, sq);
    let row = row_of(sq);
    let col = col_of(sq);
    lemma_ray_ignores_outside(row, col, direction(diagonal, 0).0, direction(diagonal, 0).1, blockers, m, 7);
    lemma_ray_ignores_outside(row, col, direction(diagonal, 1).0, direction(diagonal, 1).1, blockers, m, 7);
    lemma_ray_ignores_outside(row, col, direction(diagonal, 2).0, direction(diagonal, 2).1, blockers, m, 7);
    lemma_ray_ignores_outside(row, col, direction(diagonal, 3).0, direction(diagonal, 3).1, blockers, m, 7);
}

/// How many steps a walk from coordinate `x` can take in direction `d`.
pub open spec fn axis_room(x: int, d: int) -> int {
    if d < 0 {
        x
    } else if d > 0 {
        7 - x
    } else {
        7
    }
}

pub open spec fn room(row: int, col: int, dr: int, dc: int) -> int {
    if axis_room(row, dr) <= axis_room(col, dc) {
        axis_room(row, dr)
    } else {
        axis_room(col, dc)
    }
}

proof fn lemma_ray_mask_count(row: int, col: int, dr: int, dc: int, steps: nat)
    requires
        on_board(row, col),
        unit_step(dr, dc),
    ensures
        popcount(ray_mask(row, col, dr, dc, steps)) <= if room(row, col, dr, dc) >= 1 {
            room(row, col, dr, dc) - 1
        } else {
            0
        },
    decreases steps,
{
    if steps == 0 || !on_board(row + dr, col + dc) || !on_board(row + 2 * dr, col + 2 * dc) {
        lemma_count_below_empty(64);
    } else {
        let sq = square_at(row + dr, col + dc);
        let rest = ray_mask(row + dr, col + dc, dr, dc, (steps - 1) as nat);
        lemma_ray_mask_count(row + dr, col + dc, dr, dc, (steps - 1) as nat);
        lemma_count_below_union(square_bit(sq), rest, 64);
        lemma_count_below_single(sq, 64);
    }
}

/// The mask of a slider holds at least one and at most twelve squares.
#[verifier::rlimit(50)]
pub proof fn lemma_slider_mask_count(diagonal: bool, sq: int)
    requires
        0 <= sq < 64,
    ensures
        1 <= popcount(slider_mask(diagonal, sq)) <= 12,
{
    let row = row_of(sq);
    let col = col_of(sq);
    let m0 = slider_ray_mask(diagonal, sq, 0);
    let m1 = slider_ray_mask(diagonal, sq, 1);
    let m2 = slider_ray_mask(diagonal, sq, 2);
    let m3 = slider_ray_mask(diagonal, sq, 3);
    lemma_ray_mask_count(row, col, direction(diagonal, 0).0, direction(diagonal, 0).1, 7);
    lemma_ray_mask_count(row, col, direction(diagonal, 1).0, direction(diagonal, 1).1, 7);
    lemma_ray_mask_count(row, col, direction(diagonal, 2).0, direction(diagonal, 2).1, 7);
    lemma_ray_mask_count(row, col, direction(diagonal, 3).0, direction(diagonal, 3).1, 7);
    lemma_count_below_union(m0, m1, 64);
    lemma_count_below_union(m0 | m1, m2, 64);
    lemma_count_below_union(m0 | m1 | m2, m3, 64);
    // A square next to `sq` with room behind it is on the mask.
    let dr: int = if row >= 2 {
        -1
    } else {
        1
    };
    let dc: int = if diagonal {
        if col >= 2 {
            -1
        } else {
            1
        }
    } else {
        0
    };
    let near = square_at(row + dr, col + dc);
    assert(holds(ray_mask(row, col, dr, dc, 7), near));
    assert(holds(slider_mask(diagonal, sq), near));
    lemma_count_below_member(slider_mask(diagonal, sq), near, 64);
}

fn step_to(row: i8, col: i8, dr: i8, dc: i8) -> (r: Option<u8>)
    requires
        on_board(row as int, col as int),
        -1 <= dr <= 1,
        -1 <= dc <= 1,
    ensures
        r.is_some() == on_board(row + dr, col + dc),
        r.is_some() ==> r.unwrap() == square_at(row + dr, col + dc) && r.unwrap() < 64,
{
    let r2: i8 = row + dr;
    let c2: i8 = col + dc;
    if r2 < 0 || r2 > 7 || c2 < 0 || c2 > 7 {
        None
    } else {
        Some((r2 * 8 + c2) as u8)
    }
}

/// Walks one ray from `sq` and collects what a slider sees on it.
pub fn walk_ray(sq: u8, dr: i8, dc: i8, blockers: Bitboard) -> (r: Bitboard)
    requires
        sq < 64,
        -1 <= dr <= 1,
        -1 <= dc <= 1,
    ensures
        r == ray(row_of(sq as int), col_of(sq as int), dr as int, dc as int, blockers, 7),
{
    let ghost whole = ray(row_of(sq as int), col_of(sq as int), dr as int, dc as int, blockers, 7);
    let mut row: i8 = (sq / 8) as i8;
    let mut col: i8 = (sq % 8) as i8;
    let mut acc: Bitboard = 0;
    let mut k: u8 = 0;
    proof {
        lemma_union_laws(whole, 0, 0);
    }
    while k < 7
        invariant
            k <= 7,
            on_board(row as int, col as int),
            -1 <= dr <= 1,
            -1 <= dc <= 1,
            whole == ray(row_of(sq as int), col_of(sq as int), dr as int, dc as int, blockers, 7),
            whole == acc | ray(row as int, col as int, dr as int, dc as int, blockers, (7 - k) as nat),
        decreases 7 - k,
    {
        let ghost tail = ray(row as int, col as int, dr as int, dc as int, blockers, (7 - k) as nat);
        match step_to(row, col, dr, dc) {
            None => {
                proof {
                    lemma_union_laws(acc, 0, 0);
                }
                return acc;
            },
            Some(next) => {
                let b = square_mask(next);
                if test_square(blockers, next) {
                    return acc | b;
                }
                proof {
                    let rest = ray(
                        row + dr,
                        col + dc,
                        dr as int,
                        dc as int,
                        blockers,
                        (7 - k - 1) as nat,
                    );
                    assert(tail == b | rest);
                    lemma_union_laws(acc, b, rest);
                }
                acc = acc | b;
                row = row + dr;
                col = col + dc;
                k += 1;
            },
        }
    }
    proof {
        lemma_union_laws(acc, 0, 0);
    }
    acc
}

/// Walks one ray from `sq` on an empty board and collects every square of
/// it but the last.
pub fn walk_ray_mask(sq: u8, dr: i8, dc: i8) -> (r: Bitboard)
    requires
        sq < 64,
        -1 <= dr <= 1,
        -1 <= dc <= 1,
    ensures
        r == ray_mask(row_of(sq as int), col_of(sq as int), dr as int, dc as int, 7),
{
    let ghost whole = ray_mask(row_of(sq as int), col_of(sq as int), dr as int, dc as int, 7);
    let mut row: i8 = (sq / 8) as i8;
    let mut col: i8 = (sq % 8) as i8;
    let mut acc: Bitboard = 0;
    let mut k: u8 = 0;
    proof {
        lemma_union_laws(whole, 0, 0);
    }
    while k < 7
        invariant
            k <= 7,
            on_board(row as int, col as int),
            -1 <= dr <= 1,
            -1 <= dc <= 1,
            whole == ray_mask(row_of(sq as int), col_of(sq as int), dr as int, dc as int, 7),
            whole == acc | ray_mask(row as int, col as int, dr as int, dc as int, (7 - k) as nat),
        decreases 7 - k,
    {
        let ghost tail = ray_mask(row as int, col as int, dr as int, dc as int, (7 - k) as nat);
        match step_to(row, col, dr, dc) {
            None => {
                proof {
                    lemma_union_laws(acc, 0, 0);
                }
                return acc;
            },
            Some(next) => {
                let beyond = step_to(row + dr, col + dc, dr, dc);
                if beyond.is_none() {
                    proof {
                        lemma_union_laws(acc, 0, 0);
                    }
                    return acc;
                }
                let b = square_mask(next);
                proof {
                    let rest = ray_mask(row + dr, col + dc, dr as int, dc as int, (7 - k - 1) as nat);
                    assert(tail == b | rest);
                    lemma_union_laws(acc, b, rest);
                }
                acc = acc | b;
                row = row + dr;
                col = col + dc;
                k += 1;
            },
        }
    }
    proof {
        lemma_union_laws(acc, 0, 0);
    }
    acc
}

/// The reference ray walk: what a rook (`diagonal` false) or a bishop (true)
/// on `sq` attacks when `blockers` are the occupied squares.
pub fn walk_slider(diagonal: bool, sq: u8, blockers: Bitboard) -> (r: Bitboard)
    requires
        sq < 64,
    ensures
        r == slider_attacks(diagonal, sq as int, blockers),
{
    if diagonal {
        walk_ray(sq, -1, -1, blockers) | walk_ray(sq, -1, 1, blockers) | walk_ray(
            sq,
            1,
            -1,
            blockers,
        ) | walk_ray(sq, 1, 1, blockers)
    } else {
        walk_ray(sq, -1, 0, blockers) | walk_ray(sq, 1, 0, blockers) | walk_ray(
            sq,
            0,
            -1,
            blockers,
        ) | walk_ray(sq, 0, 1, blockers)
    }
}

/// The mask of a slider on `sq`, with the number of squares on it.
pub fn walk_slider_mask(diagonal: bool, sq: u8) -> (r: (Bitboard, u8))
    requires
        sq < 64,
    ensures
        r.0 == slider_mask(diagonal, sq as int),
        r.1 == popcount(r.0),
        1 <= r.1 <= 12,
{
    let mask = if diagonal {
        walk_ray_mask(sq, -1, -1) | walk_ray_mask(sq, -1, 1) | walk_ray_mask(sq, 1, -1)
            | walk_ray_mask(sq, 1, 1)
    } else {
        walk_ray_mask(sq, -1, 0) | walk_ray_mask(sq, 1, 0) | walk_ray_mask(sq, 0, -1)
            | walk_ray_mask(sq, 0, 1)
    };
    proof {
        lemma_slider_mask_count(diagonal, sq as int);
    }
    (mask, count_squares(mask) as u8)
}

} // verus!
