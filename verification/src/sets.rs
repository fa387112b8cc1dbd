//! Facts about square sets under the moves of a piece: what becomes of a
//! set, of a union of sets and of two disjoint sets when a square is taken
//! out of one and put into another.
use crate::attacks::lemma_leap_set_holds;
use crate::attacks::pawn_attacks;
use crate::attacks::pawn_leaper;
use crate::bits::holds;
use crate::bits::lemma_ext;
use crate::bits::lemma_holds_nonzero;
use crate::bits::lemma_lowest_square;
use crate::bits::lowest_square;
use crate::bits::square_bit;
use crate::board::double_advance;
use crate::board::square_ahead;
use crate::move_generation::forward;
use crate::move_generation::pawn_destinations;
use crate::utils::Color;
use vstd::prelude::*;

verus! {

broadcast use crate::bits::group_bits;

/// The set with `f` taken out and `t` put in.
pub open spec fn moved(x: u64, f: int, t: int) -> u64 {
    (x & !square_bit(f)) | square_bit(t)
}

/// The union of the six sets of a row.
pub open spec fn union_of_row(row: Seq<u64>) -> u64 {
    row[0] | row[1] | row[2] | row[3] | row[4] | row[5]
}

/// No two sets of the row share a square.
pub open spec fn row_disjoint(row: Seq<u64>) -> bool {
    forall|i: int, j: int| 0 <= i < 6 && 0 <= j < 6 && i != j ==> #[trigger] (row[i] & row[j]) == 0
}

/// No set of one row shares a square with a set of the other.
pub open spec fn rows_disjoint(a: Seq<u64>, b: Seq<u64>) -> bool {
    forall|i: int, j: int| 0 <= i < 6 && 0 <= j < 6 ==> #[trigger] (a[i] & b[j]) == 0
}

/// Two sets that share no square have no common member, and the other way
/// round.
pub proof fn lemma_disjoint_pointwise(a: u64, b: u64)
    ensures
        a & b == 0 <==> (forall|sq: int| !(holds(a, sq) && holds(b, sq))),
{
    if a & b != 0 {
        lemma_lowest_square(a & b);
        let w = lowest_square(a & b);
        assert(holds(a, w) && holds(b, w));
    }
    if a & b == 0 {
        assert forall|sq: int| !(holds(a, sq) && holds(b, sq)) by {
            assert(holds(a & b, sq) == (holds(a, sq) && holds(b, sq)));
        }
    }
}

pub proof fn lemma_disjoint_at(a: u64, b: u64, sq: int)
    requires
        a & b == 0,
    ensures
        !(holds(a, sq) && holds(b, sq)),
{
    lemma_disjoint_pointwise(a, b);
}

/// A piece that went from `f` to `t` and back stands where it stood.
pub proof fn lemma_there_and_back(x: u64, f: int, t: int)
    requires
        0 <= f < 64,
        0 <= t < 64,
        holds(x, f),
        !holds(x, t),
    ensures
        moved(moved(x, f, t), t, f) == x,
{
    lemma_ext(moved(moved(x, f, t), t, f), x);
}

/// Taking a member out and putting it back changes nothing; taking out
/// what is not a member changes nothing either.
pub proof fn lemma_out_and_in(x: u64, t: int)
    requires
        0 <= t < 64,
    ensures
        holds(x, t) ==> (x & !square_bit(t)) | square_bit(t) == x,
        !holds(x, t) ==> x & !square_bit(t) == x,
        !holds(x, t) ==> (x | square_bit(t)) & !square_bit(t) == x,
{
    if holds(x, t) {
        lemma_ext((x & !square_bit(t)) | square_bit(t), x);
    } else {
        lemma_ext(x & !square_bit(t), x);
        lemma_ext((x | square_bit(t)) & !square_bit(t), x);
    }
}

/// Membership in the set of a moved piece.
pub proof fn lemma_moved_holds(x: u64, f: int, t: int, sq: int)
    requires
        0 <= f < 64,
        0 <= t < 64,
    ensures
        holds(moved(x, f, t), sq) == ((holds(x, sq) && sq != f) || sq == t),
        holds(x & !square_bit(t), sq) == (holds(x, sq) && sq != t),
        holds(x | square_bit(t), sq) == (holds(x, sq) || sq == t),
{
}

/// A square is in the union of a row exactly when it is in one of its sets.
pub proof fn lemma_union_of_row_holds(row: Seq<u64>, sq: int)
    ensures
        holds(union_of_row(row), sq) == (holds(row[0], sq) || holds(row[1], sq) || holds(
            row[2],
            sq,
        ) || holds(row[3], sq) || holds(row[4], sq) || holds(row[5], sq)),
{
}

/// When the piece of set `k` moves from `f` to `t`, the union of its row
/// moves with it.
pub proof fn lemma_union_after_move(row: Seq<u64>, k: int, f: int, t: int)
    requires
        row.len() == 6,
        0 <= k < 6,
        0 <= f < 64,
        0 <= t < 64,
        row_disjoint(row),
        holds(row[k], f),
    ensures
        union_of_row(row.update(k, moved(row[k], f, t))) == moved(union_of_row(row), f, t),
{
    let after = row.update(k, moved(row[k], f, t));
    assert forall|sq: int| 0 <= sq < 64 implies holds(union_of_row(after), sq) == holds(
        moved(union_of_row(row), f, t),
        sq,
    ) by {
        if sq == f {
            assert forall|j: int| 0 <= j < 6 && j != k implies !holds(row[j], f) by {
                lemma_disjoint_at(row[j], row[k], f);
            }
        }
    }
    lemma_ext(union_of_row(after), moved(union_of_row(row), f, t));
}

/// When `t` leaves set `k`, and no other set of the row holds it, it leaves
/// the union of the row.
pub proof fn lemma_union_after_clear(row: Seq<u64>, k: int, t: int)
    requires
        row.len() == 6,
        0 <= k < 6,
        0 <= t < 64,
        row_disjoint(row),
        holds(row[k], t),
    ensures
        union_of_row(row.update(k, row[k] & !square_bit(t))) == union_of_row(row) & !square_bit(t),
{
    let after = row.update(k, row[k] & !square_bit(t));
    assert forall|sq: int| 0 <= sq < 64 implies holds(union_of_row(after), sq) == holds(
        union_of_row(row) & !square_bit(t),
        sq,
    ) by {
        if sq == t {
            assert forall|j: int| 0 <= j < 6 && j != k implies !holds(row[j], t) by {
                lemma_disjoint_at(row[j], row[k], t);
            }
        }
    }
    lemma_ext(union_of_row(after), union_of_row(row) & !square_bit(t));
}

/// When `t` enters set `k`, it enters the union of the row.
pub proof fn lemma_union_after_put(row: Seq<u64>, k: int, t: int)
    requires
        row.len() == 6,
        0 <= k < 6,
        0 <= t < 64,
    ensures
        union_of_row(row.update(k, row[k] | square_bit(t))) == union_of_row(row) | square_bit(t),
{
    let after = row.update(k, row[k] | square_bit(t));
    lemma_ext(union_of_row(after), union_of_row(row) | square_bit(t));
}

/// A row stays disjoint when the piece of set `k` moves to a square that no
/// set of the row holds.
pub proof fn lemma_row_disjoint_after_move(row: Seq<u64>, k: int, f: int, t: int)
    requires
        row.len() == 6,
        0 <= k < 6,
        0 <= f < 64,
        0 <= t < 64,
        row_disjoint(row),
        !holds(union_of_row(row), t),
    ensures
        row_disjoint(row.update(k, moved(row[k], f, t))),
{
    let after = row.update(k, moved(row[k], f, t));
    assert forall|i: int, j: int| 0 <= i < 6 && 0 <= j < 6 && i != j implies #[trigger] (after[i]
        & after[j]) == 0 by {
        lemma_disjoint_pointwise(row[i], row[j]);
        lemma_disjoint_pointwise(after[i], after[j]);
        lemma_union_of_row_holds(row, t);
    }
}

/// A row stays disjoint when a square leaves one of its sets.
pub proof fn lemma_row_disjoint_after_clear(row: Seq<u64>, k: int, t: int)
    requires
        row.len() == 6,
        0 <= k < 6,
        0 <= t < 64,
        row_disjoint(row),
    ensures
        row_disjoint(row.update(k, row[k] & !square_bit(t))),
{
    let after = row.update(k, row[k] & !square_bit(t));
    assert forall|i: int, j: int| 0 <= i < 6 && 0 <= j < 6 && i != j implies #[trigger] (after[i]
        & after[j]) == 0 by {
        lemma_disjoint_pointwise(row[i], row[j]);
        lemma_disjoint_pointwise(after[i], after[j]);
    }
}

/// A row stays disjoint when a square that no set of the row holds enters
/// one of its sets.
pub proof fn lemma_row_disjoint_after_put(row: Seq<u64>, k: int, t: int)
    requires
        row.len() == 6,
        0 <= k < 6,
        0 <= t < 64,
        row_disjoint(row),
        !holds(union_of_row(row), t),
    ensures
        row_disjoint(row.update(k, row[k] | square_bit(t))),
{
    let after = row.update(k, row[k] | square_bit(t));
    assert forall|i: int, j: int| 0 <= i < 6 && 0 <= j < 6 && i != j implies #[trigger] (after[i]
        & after[j]) == 0 by {
        lemma_disjoint_pointwise(row[i], row[j]);
        lemma_disjoint_pointwise(after[i], after[j]);
        lemma_union_of_row_holds(row, t);
    }
}

/// Two rows share no square exactly when their unions share none.
pub proof fn lemma_rows_disjoint_unions(a: Seq<u64>, b: Seq<u64>)
    requires
        a.len() == 6,
        b.len() == 6,
    ensures
        rows_disjoint(a, b) <==> union_of_row(a) & union_of_row(b) == 0,
{
    lemma_disjoint_pointwise(union_of_row(a), union_of_row(b));
    if rows_disjoint(a, b) {
        assert forall|sq: int| !(holds(union_of_row(a), sq) && holds(union_of_row(b), sq)) by {
            assert forall|i: int, j: int| 0 <= i < 6 && 0 <= j < 6 implies !(holds(a[i], sq)
                && holds(b[j], sq)) by {
                lemma_disjoint_at(a[i], b[j], sq);
            }
        }
    }
    if union_of_row(a) & union_of_row(b) == 0 {
        assert forall|i: int, j: int| 0 <= i < 6 && 0 <= j < 6 implies #[trigger] (a[i] & b[j])
            == 0 by {
            lemma_disjoint_pointwise(a[i], b[j]);
            assert forall|sq: int| !(holds(a[i], sq) && holds(b[j], sq)) by {
                assert(!(holds(union_of_row(a), sq) && holds(union_of_row(b), sq)));
            }
        }
    }
}

/// The only member of a set with one member.
pub proof fn lemma_single_member(x: u64, sq: int)
    requires
        crate::bits::popcount(x) == 1,
        holds(x, sq),
    ensures
        x == square_bit(sq),
{
    assert forall|i: int| 0 <= i < 64 implies holds(x, i) == holds(square_bit(sq), i) by {
        if holds(x, i) && i != sq {
            if i < sq {
                lemma_two_members(x, i, sq, 64);
            } else {
                lemma_two_members(x, sq, i, 64);
            }
        }
    }
    lemma_ext(x, square_bit(sq));
}

proof fn lemma_two_members(x: u64, i: int, j: int, k: nat)
    requires
        holds(x, i),
        holds(x, j),
        i < j < k,
    ensures
        crate::bits::count_below(x, k) >= 2,
    decreases k,
{
    if k - 1 > j {
        lemma_two_members(x, i, j, (k - 1) as nat);
    } else {
        crate::bits::lemma_count_below_member(x, i, (k - 1) as nat);
    }
}

/// An intersection with a single square is empty or that square.
pub proof fn lemma_meet_with_square(x: u64, sq: int)
    requires
        0 <= sq < 64,
    ensures
        x & square_bit(sq) == 0 || x & square_bit(sq) == square_bit(sq),
        x & square_bit(sq) != 0 <==> holds(x, sq),
{
    if holds(x, sq) {
        lemma_ext(x & square_bit(sq), square_bit(sq));
        lemma_holds_nonzero(square_bit(sq), sq);
    } else {
        lemma_ext(x & square_bit(sq), 0);
    }
}

/// The set of a king that moved is the square it moved to.
pub proof fn lemma_moved_single(f: int, t: int)
    requires
        0 <= f < 64,
        0 <= t < 64,
    ensures
        moved(square_bit(f), f, t) == square_bit(t),
{
    lemma_ext(moved(square_bit(f), f, t), square_bit(t));
}

/// The two sides stay apart when a piece of one moves from `f` to `t` and
/// `t` leaves the other; `f` is then free, and the other side is off `t`.
pub proof fn lemma_sides_after_move(own: u64, others: u64, f: int, t: int)
    requires
        0 <= f < 64,
        0 <= t < 64,
        own & others == 0,
        holds(own, f),
        !holds(own, t),
    ensures
        moved(own, f, t) & (others & !square_bit(t)) == 0,
        (others & !square_bit(t)) & moved(own, f, t) == 0,
        !holds(moved(own, f, t) | (others & !square_bit(t)), f),
        !holds((others & !square_bit(t)) | moved(own, f, t), f),
        !holds(others & !square_bit(t), t),
        holds(moved(own, f, t), t),
{
    lemma_disjoint_pointwise(own, others);
    lemma_disjoint_pointwise(moved(own, f, t), others & !square_bit(t));
    lemma_disjoint_pointwise(others & !square_bit(t), moved(own, f, t));
}

/// The two sides stay apart when a piece of one goes back from `t` to the
/// free square `f`, and also when a piece of the other then enters `t`.
pub proof fn lemma_sides_after_undo(own: u64, others: u64, f: int, t: int)
    requires
        0 <= f < 64,
        0 <= t < 64,
        own & others == 0,
        holds(own, t),
        !holds(own | others, f),
    ensures
        moved(own, t, f) & others == 0,
        others & moved(own, t, f) == 0,
        moved(own, t, f) & (others | square_bit(t)) == 0,
        (others | square_bit(t)) & moved(own, t, f) == 0,
        !holds(own, f),
        !holds(others, f),
        holds(moved(own, t, f), f),
{
    lemma_disjoint_pointwise(own, others);
    lemma_disjoint_pointwise(moved(own, t, f), others);
    lemma_disjoint_pointwise(others, moved(own, t, f));
    lemma_disjoint_pointwise(moved(own, t, f), others | square_bit(t));
    lemma_disjoint_pointwise(others | square_bit(t), moved(own, t, f));
}

/// Membership in a single square and in the empty set.
pub proof fn lemma_single_holds(j: int, sq: int)
    requires
        0 <= j < 64,
    ensures
        holds(square_bit(j), sq) == (sq == j),
        !holds(0, sq),
{
}

/// A destination left after the friendly squares are taken out is an
/// attacked square that is not friendly.
pub proof fn lemma_masked_free(attacked: u64, friendly: u64, to: int)
    requires
        holds(attacked & !friendly, to),
    ensures
        holds(attacked, to),
        !holds(friendly, to),
{
}

/// A member of a union of two sets is a member of one of them.
pub proof fn lemma_union_holds(a: u64, b: u64, sq: int)
    ensures
        holds(a | b, sq) == (holds(a, sq) || holds(b, sq)),
        holds(a & b, sq) == (holds(a, sq) && holds(b, sq)),
        holds(a, sq) && holds(b, sq) ==> a & b != 0,
{
    if holds(a, sq) && holds(b, sq) {
        lemma_holds_nonzero(a & b, sq);
    }
}

/// No destination of a pawn is a friendly square, as long as the two sides
/// share no square and no friendly piece stands on the en-passant square.
pub proof fn lemma_pawn_destination_free(
    side: Color,
    sq: int,
    friendly: u64,
    enemy: u64,
    en_passant: u64,
    to: int,
)
    requires
        0 <= sq < 64,
        friendly & enemy == 0,
        en_passant & friendly == 0,
        holds(pawn_destinations(side, sq, friendly, enemy, en_passant), to),
    ensures
        !holds(friendly, to),
{
    lemma_disjoint_pointwise(friendly, enemy);
    lemma_disjoint_pointwise(en_passant, friendly);
    let occupied = friendly | enemy;
    let one = forward(side, square_bit(sq), 8);
    let two = forward(side, square_bit(sq), 16);
    if holds(friendly, to) {
        assert(holds(occupied, to));
        if holds(one, to) {
            lemma_holds_nonzero(one & occupied, to);
        }
        if holds(two, to) {
            lemma_holds_nonzero(two & occupied, to);
        }
    }
}

/// A two-square advance passes over a free square, as long as the target
/// is not the en-passant square.
pub proof fn lemma_pawn_double_passes_free(
    side: Color,
    sq: int,
    friendly: u64,
    enemy: u64,
    en_passant: u64,
    to: int,
)
    requires
        0 <= sq < 64,
        double_advance(side, sq, to),
        !holds(en_passant, to),
        holds(pawn_destinations(side, sq, friendly, enemy, en_passant), to),
    ensures
        !holds(friendly | enemy, square_ahead(side, sq)),
        0 <= square_ahead(side, sq) < 64,
        square_ahead(side, sq) != sq,
        square_ahead(side, sq) != to,
{
    let occupied = friendly | enemy;
    let one = forward(side, square_bit(sq), 8);
    let mid = square_ahead(side, sq);
    lemma_leap_set_holds(pawn_leaper(side), sq, to);
    assert(!holds(pawn_attacks(side, sq), to));
    assert(holds(one, mid));
    assert(!holds(one, to));
    if holds(occupied, mid) {
        lemma_holds_nonzero(one & occupied, mid);
    }
}

/// Two sides stay apart when a free square enters one of them, and the
/// square is then the one new member of their union.
pub proof fn lemma_sides_after_put(own: u64, others: u64, t: int)
    requires
        0 <= t < 64,
        own & others == 0,
        !holds(own | others, t),
    ensures
        (own | square_bit(t)) & others == 0,
        others & (own | square_bit(t)) == 0,
        forall|sq: int|
            holds((own | square_bit(t)) | others, sq) == (holds(own | others, sq) || sq == t),
        forall|sq: int|
            holds(others | (own | square_bit(t)), sq) == (holds(others | own, sq) || sq == t),
        !holds(own, t),
        !holds(others, t),
{
    lemma_disjoint_pointwise(own, others);
    lemma_disjoint_pointwise(own | square_bit(t), others);
    lemma_disjoint_pointwise(others, own | square_bit(t));
}

/// The two sides of a board share no square.
pub proof fn lemma_unions_apart(a: Seq<u64>, b: Seq<u64>)
    requires
        a.len() == 6,
        b.len() == 6,
        rows_disjoint(a, b),
    ensures
        union_of_row(a) & union_of_row(b) == 0,
        union_of_row(b) & union_of_row(a) == 0,
{
    lemma_rows_disjoint_unions(a, b);
    lemma_disjoint_pointwise(union_of_row(a), union_of_row(b));
    lemma_disjoint_pointwise(union_of_row(b), union_of_row(a));
}

} // verus!
