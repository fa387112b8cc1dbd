//! Square sets.
//!
//! A square set is a `u64`; bit `i` stands for square `i`. Square 0 is a8,
//! square 7 is h8, square 56 is a1 and square 63 is h1, so that the rank row
//! of a square (counted from the eighth rank downwards) is `i / 8` and its
//! file column (counted from the a-file) is `i % 8`.
//!
//! Everything the rest of the crate proves about square sets goes through
//! the membership predicate [`holds`]; the lemmas below say how membership
//! behaves under each bitwise operator, and [`lemma_ext`] says that two sets
//! with the same members are the same number.
use vstd::prelude::*;
use vstd::std_specs::bits::axiom_u64_trailing_zeros;
use vstd::std_specs::bits::u64_trailing_zeros;

verus! {

pub type Bitboard = u64;

/// Square `sq` is a member of the set `b`.
pub open spec fn holds(b: u64, sq: int) -> bool {
    0 <= sq < 64 && (b >> (sq as u64)) & 1 == 1
}

/// The set that holds square `sq` and nothing else.
pub open spec fn square_bit(sq: int) -> u64 {
    1u64 << (sq as u64)
}

/// Number of members of `b` among the squares below `k`.
pub open spec fn count_below(b: u64, k: nat) -> nat
    decreases k,
{
    if k == 0 {
        0
    } else {
        count_below(b, (k - 1) as nat) + if holds(b, k - 1) {
            1nat
        } else {
            0nat
        }
    }
}

/// Population count: the number of squares in `b`.
pub open spec fn popcount(b: u64) -> nat {
    count_below(b, 64)
}

/// Index of the lowest square of a non-empty set (64 for the empty set).
pub open spec fn lowest_square(b: u64) -> int {
    u64_trailing_zeros(b) as int
}

pub broadcast proof fn lemma_holds_or(a: u64, b: u64, i: int)
    ensures
        #[trigger] holds(a | b, i) == (holds(a, i) || holds(b, i)),
{
    if 0 <= i < 64 {
        let k = i as u64;
        assert((((a | b) >> k) & 1 == 1) == (((a >> k) & 1 == 1) || ((b >> k) & 1 == 1)))
            by (bit_vector);
    }
}

pub broadcast proof fn lemma_holds_and(a: u64, b: u64, i: int)
    ensures
        #[trigger] holds(a & b, i) == (holds(a, i) && holds(b, i)),
{
    if 0 <= i < 64 {
        let k = i as u64;
        assert((((a & b) >> k) & 1 == 1) == (((a >> k) & 1 == 1) && ((b >> k) & 1 == 1)))
            by (bit_vector);
    }
}

pub broadcast proof fn lemma_holds_xor(a: u64, b: u64, i: int)
    ensures
        #[trigger] holds(a ^ b, i) == (holds(a, i) != holds(b, i)),
{
    if 0 <= i < 64 {
        let k = i as u64;
        assert((((a ^ b) >> k) & 1 == 1) == (((a >> k) & 1 == 1) != ((b >> k) & 1 == 1)))
            by (bit_vector);
    }
}

pub broadcast proof fn lemma_holds_not(a: u64, i: int)
    ensures
        #[trigger] holds(!a, i) == (0 <= i < 64 && !holds(a, i)),
{
    if 0 <= i < 64 {
        let k = i as u64;
        assert((((!a) >> k) & 1 == 1) == !((a >> k) & 1 == 1)) by (bit_vector)
            requires
                k < 64,
        ;
    }
}

pub broadcast proof fn lemma_holds_zero(i: int)
    ensures
        !#[trigger] holds(0, i),
{
    if 0 <= i < 64 {
        let k = i as u64;
        assert((0u64 >> k) & 1 == 0) by (bit_vector);
    }
}

pub broadcast proof fn lemma_holds_square_bit(j: int, i: int)
    requires
        0 <= j < 64,
    ensures
        #[trigger] holds(square_bit(j), i) == (i == j),
{
    if 0 <= i < 64 {
        let k = i as u64;
        let m = j as u64;
        assert((((1u64 << m) >> k) & 1 == 1) == (k == m)) by (bit_vector)
            requires
                k < 64,
                m < 64,
        ;
    }
}

pub broadcast proof fn lemma_holds_shr(b: u64, n: u64, i: int)
    requires
        n < 64,
    ensures
        #[trigger] holds(b >> n, i) == (0 <= i && holds(b, i + n)),
{
    if 0 <= i < 64 {
        let k = i as u64;
        if i + n < 64 {
            let kn = (i + n) as u64;
            assert((((b >> n) >> k) & 1 == 1) == ((b >> kn) & 1 == 1)) by (bit_vector)
                requires
                    k < 64,
                    n < 64,
                    kn == k + n,
            ;
        } else {
            assert(((b >> n) >> k) & 1 == 0) by (bit_vector)
                requires
                    k < 64,
                    n < 64,
                    k + n >= 64,
            ;
        }
    }
}

pub broadcast proof fn lemma_holds_shl(b: u64, n: u64, i: int)
    requires
        n < 64,
    ensures
        #[trigger] holds(b << n, i) == (i < 64 && holds(b, i - n)),
{
    if 0 <= i < 64 {
        let k = i as u64;
        if i >= n {
            let kn = (i - n) as u64;
            assert((((b << n) >> k) & 1 == 1) == ((b >> kn) & 1 == 1)) by (bit_vector)
                requires
                    k < 64,
                    n <= k,
                    kn == k - n,
            ;
        } else {
            assert(((b << n) >> k) & 1 == 0) by (bit_vector)
                requires
                    n < 64,
                    k < n,
            ;
        }
    }
}

/// Two sets with the same members are equal.
pub proof fn lemma_ext(a: u64, b: u64)
    requires
        forall|i: int| 0 <= i < 64 ==> holds(a, i) == holds(b, i),
    ensures
        a == b,
{
    let x = a ^ b;
    if x != 0 {
        axiom_u64_trailing_zeros(x);
        let t = u64_trailing_zeros(x) as int;
        lemma_holds_xor(a, b, t);
        assert(holds(x, t));
    } else {
        assert(a == b) by (bit_vector)
            requires
                a ^ b == 0,
        ;
    }
}

/// A non-empty set holds its lowest square and no square below it.
pub proof fn lemma_lowest_square(b: u64)
    requires
        b != 0,
    ensures
        0 <= lowest_square(b) < 64,
        holds(b, lowest_square(b)),
        forall|j: int| 0 <= j < lowest_square(b) ==> !holds(b, j),
{
    axiom_u64_trailing_zeros(b);
    let t = u64_trailing_zeros(b);
    assert forall|j: int| 0 <= j < lowest_square(b) implies !holds(b, j) by {
        let k = j as u64;
        assert((b >> k) & 1u64 == 0u64);
    }
}

/// A set with a member is not the empty set.
pub proof fn lemma_holds_nonzero(b: u64, i: int)
    requires
        holds(b, i),
    ensures
        b != 0,
{
    lemma_holds_zero(i);
}

/// Taking a member out of a set makes the number smaller.
pub proof fn lemma_remove_decreases(b: u64, i: int)
    requires
        holds(b, i),
    ensures
        b ^ square_bit(i) < b,
        b ^ square_bit(i) == b & !square_bit(i),
{
    let k = i as u64;
    assert((b ^ (1u64 << k)) < b && (b ^ (1u64 << k)) == b & !(1u64 << k)) by (bit_vector)
        requires
            k < 64,
            (b >> k) & 1 == 1,
    ;
}

/// Union is associative and commutative, and the empty set is its unit.
pub proof fn lemma_union_laws(a: u64, b: u64, c: u64)
    by (bit_vector)
    ensures
        a | 0 == a,
        0 | a == a,
        a | a == a,
        a | b == b | a,
        (a | b) | c == a | (b | c),
        a & 0 == 0,
        (a & b) & !b == 0,
        a & b == b & a,
{
}

pub broadcast group group_bits {
    lemma_holds_or,
    lemma_holds_and,
    lemma_holds_xor,
    lemma_holds_not,
    lemma_holds_zero,
    lemma_holds_square_bit,
    lemma_holds_shr,
    lemma_holds_shl,
}

/// A set with a member among the squares below `k` counts at least one there.
pub proof fn lemma_count_below_member(b: u64, sq: int, k: nat)
    requires
        holds(b, sq),
        sq < k,
    ensures
        count_below(b, k) >= 1,
    decreases k,
{
    if k - 1 > sq {
        lemma_count_below_member(b, sq, (k - 1) as nat);
    }
}

/// A union has at most as many squares as its two parts together.
pub proof fn lemma_count_below_union(a: u64, b: u64, k: nat)
    ensures
        count_below(a | b, k) <= count_below(a, k) + count_below(b, k),
    decreases k,
{
    if k > 0 {
        lemma_count_below_union(a, b, (k - 1) as nat);
        lemma_holds_or(a, b, k - 1);
    }
}

/// A single square counts once.
pub proof fn lemma_count_below_single(sq: int, k: nat)
    requires
        0 <= sq < 64,
    ensures
        count_below(square_bit(sq), k) == if sq < k {
            1nat
        } else {
            0nat
        },
    decreases k,
{
    if k > 0 {
        lemma_count_below_single(sq, (k - 1) as nat);
        lemma_holds_square_bit(sq, k - 1);
    }
}

/// The empty set counts nothing.
pub proof fn lemma_count_below_empty(k: nat)
    ensures
        count_below(0, k) == 0,
    decreases k,
{
    if k > 0 {
        lemma_count_below_empty((k - 1) as nat);
        lemma_holds_zero(k - 1);
    }
}

/// The set that holds square `sq` and nothing else.
pub fn square_mask(sq: u8) -> (r: Bitboard)
    requires
        sq < 64,
    ensures
        r == square_bit(sq as int),
{
    1u64 << (sq as u64)
}

/// Whether square `sq` is in `b`.
pub fn test_square(b: Bitboard, sq: u8) -> (r: bool)
    requires
        sq < 64,
    ensures
        r == holds(b, sq as int),
{
    (b >> (sq as u64)) & 1 == 1
}

/// Population count.
pub fn count_squares(b: Bitboard) -> (r: u32)
    ensures
        r == popcount(b),
        r <= 64,
{
    let mut n: u32 = 0;
    let mut k: u8 = 0;
    while k < 64
        invariant
            k <= 64,
            n == count_below(b, k as nat),
            n <= k,
        decreases 64 - k,
    {
        if test_square(b, k) {
            n += 1;
        }
        k += 1;
    }
    n
}

/// Index of the lowest square of a non-empty set.
pub fn lowest_square_index(b: Bitboard) -> (r: u8)
    requires
        b != 0,
    ensures
        r == lowest_square(b),
        r < 64,
        holds(b, r as int),
        forall|j: int| 0 <= j < r ==> !holds(b, j),
{
    proof {
        lemma_lowest_square(b);
    }
    b.trailing_zeros() as u8
}

/// The members of `b` from square `k` upwards, in rising order.
pub open spec fn squares_from(b: u64, k: int) -> Seq<u8>
    decreases 64 - k,
{
    if k < 0 || k >= 64 {
        Seq::empty()
    } else if holds(b, k) {
        seq![k as u8] + squares_from(b, k + 1)
    } else {
        squares_from(b, k + 1)
    }
}

/// The members of `b` in rising order.
pub open spec fn squares_of(b: u64) -> Seq<u8> {
    squares_from(b, 0)
}

/// `squares_from` only looks at the squares from `k` upwards.
pub proof fn lemma_squares_from_agree(a: u64, b: u64, k: int)
    requires
        0 <= k,
        forall|i: int| k <= i < 64 ==> holds(a, i) == holds(b, i),
    ensures
        squares_from(a, k) == squares_from(b, k),
    decreases 64 - k,
{
    if k < 64 {
        lemma_squares_from_agree(a, b, k + 1);
    }
}

/// Squares that are not members can be skipped.
pub proof fn lemma_squares_from_skip(b: u64, k: int, t: int)
    requires
        0 <= k <= t <= 64,
        forall|i: int| k <= i < t ==> !holds(b, i),
    ensures
        squares_from(b, k) == squares_from(b, t),
    decreases t - k,
{
    if k < t {
        lemma_squares_from_skip(b, k + 1, t);
    }
}

/// The empty set has no members to list.
pub proof fn lemma_squares_of_empty()
    ensures
        squares_of(0) == Seq::<u8>::empty(),
{
    assert forall|i: int| 0 <= i < 64 implies !holds(0, i) by {
        lemma_holds_zero(i);
    }
    lemma_squares_from_skip(0, 0, 64);
}

/// The members in rising order are the lowest member, then the members of
/// what is left without it.
pub proof fn lemma_squares_of_lowest(b: u64)
    requires
        b != 0,
    ensures
        squares_of(b) == seq![lowest_square(b) as u8] + squares_of(b ^ square_bit(lowest_square(b))),
{
    lemma_lowest_square(b);
    let t = lowest_square(b);
    let rest = b ^ square_bit(t);
    assert forall|i: int| 0 <= i < 64 implies holds(rest, i) == (holds(b, i) && i != t) by {
        lemma_holds_xor(b, square_bit(t), i);
        lemma_holds_square_bit(t, i);
    }
    lemma_squares_from_skip(b, 0, t);
    lemma_squares_from_agree(b, rest, t + 1);
    lemma_squares_from_skip(rest, 0, t + 1);
}

/// The sequence of members has no more than 64 entries, each a member.
pub proof fn lemma_squares_from_members(b: u64, k: int)
    requires
        0 <= k <= 64,
    ensures
        squares_from(b, k).len() <= 64 - k,
        forall|i: int|
            0 <= i < squares_from(b, k).len() ==> k <= #[trigger] squares_from(b, k)[i] < 64
                && holds(b, squares_from(b, k)[i] as int),
        forall|t: int| k <= t < 64 && holds(b, t) ==> squares_from(b, k).contains(t as u8),
    decreases 64 - k,
{
    if k < 64 {
        lemma_squares_from_members(b, k + 1);
        let tail = squares_from(b, k + 1);
        if holds(b, k) {
            let whole = seq![k as u8] + tail;
            assert(whole[0] == k as u8);
            assert forall|t: int| k <= t < 64 && holds(b, t) implies whole.contains(t as u8) by {
                if t > k {
                    let j = choose|j: int| 0 <= j < tail.len() && tail[j] == t as u8;
                    assert(whole[j + 1] == t as u8);
                }
            }
        }
    }
}

} // verus!
