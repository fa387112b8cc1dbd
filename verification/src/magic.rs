//! Attack tables.
//!
//! The attack sets of knights, kings and pawns are stored per square. Those
//! of rooks and bishops depend on the blockers, and are stored in one flat
//! table per piece, indexed by magic hashing: the blockers on the mask of
//! the square are multiplied by the magic number of the square, and the top
//! bits of the product select the slot.
//!
//! The tables are filled once, by [`AttackTables::new`], from the ray walk of
//! [`crate::attacks`]. Filling checks every magic number against every set
//! of blockers, so a table that exists is correct for all of them.
use crate::attacks::bishop_attacks;
use crate::attacks::king_attacks;
use crate::attacks::knight_attacks;
use crate::attacks::leaper_attack_set;
use crate::attacks::lemma_slider_attacks_masked;
use crate::attacks::pawn_attacks;
use crate::attacks::rook_attacks;
use crate::attacks::slider_attacks;
use crate::attacks::slider_mask;
use crate::attacks::walk_slider;
use crate::attacks::walk_slider_mask;
use crate::attacks::Leaper;
use crate::bits::popcount;
use crate::bits::Bitboard;
use crate::constants::BISHOP_MAGIC_NUMBERS;
use crate::constants::ROOK_MAGIC_NUMBERS;
use crate::utils::Color;
use vstd::prelude::*;

verus! {

broadcast use crate::bits::group_bits;

/// What the lookup needs to know about one square: the mask of the squares
/// whose occupancy matters, the magic number, the shift that keeps the top
/// `64 - shift` bits of the product, and where the slots of the square begin
/// in the flat table.
#[derive(Debug, Copy, Clone, PartialEq, Eq, Structural)]
pub struct MagicEntry {
    pub mask: Bitboard,
    pub magic: u64,
    pub shift: u8,
    pub offset: u32,
}

/// The top `64 - shift` bits of `blockers * magic`, the product taken modulo
/// 2^64.
#[verifier::opaque]
pub open spec fn magic_hash(magic: u64, shift: u8, blockers: u64) -> u64 {
    blockers.wrapping_mul(magic) >> (shift as u64)
}

/// The slot of `occupied` within the slots of one square.
pub open spec fn magic_index(entry: MagicEntry, occupied: u64) -> int {
    magic_hash(entry.magic, entry.shift, occupied & entry.mask) as int
}

/// The number of slots of a square: two to the power of `64 - shift`.
pub open spec fn slots(entry: MagicEntry) -> int {
    (1u64 << ((64 - entry.shift) as u64)) as int
}

/// The shift that goes with a mask: 64 less the number of squares on it.
pub open spec fn mask_shift(mask: u64) -> int {
    64 - popcount(mask)
}

/// `magic` is a perfect hash for the slider on `sq`: two sets of blockers on
/// the mask that land in the same slot give the same attack set.
pub open spec fn magic_fits(diagonal: bool, sq: int, magic: u64) -> bool {
    let mask = slider_mask(diagonal, sq);
    let shift = mask_shift(mask) as u8;
    forall|a: u64, b: u64|
        a & !mask == 0 && b & !mask == 0 && #[trigger] magic_hash(magic, shift, a)
            == #[trigger] magic_hash(magic, shift, b) ==> slider_attacks(diagonal, sq, a)
            == slider_attacks(diagonal, sq, b)
}

/// The magic table of one sliding piece.
pub struct SliderTable {
    /// False for the rook, true for the bishop.
    pub diagonal: bool,
    /// One entry per square.
    pub entries: Vec<MagicEntry>,
    /// The attack sets, the slots of square 0 first.
    pub moves: Vec<Bitboard>,
}

impl SliderTable {
    /// The slot that the lookup reads for a slider on `sq` and the occupied
    /// squares `occupied`.
    pub open spec fn slot(&self, sq: int, occupied: u64) -> int {
        self.entries[sq].offset + magic_index(self.entries[sq], occupied)
    }

    /// Every entry carries the mask and the shift of its square, the slots
    /// of the squares fill the table one region right after the other from
    /// slot 0 on, and every lookup stays inside the region of its square and
    /// finds what the ray walk gives.
    pub open spec fn wf(&self) -> bool {
        &&& self.entries.len() == 64
        &&& self.entries[0].offset == 0
        &&& self.moves.len() == self.entries[63].offset + slots(self.entries[63])
        &&& forall|a: int, b: int|
            0 <= a < b < 64 ==> (#[trigger] self.entries[a]).offset + slots(self.entries[a]) <= (
            #[trigger] self.entries[b]).offset
        &&& forall|a: int, b: int|
            0 <= a && b == a + 1 && b < 64 ==> (#[trigger] self.entries[a]).offset + slots(
                self.entries[a],
            ) == (#[trigger] self.entries[b]).offset
        &&& forall|sq: int, occupied: u64|
            0 <= sq < 64 ==> 0 <= #[trigger] magic_index(self.entries[sq], occupied) < slots(
                self.entries[sq],
            )
        &&& forall|sq: int|
            0 <= sq < 64 ==> {
                let e = #[trigger] self.entries[sq];
                &&& e.mask == slider_mask(self.diagonal, sq)
                &&& e.shift == mask_shift(e.mask)
                &&& 52 <= e.shift <= 63
            }
        &&& forall|sq: int, occupied: u64|
            0 <= sq < 64 ==> {
                &&& 0 <= #[trigger] self.slot(sq, occupied) < self.moves.len()
                &&& self.moves[self.slot(sq, occupied)] == slider_attacks(
                    self.diagonal,
                    sq,
                    occupied,
                )
            }
    }
}

proof fn lemma_hash_bound(product: u64, shift: u8)
    by (bit_vector)
    requires
        52 <= shift <= 63,
    ensures
        (product >> (shift as u64)) < (1u64 << ((64 - shift) as u64)),
        (1u64 << ((64 - shift) as u64)) <= 4096,
{
}

/// A hash has `64 - shift` bits.
proof fn lemma_magic_hash_bound(magic: u64, shift: u8, blockers: u64)
    requires
        52 <= shift <= 63,
    ensures
        magic_hash(magic, shift, blockers) < (1u64 << ((64 - shift) as u64)),
        (1u64 << ((64 - shift) as u64)) <= 4096,
{
    reveal(magic_hash);
    lemma_hash_bound(blockers.wrapping_mul(magic), shift);
}

/// The hash of a set of blockers.
fn hash_blockers(magic: u64, shift: u8, blockers: u64) -> (r: u64)
    requires
        shift < 64,
    ensures
        r == magic_hash(magic, shift, blockers),
{
    reveal(magic_hash);
    blockers.wrapping_mul(magic) >> (shift as u64)
}

/// Stepping through the subsets of `mask` in rising order: the step after
/// `s` is the least subset above `s`, and it wraps to the empty set after
/// `mask` itself.
proof fn lemma_next_subset(s: u64, mask: u64, b: u64)
    by (bit_vector)
    ensures
        0u64 & !mask == 0,
        (b & mask) & !mask == 0,
        (b & mask) & mask == b & mask,
        (s.wrapping_sub(mask) & mask) & !mask == 0,
        b & !mask == 0 ==> b <= mask,
        s & !mask == 0 && (s.wrapping_sub(mask) & mask) == 0 ==> s == mask,
        s & !mask == 0 && (s.wrapping_sub(mask) & mask) != 0 ==> (s.wrapping_sub(mask) & mask) > s,
        s & !mask == 0 && b & !mask == 0 && (s.wrapping_sub(mask) & mask) != 0 && b > s ==> b >= (
        s.wrapping_sub(mask) & mask),
{
}

/// The least subset of `mask` above `s`, or the empty set after the last.
fn next_subset(s: u64, mask: u64) -> (r: u64)
    ensures
        r == s.wrapping_sub(mask) & mask,
{
    s.wrapping_sub(mask) & mask
}

/// Appends the slots of one square to `moves` and fills them, unless the
/// magic number sends two sets of blockers with different attack sets to
/// one slot.
fn fill_square(diagonal: bool, sq: u8, magic: u64, moves: &mut Vec<Bitboard>) -> (r: Option<
    MagicEntry,
>)
    requires
        sq < 64,
        old(moves).len() <= sq * 4096,
    ensures
        r.is_some() == magic_fits(diagonal, sq as int, magic),
        r matches Some(e) ==> {
            &&& e.mask == slider_mask(diagonal, sq as int)
            &&& e.magic == magic
            &&& e.shift == mask_shift(e.mask)
            &&& 52 <= e.shift <= 63
            &&& e.offset == old(moves).len()
            &&& final(moves).len() <= (sq + 1) * 4096
            &&& final(moves).len() == old(moves).len() + slots(e)
            &&& forall|occupied: u64| 0 <= #[trigger] magic_index(e, occupied) < slots(e)
            &&& forall|j: int| 0 <= j < old(moves).len() ==> final(moves)[j] == old(moves)[j]
            &&& forall|occupied: u64|
                {
                    &&& e.offset + #[trigger] magic_index(e, occupied) < final(moves).len()
                    &&& final(moves)[e.offset + magic_index(e, occupied)] == slider_attacks(
                        diagonal,
                        sq as int,
                        occupied,
                    )
                }
        },
{
    let (mask, bits) = walk_slider_mask(diagonal, sq);
    let shift: u8 = 64 - bits;
    let offset: usize = moves.len();
    proof {
        lemma_hash_bound(0, shift);
    }
    let size: usize = (1u64 << ((64 - shift) as u64)) as usize;
    let mut filled: Vec<bool> = Vec::new();
    let mut n: usize = 0;
    while n < size
        invariant
            n <= size,
            size <= 4096,
            offset <= sq * 4096,
            offset == old(moves).len(),
            sq < 64,
            moves.len() == offset + n,
            filled.len() == n,
            forall|j: int| 0 <= j < n ==> !filled[j],
            forall|j: int| 0 <= j < offset ==> moves[j] == old(moves)[j],
        decreases size - n,
    {
        moves.push(0);
        filled.push(false);
        n += 1;
    }
    let ghost mut witness: Seq<u64> = Seq::new(size as nat, |j: int| 0u64);
    let mut s: u64 = 0;
    let mut done = false;
    proof {
        lemma_next_subset(0, mask, 0);
    }
    while !done
        invariant
            sq < 64,
            size <= 4096,
            size == (1u64 << ((64 - shift) as u64)),
            52 <= shift <= 63,
            offset <= sq * 4096,
            offset == old(moves).len(),
            mask == slider_mask(diagonal, sq as int),
            shift == mask_shift(mask),
            moves.len() == offset + size,
            filled.len() == size,
            witness.len() == size,
            s & !mask == 0,
            forall|j: int| 0 <= j < offset ==> moves[j] == old(moves)[j],
            forall|j: int|
                0 <= j < size && #[trigger] filled[j] ==> {
                    &&& witness[j] & !mask == 0
                    &&& magic_hash(magic, shift, witness[j]) == j
                    &&& moves[offset + j] == slider_attacks(diagonal, sq as int, witness[j])
                },
            forall|b: u64|
                b & !mask == 0 && (done || b < s) ==> {
                    &&& #[trigger] magic_hash(magic, shift, b) < size
                    &&& filled[magic_hash(magic, shift, b) as int]
                    &&& moves[offset + magic_hash(magic, shift, b)] == slider_attacks(
                        diagonal,
                        sq as int,
                        b,
                    )
                },
        decreases
                if done {
                    0
                } else {
                    mask - s + 1
                },
    {
        proof {
            lemma_magic_hash_bound(magic, shift, s);
            lemma_next_subset(s, mask, s);
        }
        let slot: usize = hash_blockers(magic, shift, s) as usize;
        let found = walk_slider(diagonal, sq, s);
        if filled[slot] {
            if moves[offset + slot] != found {
                assert(!magic_fits(diagonal, sq as int, magic)) by {
                    let w = witness[slot as int];
                    let sh = mask_shift(slider_mask(diagonal, sq as int)) as u8;
                    assert(sh == shift);
                    assert(w & !mask == 0 && s & !mask == 0);
                    assert(magic_hash(magic, sh, w) == magic_hash(magic, sh, s));
                    assert(slider_attacks(diagonal, sq as int, w) != slider_attacks(
                        diagonal,
                        sq as int,
                        s,
                    ));
                }
                return None;
            }
        } else {
            moves[offset + slot] = found;
            filled[slot] = true;
            proof {
                witness = witness.update(slot as int, s);
            }
        }
        let next = next_subset(s, mask);
        proof {
            lemma_next_subset(next, mask, next);
        }
        assert forall|b: u64| b & !mask == 0 && (next == 0 || b < next) implies {
            &&& #[trigger] magic_hash(magic, shift, b) < size
            &&& filled[magic_hash(magic, shift, b) as int]
            &&& moves[offset + magic_hash(magic, shift, b)] == slider_attacks(
                diagonal,
                sq as int,
                b,
            )
        } by {
            lemma_next_subset(s, mask, b);
            lemma_magic_hash_bound(magic, shift, b);
            let h = magic_hash(magic, shift, b) as int;
            assert(b <= s);
            if b < s {
                assert(filled[h]);
            }
        }
        if next == 0 {
            done = true;
        } else {
            s = next;
        }
    }
    let entry = MagicEntry { mask, magic, shift, offset: offset as u32 };
    proof {
        assert(magic_fits(diagonal, sq as int, magic));
        assert forall|occupied: u64|
            {
                &&& offset + #[trigger] magic_index(entry, occupied) < moves.len()
                &&& moves[offset + magic_index(entry, occupied)] == slider_attacks(
                    diagonal,
                    sq as int,
                    occupied,
                )
            } by {
            let b = occupied & mask;
            lemma_next_subset(0, mask, occupied);
            lemma_magic_hash_bound(magic, shift, b);
            lemma_slider_attacks_masked(diagonal, sq as int, occupied);
        }
    }
    Some(entry)
}

impl SliderTable {
    /// Builds the table of one sliding piece from its 64 magic numbers. The
    /// table exists exactly when each number is a perfect hash for its
    /// square.
    pub fn build(diagonal: bool, magics: &[u64; 64]) -> (r: Option<SliderTable>)
        ensures
            r.is_some() == (forall|sq: int|
                0 <= sq < 64 ==> magic_fits(diagonal, sq, #[trigger] magics[sq])),
            r matches Some(t) ==> {
                &&& t.wf()
                &&& t.diagonal == diagonal
                &&& forall|sq: int| 0 <= sq < 64 ==> (#[trigger] t.entries[sq]).magic == magics[sq]
            },
    {
        let mut entries: Vec<MagicEntry> = Vec::new();
        let mut moves: Vec<Bitboard> = Vec::new();
        let mut sq: u8 = 0;
        while sq < 64
            invariant
                sq <= 64,
                entries.len() == sq,
                moves.len() <= sq * 4096,
                forall|q: int|
                    0 <= q < sq ==> (#[trigger] entries[q]).offset + slots(entries[q])
                        <= moves.len(),
                sq == 0 ==> moves.len() == 0,
                sq > 0 ==> entries[0].offset == 0 && moves.len() == entries[sq - 1].offset + slots(
                    entries[sq - 1],
                ),
                forall|a: int, b: int|
                    0 <= a && b == a + 1 && b < sq ==> (#[trigger] entries[a]).offset + slots(
                        entries[a],
                    ) == (#[trigger] entries[b]).offset,
                forall|a: int, b: int|
                    0 <= a < b < sq ==> (#[trigger] entries[a]).offset + slots(entries[a]) <= (
                    #[trigger] entries[b]).offset,
                forall|q: int, occupied: u64|
                    0 <= q < sq ==> 0 <= #[trigger] magic_index(entries[q], occupied) < slots(
                        entries[q],
                    ),
                forall|q: int| 0 <= q < sq ==> magic_fits(diagonal, q, #[trigger] magics[q]),
                forall|q: int|
                    0 <= q < sq ==> {
                        let e = #[trigger] entries[q];
                        &&& e.mask == slider_mask(diagonal, q)
                        &&& e.magic == magics[q]
                        &&& e.shift == mask_shift(e.mask)
                        &&& 52 <= e.shift <= 63
                    },
                forall|q: int, occupied: u64|
                    0 <= q < sq ==> {
                        &&& 0 <= entries[q].offset + #[trigger] magic_index(entries[q], occupied)
                            < moves.len()
                        &&& moves[entries[q].offset + magic_index(entries[q], occupied)]
                            == slider_attacks(diagonal, q, occupied)
                    },
            decreases 64 - sq,
        {
            match fill_square(diagonal, sq, magics[sq as usize], &mut moves) {
                None => {
                    return None;
                },
                Some(entry) => {
                    entries.push(entry);
                },
            }
            sq += 1;
        }
        Some(SliderTable { diagonal, entries, moves })
    }
}

/// Every table the move generator reads.
pub struct AttackTables {
    /// Squares attacked by a pawn, by side and square.
    pub pawn: [[Bitboard; 64]; 2],
    pub knight: [Bitboard; 64],
    pub king: [Bitboard; 64],
    pub rook: SliderTable,
    pub bishop: SliderTable,
}

impl AttackTables {
    /// Each table holds, for each square, exactly the attack set that the
    /// geometry of the board gives.
    pub open spec fn wf(&self) -> bool {
        &&& forall|sq: int|
            0 <= sq < 64 ==> #[trigger] self.pawn[0][sq] == pawn_attacks(Color::White, sq)
        &&& forall|sq: int|
            0 <= sq < 64 ==> #[trigger] self.pawn[1][sq] == pawn_attacks(Color::Black, sq)
        &&& forall|sq: int| 0 <= sq < 64 ==> #[trigger] self.knight[sq] == knight_attacks(sq)
        &&& forall|sq: int| 0 <= sq < 64 ==> #[trigger] self.king[sq] == king_attacks(sq)
        &&& self.rook.wf()
        &&& !self.rook.diagonal
        &&& self.bishop.wf()
        &&& self.bishop.diagonal
    }

    /// The shipped magic numbers are perfect hashes.
    pub open spec fn shipped_magics_fit() -> bool {
        &&& forall|sq: int| 0 <= sq < 64 ==> magic_fits(false, sq, #[trigger] ROOK_MAGIC_NUMBERS[sq])
        &&& forall|sq: int|
            0 <= sq < 64 ==> magic_fits(true, sq, #[trigger] BISHOP_MAGIC_NUMBERS[sq])
    }

    /// Fills every table. The tables exist exactly when the shipped magic
    /// numbers are perfect hashes, which the filling itself checks.
    pub fn new() -> (r: Option<AttackTables>)
        ensures
            r.is_some() == Self::shipped_magics_fit(),
            r matches Some(t) ==> t.wf(),
    {
        let rook_magics: [u64; 64] = ROOK_MAGIC_NUMBERS;
        let bishop_magics: [u64; 64] = BISHOP_MAGIC_NUMBERS;
        let rook = match SliderTable::build(false, &rook_magics) {
            None => {
                return None;
            },
            Some(t) => t,
        };
        let bishop = match SliderTable::build(true, &bishop_magics) {
            None => {
                return None;
            },
            Some(t) => t,
        };
        let mut white_pawn: [Bitboard; 64] = [0u64; 64];
        let mut black_pawn: [Bitboard; 64] = [0u64; 64];
        let mut knight: [Bitboard; 64] = [0u64; 64];
        let mut king: [Bitboard; 64] = [0u64; 64];
        let mut sq: u8 = 0;
        while sq < 64
            invariant
                sq <= 64,
                forall|q: int| 0 <= q < sq ==> #[trigger] white_pawn[q] == pawn_attacks(Color::White, q),
                forall|q: int| 0 <= q < sq ==> #[trigger] black_pawn[q] == pawn_attacks(Color::Black, q),
                forall|q: int| 0 <= q < sq ==> #[trigger] knight[q] == knight_attacks(q),
                forall|q: int| 0 <= q < sq ==> #[trigger] king[q] == king_attacks(q),
            decreases 64 - sq,
        {
            white_pawn[sq as usize] = leaper_attack_set(Leaper::WhitePawn, sq);
            black_pawn[sq as usize] = leaper_attack_set(Leaper::BlackPawn, sq);
            knight[sq as usize] = leaper_attack_set(Leaper::Knight, sq);
            king[sq as usize] = leaper_attack_set(Leaper::King, sq);
            sq += 1;
        }
        Some(AttackTables { pawn: [white_pawn, black_pawn], knight, king, rook, bishop })
    }
}

/// The attack set of a bishop, read from the bishop table through the magic
/// entry of its square. For the entry of square `sq` of a well-formed
/// table this is what the ray walk from `sq` gives.
pub fn get_bishop_move(tables: &AttackTables, magic_entry: MagicEntry, bb_blockers: Bitboard) -> (r:
    Bitboard)
    requires
        magic_entry.shift < 64,
        magic_entry.offset + magic_index(magic_entry, bb_blockers) < tables.bishop.moves.len(),
    ensures
        r == tables.bishop.moves[magic_entry.offset + magic_index(magic_entry, bb_blockers)],
        forall|sq: int|
            0 <= sq < 64 && tables.wf() && magic_entry == tables.bishop.entries[sq] ==> r
                == bishop_attacks(sq, bb_blockers),
{
    let blockers = bb_blockers & magic_entry.mask;
    let index = hash_blockers(magic_entry.magic, magic_entry.shift, blockers);
    proof {
        assert forall|sq: int|
            0 <= sq < 64 && tables.wf() && magic_entry
                == tables.bishop.entries[sq] implies tables.bishop.moves[magic_entry.offset
            + magic_index(magic_entry, bb_blockers)] == bishop_attacks(sq, bb_blockers) by {
            assert(tables.bishop.slot(sq, bb_blockers) == magic_entry.offset + magic_index(
                magic_entry,
                bb_blockers,
            ));
        }
    }
    tables.bishop.moves[magic_entry.offset as usize + index as usize]
}

/// The attack set of a rook, read from the rook table through the magic
/// entry of its square. For the entry of square `sq` of a well-formed
/// table this is what the ray walk from `sq` gives.
pub fn get_rook_move(tables: &AttackTables, magic_entry: MagicEntry, bb_blockers: Bitboard) -> (r:
    Bitboard)
    requires
        magic_entry.shift < 64,
        magic_entry.offset + magic_index(magic_entry, bb_blockers) < tables.rook.moves.len(),
    ensures
        r == tables.rook.moves[magic_entry.offset + magic_index(magic_entry, bb_blockers)],
        forall|sq: int|
            0 <= sq < 64 && tables.wf() && magic_entry == tables.rook.entries[sq] ==> r
                == rook_attacks(sq, bb_blockers),
{
    let blockers = bb_blockers & magic_entry.mask;
    let index = hash_blockers(magic_entry.magic, magic_entry.shift, blockers);
    proof {
        assert forall|sq: int|
            0 <= sq < 64 && tables.wf() && magic_entry
                == tables.rook.entries[sq] implies tables.rook.moves[magic_entry.offset
            + magic_index(magic_entry, bb_blockers)] == rook_attacks(sq, bb_blockers) by {
            assert(tables.rook.slot(sq, bb_blockers) == magic_entry.offset + magic_index(
                magic_entry,
                bb_blockers,
            ));
        }
    }
    tables.rook.moves[magic_entry.offset as usize + index as usize]
}

} // verus!
