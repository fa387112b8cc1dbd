use chess_core::attacks::leaper_attack_set;
use chess_core::attacks::leaper_reaches;
use chess_core::attacks::walk_ray;
use chess_core::attacks::walk_ray_mask;
use chess_core::attacks::walk_slider;
use chess_core::attacks::walk_slider_mask;
use chess_core::attacks::Leaper;
use chess_core::bits::count_squares;
use chess_core::bits::lowest_square_index;
use chess_core::bits::square_mask;
use chess_core::bits::test_square;
use chess_core::magic::get_bishop_move;
use chess_core::magic::get_rook_move;
use chess_core::magic::AttackTables;
use chess_core::magic::SliderTable;
use chess_core::move_generation::generate_bishop_moves;
use chess_core::move_generation::generate_king_moves;
use chess_core::move_generation::generate_knight_moves;
use chess_core::move_generation::generate_pawn_moves;
use chess_core::move_generation::generate_quen_moves;
use chess_core::move_generation::generate_rook_moves;
use chess_core::piece_parsing::parse_bitboards;
use chess_core::utils::Color;

fn tables() -> AttackTables {
    AttackTables::new().expect("the shipped magic numbers fit")
}

/// A stream of scattered 64-bit numbers.
fn scatter(state: &mut u64) -> u64 {
    *state ^= *state << 13;
    *state ^= *state >> 7;
    *state ^= *state << 17;
    *state
}

#[test]
fn square_set_primitives() {
    assert_eq!(square_mask(0), 1);
    assert_eq!(square_mask(63), 0x8000_0000_0000_0000);
    assert_eq!(count_squares(0), 0);
    assert_eq!(count_squares(u64::MAX), 64);
    assert_eq!(count_squares(0x8000_0000_0000_0001), 2);
    assert_eq!(count_squares(0x00ff_0000_0000_ff00), 16);
    assert_eq!(lowest_square_index(1), 0);
    assert_eq!(lowest_square_index(0x8000_0000_0000_0000), 63);
    assert_eq!(lowest_square_index(0x00ff_0000_0000_ff00), 8);
    assert!(test_square(0x100, 8));
    assert!(!test_square(0x100, 9));
}

#[test]
fn parse_bitboards_lists_the_squares_in_rising_order() {
    assert_eq!(parse_bitboards(Color::White, 0), vec![]);
    assert_eq!(parse_bitboards(Color::White, 1), vec![(0, 0)]);
    assert_eq!(
        parse_bitboards(Color::Black, (1 << 63) | (1 << 7) | (1 << 8)),
        vec![(1, 7), (1, 8), (1, 63)]
    );
    assert_eq!(parse_bitboards(Color::White, u64::MAX).len(), 64);
}

#[test]
fn leaper_tables() {
    let tables = tables();
    // knight
    assert_eq!(tables.knight[0], 132096);
    assert_eq!(tables.knight[27], 22136263676928);
    assert_eq!(tables.knight[63], 9077567998918656);
    // king
    assert_eq!(tables.king[0], 770);
    assert_eq!(tables.king[9], 460039);
    assert_eq!(tables.king[63], 4665729213955833856);
    // white pawns attack towards row 0, black pawns towards row 7
    assert_eq!(tables.pawn[0][0], 0);
    assert_eq!(tables.pawn[0][8], 2);
    assert_eq!(tables.pawn[0][9], 5);
    assert_eq!(tables.pawn[0][63], 18014398509481984);
    assert_eq!(tables.pawn[1][0], 512);
    assert_eq!(tables.pawn[1][55], 4611686018427387904);
    assert_eq!(tables.pawn[1][56], 0);
    for sq in 0..64u8 {
        assert_eq!(tables.knight[sq as usize], leaper_attack_set(Leaper::Knight, sq));
        assert_eq!(tables.king[sq as usize], leaper_attack_set(Leaper::King, sq));
        assert_eq!(tables.pawn[0][sq as usize], leaper_attack_set(Leaper::WhitePawn, sq));
        assert_eq!(tables.pawn[1][sq as usize], leaper_attack_set(Leaper::BlackPawn, sq));
    }
    assert!(leaper_reaches(Leaper::Knight, 0, 10));
    assert!(leaper_reaches(Leaper::Knight, 0, 17));
    assert!(!leaper_reaches(Leaper::Knight, 0, 9));
    assert!(!leaper_reaches(Leaper::Knight, 7, 8));
    assert!(leaper_reaches(Leaper::King, 7, 15));
    assert!(!leaper_reaches(Leaper::King, 7, 8));
    assert!(!leaper_reaches(Leaper::King, 7, 7));
}

#[test]
fn ray_walk() {
    // rook on a1, empty board: the a-file and the first rank
    assert_eq!(walk_slider(false, 56, 0), 0xfe01_0101_0101_0101);
    // a blocker on a3 and one on c1 end the rays, and are attacked
    assert_eq!(
        walk_slider(false, 56, (1 << 40) | (1 << 58) | (1 << 8)),
        (1 << 48) | (1 << 40) | (1 << 57) | (1 << 58)
    );
    // bishop on d4 (row 4, column 3), empty board
    assert_eq!(
        walk_slider(true, 35, 0),
        (1 << 26) | (1 << 17) | (1 << 8) | (1 << 28) | (1 << 21) | (1 << 14) | (1 << 7) | (1 << 42)
            | (1 << 49) | (1 << 56) | (1 << 44) | (1 << 53) | (1 << 62)
    );
    // one ray at a time
    assert_eq!(walk_ray(35, -1, 0, 0), (1 << 27) | (1 << 19) | (1 << 11) | (1 << 3));
    assert_eq!(walk_ray(35, -1, 0, 1 << 19), (1 << 27) | (1 << 19));
    assert_eq!(walk_ray(35, 0, 1, 1 << 36), 1 << 36);
    assert_eq!(walk_ray(0, -1, -1, 0), 0);
    assert_eq!(walk_ray_mask(35, -1, 0), (1 << 27) | (1 << 19) | (1 << 11));
    assert_eq!(walk_ray_mask(56, 0, 1), 0x7e00_0000_0000_0000);
    assert_eq!(walk_slider_mask(false, 56), (0x7e01_0101_0101_0100 & !(1u64 << 56), 12));
    assert_eq!(walk_slider_mask(true, 0), (0x0040_2010_0804_0200, 6));
    assert_eq!(walk_slider_mask(true, 35).1, 9);
}

#[test]
fn magic_entries_carry_mask_and_shift() {
    let tables = tables();
    assert_eq!(tables.rook.entries.len(), 64);
    assert_eq!(tables.bishop.entries.len(), 64);
    assert_eq!(tables.rook.moves.len(), 102400);
    assert_eq!(tables.bishop.moves.len(), 5248);
    let mut rook_offset = 0u32;
    let mut bishop_offset = 0u32;
    for sq in 0..64u8 {
        let rook = tables.rook.entries[sq as usize];
        let (mask, bits) = walk_slider_mask(false, sq);
        assert_eq!(rook.mask, mask);
        assert_eq!(rook.shift, 64 - bits);
        assert_eq!(rook.shift as u32, 64 - mask.count_ones());
        assert_eq!(rook.offset, rook_offset);
        rook_offset += 1 << bits;
        let bishop = tables.bishop.entries[sq as usize];
        let (mask, bits) = walk_slider_mask(true, sq);
        assert_eq!(bishop.mask, mask);
        assert_eq!(bishop.shift, 64 - bits);
        assert_eq!(bishop.offset, bishop_offset);
        bishop_offset += 1 << bits;
    }
}

#[test]
fn magic_lookup_agrees_with_the_ray_walk() {
    let tables = tables();
    let mut state = 0x9e37_79b9_7f4a_7c15u64;
    for sq in 0..64u8 {
        let rook = tables.rook.entries[sq as usize];
        let bishop = tables.bishop.entries[sq as usize];
        for round in 0..200 {
            let mut occupied = scatter(&mut state);
            if round % 3 == 1 {
                occupied &= scatter(&mut state);
            }
            if round % 3 == 2 {
                occupied &= scatter(&mut state) & scatter(&mut state);
            }
            assert_eq!(get_rook_move(&tables, rook, occupied), walk_slider(false, sq, occupied));
            assert_eq!(get_bishop_move(&tables, bishop, occupied), walk_slider(true, sq, occupied));
        }
        assert_eq!(get_rook_move(&tables, rook, 0), walk_slider(false, sq, 0));
        assert_eq!(get_rook_move(&tables, rook, u64::MAX), walk_slider(false, sq, u64::MAX));
        assert_eq!(get_bishop_move(&tables, bishop, 0), walk_slider(true, sq, 0));
        assert_eq!(get_bishop_move(&tables, bishop, u64::MAX), walk_slider(true, sq, u64::MAX));
    }
    assert_eq!(get_rook_move(&tables, tables.rook.entries[56], 0), 0xfe01_0101_0101_0101);
}

#[test]
fn magic_lookup_agrees_on_every_blocker_set_of_a_corner() {
    let tables = tables();
    let rook = tables.rook.entries[0];
    let mut subset = 0u64;
    let mut count = 0;
    loop {
        assert_eq!(get_rook_move(&tables, rook, subset), walk_slider(false, 0, subset));
        count += 1;
        subset = subset.wrapping_sub(rook.mask) & rook.mask;
        if subset == 0 {
            break;
        }
    }
    assert_eq!(count, 4096);
}

#[test]
fn a_number_that_is_no_perfect_hash_gives_no_table() {
    let zeros = [0u64; 64];
    assert!(SliderTable::build(false, &zeros).is_none());
    assert!(SliderTable::build(true, &zeros).is_none());
    let fine = chess_core::constants::ROOK_MAGIC_NUMBERS;
    assert!(SliderTable::build(false, &fine).is_some());
    let mut spoiled = fine;
    spoiled[17] = 1;
    assert!(SliderTable::build(false, &spoiled).is_none());
}

#[test]
fn piece_generators() {
    let tables = tables();
    let friendly = 0xffff_0000_0000_0000u64;
    let enemy = 0x0000_0000_0000_ffffu64;
    let full = friendly | enemy;
    assert_eq!(
        generate_knight_moves(&tables, vec![(0, 57), (0, 62)], friendly),
        vec![(1 << 57, (1 << 40) | (1 << 42)), (1 << 62, (1 << 45) | (1 << 47))]
    );
    assert_eq!(generate_king_moves(&tables, vec![(0, 60)], friendly), vec![(1 << 60, 0)]);
    assert_eq!(
        generate_king_moves(&tables, vec![(0, 36)], friendly),
        vec![(1 << 36, tables.king[36])]
    );
    assert_eq!(generate_rook_moves(&tables, vec![(0, 56)], friendly, full), vec![(1 << 56, 0)]);
    assert_eq!(
        generate_rook_moves(&tables, vec![(0, 36)], friendly, full),
        vec![(
            1 << 36,
            (1 << 28) | (1 << 20) | (1 << 12) | (1 << 44) | (0xff << 32) & !(1u64 << 36)
        )]
    );
    assert_eq!(
        generate_bishop_moves(&tables, vec![(0, 36)], friendly, full),
        vec![(
            1 << 36,
            (1 << 27) | (1 << 18) | (1 << 9) | (1 << 29) | (1 << 22) | (1 << 15) | (1 << 43)
                | (1 << 45)
        )]
    );
    let rook = generate_rook_moves(&tables, vec![(0, 36), (0, 20)], friendly, full);
    let bishop = generate_bishop_moves(&tables, vec![(0, 36), (0, 20)], friendly, full);
    let queen = generate_quen_moves(&tables, vec![(0, 36), (0, 20)], full, friendly);
    assert_eq!(queen.len(), 2);
    for i in 0..2 {
        assert_eq!(queen[i], (rook[i].0, rook[i].1 | bishop[i].1));
    }
    assert_eq!(generate_quen_moves(&tables, vec![], full, friendly), vec![]);
}

#[test]
fn pawn_generator() {
    let tables = tables();
    let friendly = 0xffff_0000_0000_0000u64;
    let enemy = 0x0000_0000_0000_ffffu64;
    // a white pawn on its home row may go one or two squares
    assert_eq!(
        generate_pawn_moves(&tables, vec![(0, 52)], friendly, enemy, 0),
        vec![(1 << 52, (1 << 44) | (1 << 36))]
    );
    // a black pawn on its home row
    assert_eq!(
        generate_pawn_moves(&tables, vec![(1, 12)], enemy, friendly, 0),
        vec![(1 << 12, (1 << 20) | (1 << 28))]
    );
    // blocked on the first square: no move at all
    assert_eq!(
        generate_pawn_moves(&tables, vec![(0, 52)], friendly, enemy | (1 << 44), 0),
        vec![(1 << 52, 0)]
    );
    // blocked on the second square: one square only
    assert_eq!(
        generate_pawn_moves(&tables, vec![(0, 52)], friendly, enemy | (1 << 36), 0),
        vec![(1 << 52, 1 << 44)]
    );
    // captures to both sides
    assert_eq!(
        generate_pawn_moves(&tables, vec![(0, 36)], 1 << 36, (1 << 27) | (1 << 29) | (1 << 28), 0),
        vec![(1 << 36, (1 << 27) | (1 << 29))]
    );
    // off the home row only one square
    assert_eq!(
        generate_pawn_moves(&tables, vec![(0, 44)], 1 << 44, 0, 0),
        vec![(1 << 44, 1 << 36)]
    );
    // on the last row nothing
    assert_eq!(generate_pawn_moves(&tables, vec![(0, 3)], 1 << 3, 0, 0), vec![(1 << 3, 0)]);
    assert_eq!(generate_pawn_moves(&tables, vec![(1, 60)], 1 << 60, 0, 0), vec![(1 << 60, 0)]);
    // en passant: white pawn on e5, black pawn on d5, square d6
    assert_eq!(
        generate_pawn_moves(&tables, vec![(0, 28)], 1 << 28, 1 << 27, 1 << 19),
        vec![(1 << 28, (1 << 20) | (1 << 19))]
    );
    // no enemy behind the square: no en passant
    assert_eq!(
        generate_pawn_moves(&tables, vec![(0, 28)], 1 << 28, 1 << 26, 1 << 19),
        vec![(1 << 28, 1 << 20)]
    );
    // the pawn does not attack the square: no en passant
    assert_eq!(
        generate_pawn_moves(&tables, vec![(0, 30)], 1 << 30, 1 << 27, 1 << 19),
        vec![(1 << 30, 1 << 22)]
    );
    // black takes en passant: black pawn on d4, white pawn on e4, square e3
    assert_eq!(
        generate_pawn_moves(&tables, vec![(1, 35)], 1 << 35, 1 << 36, 1 << 44),
        vec![(1 << 35, (1 << 43) | (1 << 44))]
    );
}

#[test]
fn bitboard_picture() {
    let lines = chess_core::utils::render_bitboard(0x8000_0000_0000_0081);
    assert_eq!(lines.len(), 8);
    assert_eq!(lines[0], b"8  1 0 0 0 0 0 0 1".to_vec());
    assert_eq!(lines[1], b"7  0 0 0 0 0 0 0 0".to_vec());
    assert_eq!(lines[7], b"1  0 0 0 0 0 0 0 1".to_vec());
    let full = chess_core::utils::render_bitboard(u64::MAX);
    for (row, line) in full.iter().enumerate() {
        assert_eq!(line.len(), 18);
        assert_eq!(line[0], b'8' - row as u8);
        assert_eq!(&line[1..], b"  1 1 1 1 1 1 1 1");
    }
}

#[test]
fn file_and_rank_masks() {
    assert_eq!(chess_core::attacks::file_mask(0), 0x0101_0101_0101_0101);
    assert_eq!(chess_core::attacks::file_mask(7), 0x8080_8080_8080_8080);
    assert_eq!(chess_core::attacks::rank_mask(0), 0xff);
    assert_eq!(chess_core::attacks::rank_mask(6), 0x00ff_0000_0000_0000);
    let mut all = 0u64;
    for i in 0..8u8 {
        assert_eq!(chess_core::attacks::file_mask(i).count_ones(), 8);
        assert_eq!(chess_core::attacks::rank_mask(i).count_ones(), 8);
        assert_eq!(
            chess_core::attacks::file_mask(i) & chess_core::attacks::rank_mask(i),
            1u64 << (9 * i)
        );
        all |= chess_core::attacks::rank_mask(i);
    }
    assert_eq!(all, u64::MAX);
}
