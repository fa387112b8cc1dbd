use chess_core::board::BoardState;
use chess_core::constants::DEFAULT_FEN_STRING;
use chess_core::magic::AttackTables;
use chess_core::utils::ChessError;
use chess_core::utils::Color;
use chess_core::utils::Piece;

fn tables() -> AttackTables {
    AttackTables::new().expect("the shipped magic numbers fit")
}

fn assert_coherent(board: &BoardState) {
    for side in 0..2 {
        let mut union = 0u64;
        for kind in 0..6 {
            assert_eq!(union & board.bb_pieces[side][kind], 0);
            union |= board.bb_pieces[side][kind];
        }
        assert_eq!(board.bb_colors[side], union);
        assert_eq!(board.bb_pieces[side][5].count_ones(), 1);
    }
    assert_eq!(board.bb_colors[0] & board.bb_colors[1], 0);
    assert_eq!(board.bb_fullboard, board.bb_colors[0] | board.bb_colors[1]);
    assert!(board.bb_en_passant.count_ones() <= 1);
}

#[test]
fn from_fen_ok() {
    assert!(BoardState::from_fen(DEFAULT_FEN_STRING).is_ok())
}

#[test]
fn initial_moves() {
    let tables = tables();
    let board = BoardState::from_fen(DEFAULT_FEN_STRING).expect("Fail during board setup");
    assert_eq!(
        board.generate_moves_by_color(&tables, &board.to_move).len(),
        (8 * 2) + (2 * 2)
    )
}

#[test]
fn in_check() {
    let tables = tables();
    let board =
        BoardState::from_fen("rnbqkbnr/ppppp1pp/8/5p1Q/4P3/8/PPPP1PPP/RNB1KBNR w KQkq f6 0 1")
            .expect("Fail during board setup");
    assert!(board.is_in_check(&tables, &Color::Black))
}

#[test]
fn test_undo() {
    let tables = tables();
    let mut board = BoardState::from_fen(DEFAULT_FEN_STRING).expect("Fail during board setup");
    let prev_board: BoardState = board.clone();

    let white_moves = board.generate_moves_by_color(&tables, &Color::White);

    // just random move, doesnt really matter
    assert_eq!(board.make_move(white_moves[0]), Ok(()));

    assert_ne!(board, prev_board);
    assert_eq!(board.undo_move(), Ok(()));
    assert_eq!(board, prev_board);
}

#[test]
fn not_in_check_without_the_queen() {
    let tables = tables();
    let board =
        BoardState::from_fen("rnbqkbnr/ppppp1pp/8/5p2/4P3/8/PPPP1PPP/RNB1KBNR w KQkq f6 0 1")
            .expect("Fail during board setup");
    assert!(!board.is_in_check(&tables, &Color::Black));
    assert!(!board.is_in_check(&tables, &Color::White));
}

#[test]
fn initial_position_fields() {
    let board = BoardState::from_fen(DEFAULT_FEN_STRING).expect("Fail during board setup");
    assert_eq!(board.get_piece_bb(Color::White, Piece::Pawn), 0x00ff_0000_0000_0000);
    assert_eq!(board.get_piece_bb(Color::Black, Piece::Pawn), 0x0000_0000_0000_ff00);
    assert_eq!(board.get_piece_bb(Color::White, Piece::King), 1u64 << 60);
    assert_eq!(board.get_piece_bb(Color::Black, Piece::King), 1u64 << 4);
    assert_eq!(board.get_piece_bb(Color::White, Piece::Rook), (1u64 << 56) | (1u64 << 63));
    assert_eq!(board.get_color_bb(Color::White), 0xffff_0000_0000_0000);
    assert_eq!(board.get_color_bb(Color::Black), 0x0000_0000_0000_ffff);
    assert_eq!(board.bb_fullboard, 0xffff_0000_0000_ffff);
    assert_eq!(board.to_move, Color::White);
    assert_eq!(board.bb_castling_rigths, [[1u64 << 63, 1u64 << 56], [1u64, 1u64 << 7]]);
    assert_eq!(board.bb_en_passant, 0);
    assert_eq!(board.halfmove, 0);
    assert_eq!(board.fullmove, 1);
    assert!(board.move_history.is_empty());
    assert!(board.is_valid_start());
    assert_coherent(&board);
}

#[test]
fn initial_moves_in_order() {
    let tables = tables();
    let board = BoardState::from_fen(DEFAULT_FEN_STRING).expect("Fail during board setup");
    let moves = board.generate_moves_by_color(&tables, &Color::White);
    assert_eq!(
        moves,
        vec![
            395312, 395824, 395377, 395889, 395442, 395954, 395507, 396019, 395572, 396084, 395637,
            396149, 395702, 396214, 395767, 396279, 399929, 400057, 400254, 400382
        ]
    );
    let replies = board.generate_moves_by_color(&tables, &Color::Black);
    assert_eq!(replies.len(), 20);
    assert_eq!(replies[0], 8 + 16 * 64 + 32768 + 6 * 65536);
}

#[test]
fn make_then_undo_restores_every_initial_move() {
    let tables = tables();
    let mut board = BoardState::from_fen(DEFAULT_FEN_STRING).expect("Fail during board setup");
    let moves = board.generate_moves_by_color(&tables, &Color::White);
    assert_eq!(moves.len(), 20);
    for piece_move in moves {
        let snapshot = board.clone();
        assert_eq!(board.make_move(piece_move), Ok(()));
        assert_eq!(board.move_history.len(), 1);
        assert_coherent(&board);
        assert_eq!(board.undo_move(), Ok(()));
        assert_eq!(board, snapshot);
        assert!(board.move_history.is_empty());
    }
}

#[test]
fn make_move_updates_the_position() {
    let mut board = BoardState::from_fen(DEFAULT_FEN_STRING).expect("Fail during board setup");
    // e2 to e4
    let piece_move = board
        .encode_move(52, 36, Piece::Pawn, Color::White, Piece::Empty, false)
        .expect("squares on the board");
    assert_eq!(board.make_move(piece_move), Ok(()));
    assert_eq!(board.get_piece_bb(Color::White, Piece::Pawn), 0x00ef_0010_0000_0000);
    assert_eq!(board.get_color_bb(Color::White), 0xffef_0010_0000_0000);
    assert_eq!(board.bb_fullboard, 0xffef_0010_0000_ffff);
    assert_eq!(board.bb_en_passant, 1u64 << 44);
    assert_eq!(board.to_move, Color::Black);
    assert_eq!(board.halfmove, 1);
    assert_eq!(board.fullmove, 1);
    assert_eq!(board.move_history, vec![piece_move]);
    // e7 to e5
    let reply = board
        .encode_move(12, 28, Piece::Pawn, Color::Black, Piece::Empty, false)
        .expect("squares on the board");
    assert_eq!(board.make_move(reply), Ok(()));
    assert_eq!(board.bb_en_passant, 1u64 << 20);
    assert_eq!(board.to_move, Color::White);
    assert_eq!(board.halfmove, 0);
    assert_eq!(board.fullmove, 2);
    // knight g1 to f3 clears the en-passant square
    let knight = board
        .encode_move(62, 45, Piece::Knight, Color::White, Piece::Empty, false)
        .expect("squares on the board");
    assert_eq!(board.make_move(knight), Ok(()));
    assert_eq!(board.bb_en_passant, 0);
    assert_eq!(board.move_history.len(), 3);
    assert_coherent(&board);
    assert_eq!(board.undo_move(), Ok(()));
    assert_eq!(board.undo_move(), Ok(()));
    assert_eq!(board.fullmove, 1);
    assert_eq!(board.halfmove, 1);
    assert_eq!(board.to_move, Color::Black);
    assert_eq!(board.undo_move(), Ok(()));
    assert_eq!(board, BoardState::from_fen(DEFAULT_FEN_STRING).expect("Fail during board setup"));
}

#[test]
fn capture_is_made_and_taken_back() {
    let tables = tables();
    let mut board =
        BoardState::from_fen("rnbqkbnr/ppppp1pp/8/5p2/4P3/8/PPPP1PPP/RNBQKBNR w KQkq - 0 2")
            .expect("Fail during board setup");
    let snapshot = board.clone();
    let moves = board.generate_moves_by_color(&tables, &Color::White);
    // e4 takes f5
    let capture = 36 + 29 * 64;
    assert!(moves.contains(&capture));
    assert_eq!(board.decode_move(capture), Ok((36, 29, Piece::Pawn, Color::White, Piece::Pawn, false)));
    assert_eq!(board.make_move(capture), Ok(()));
    assert_eq!(board.get_piece_bb(Color::Black, Piece::Pawn) & (1u64 << 29), 0);
    assert_eq!(board.get_piece_bb(Color::White, Piece::Pawn) & (1u64 << 29), 1u64 << 29);
    assert_eq!(board.get_color_bb(Color::Black) & (1u64 << 29), 0);
    assert_eq!(board.bb_fullboard.count_ones(), 31);
    assert_coherent(&board);
    assert_eq!(board.undo_move(), Ok(()));
    assert_eq!(board.bb_pieces, snapshot.bb_pieces);
    assert_eq!(board.bb_colors, snapshot.bb_colors);
    assert_eq!(board.bb_fullboard, snapshot.bb_fullboard);
    assert_eq!(board.bb_castling_rigths, snapshot.bb_castling_rigths);
    assert_eq!(board.to_move, snapshot.to_move);
    assert_eq!(board.halfmove, snapshot.halfmove);
    assert_eq!(board.fullmove, snapshot.fullmove);
    assert_eq!(board.move_history, snapshot.move_history);
    // the pawn started on the row where two-square advances land
    assert_eq!(board.bb_en_passant, 1u64 << 44);
}

#[test]
fn king_and_rook_moves_give_up_castling_rights() {
    let mut board = BoardState::from_fen("r3k2r/8/8/8/8/8/8/R3K2R w KQkq - 0 1")
        .expect("Fail during board setup");
    let rook = board
        .encode_move(63, 62, Piece::Rook, Color::White, Piece::Empty, false)
        .expect("squares on the board");
    assert_eq!(board.make_move(rook), Ok(()));
    assert_eq!(board.bb_castling_rigths, [[0, 1u64 << 56], [1u64, 1u64 << 7]]);
    let king = board
        .encode_move(4, 12, Piece::King, Color::Black, Piece::Empty, false)
        .expect("squares on the board");
    assert_eq!(board.make_move(king), Ok(()));
    assert_eq!(board.bb_castling_rigths, [[0, 1u64 << 56], [0, 0]]);
    assert_eq!(board.undo_move(), Ok(()));
    assert_eq!(board.bb_castling_rigths, [[0, 1u64 << 56], [1u64, 1u64 << 7]]);
    assert_eq!(board.undo_move(), Ok(()));
    assert_eq!(board.bb_castling_rigths, [[1u64 << 63, 1u64 << 56], [1u64, 1u64 << 7]]);
}

#[test]
fn undo_after_a_pawn_move_from_the_landing_row_sets_the_en_passant_square() {
    let mut board = BoardState::from_fen("4k3/8/8/8/4P3/8/8/4K3 w - - 0 1")
        .expect("Fail during board setup");
    let snapshot = board.clone();
    let push = board
        .encode_move(36, 28, Piece::Pawn, Color::White, Piece::Empty, false)
        .expect("squares on the board");
    assert_eq!(board.make_move(push), Ok(()));
    assert_eq!(board.bb_en_passant, 0);
    assert_eq!(board.undo_move(), Ok(()));
    assert_eq!(board.bb_en_passant, 1u64 << 44);
    assert_eq!(board.bb_pieces, snapshot.bb_pieces);
    assert_eq!(board.bb_colors, snapshot.bb_colors);
    assert_eq!(board.bb_fullboard, snapshot.bb_fullboard);
    assert_eq!(board.to_move, snapshot.to_move);
    assert_eq!(board.halfmove, snapshot.halfmove);
    assert_eq!(board.fullmove, snapshot.fullmove);
    assert_eq!(board.move_history, snapshot.move_history);
}

#[test]
fn undo_on_an_empty_stack_is_an_error() {
    let mut board = BoardState::from_fen(DEFAULT_FEN_STRING).expect("Fail during board setup");
    let snapshot = board.clone();
    assert_eq!(board.undo_move(), Err(ChessError::EmptyHistory));
    assert_eq!(board, snapshot);
}

#[test]
fn make_move_refuses_what_it_cannot_read() {
    let mut board = BoardState::from_fen(DEFAULT_FEN_STRING).expect("Fail during board setup");
    let snapshot = board.clone();
    // moving kind 7
    assert_eq!(board.make_move(7 << 12), Err(ChessError::InvalidMoveEncoding));
    // captured kind 7
    assert_eq!(board.make_move(52 + 36 * 64 + (7 << 16)), Err(ChessError::InvalidMoveEncoding));
    // moving kind Empty
    assert_eq!(board.make_move(52 + 36 * 64 + (6 << 12)), Err(ChessError::InvalidMoveEncoding));
    assert_eq!(board, snapshot);
    board.move_history.push(7 << 12);
    assert_eq!(board.undo_move(), Err(ChessError::InvalidMoveEncoding));
    assert_eq!(board.move_history, vec![7 << 12]);
}

#[test]
fn captured_piece_is_looked_up_on_the_other_side() {
    let board =
        BoardState::from_fen("rnbqkbnr/ppppp1pp/8/5p1Q/4P3/8/PPPP1PPP/RNB1KBNR w KQkq f6 0 1")
            .expect("Fail during board setup");
    assert_eq!(board.get_captured_piece(1u64 << 29), Piece::Pawn);
    assert_eq!(board.get_captured_piece(1u64 << 4), Piece::King);
    assert_eq!(board.get_captured_piece(1u64 << 3), Piece::Queen);
    assert_eq!(board.get_captured_piece(1u64 << 36), Piece::Empty);
    assert_eq!(board.get_captured_piece(1u64 << 20), Piece::Empty);
    assert_eq!(board.piece_on(Color::White, 1u64 << 31), Piece::Queen);
    assert_eq!(board.piece_on(Color::White, 1u64 << 29), Piece::Empty);
    assert_eq!(board.piece_on(Color::Black, 1u64 << 1), Piece::Knight);
    assert_eq!(board.piece_on(Color::Black, 1u64 << 2), Piece::Bishop);
    assert_eq!(board.piece_on(Color::Black, 1u64), Piece::Rook);
}

#[test]
fn en_passant_square_is_a_destination() {
    let tables = tables();
    let board = BoardState::from_fen("4k3/8/8/3pP3/8/8/8/4K3 w - d6 0 2")
        .expect("Fail during board setup");
    let moves = board.generate_moves_by_color(&tables, &Color::White);
    assert_eq!(moves, vec![394460, 394524, 417020, 417084, 417148, 417532, 417660]);
    // without the en-passant square only the push is left to the pawn
    let plain = BoardState::from_fen("4k3/8/8/3pP3/8/8/8/4K3 w - - 0 2")
        .expect("Fail during board setup");
    let moves = plain.generate_moves_by_color(&tables, &Color::White);
    assert_eq!(moves, vec![394524, 417020, 417084, 417148, 417532, 417660]);
}

#[test]
fn double_push_needs_both_squares_free() {
    let tables = tables();
    // a knight right in front of the e-pawn, a knight two squares in front of the d-pawn
    let board = BoardState::from_fen("4k3/8/8/8/3n4/4n3/3PP3/4K3 w - - 0 1")
        .expect("Fail during board setup");
    let moves = board.generate_moves_by_color(&tables, &Color::White);
    let pawn_moves: Vec<u32> = moves.iter().copied().filter(|m| (m >> 12) & 7 == 0).collect();
    // d2 to d3, d2 takes e3
    assert_eq!(pawn_moves, vec![51 + 43 * 64 + 6 * 65536, 51 + 44 * 64 + 65536]);
}

#[test]
fn destinations_by_color_is_the_union_of_the_targets() {
    let tables = tables();
    let board = BoardState::from_fen(DEFAULT_FEN_STRING).expect("Fail during board setup");
    let mut union = 0u64;
    for piece_move in board.generate_moves_by_color(&tables, &Color::White) {
        union |= 1u64 << ((piece_move >> 6) & 63);
    }
    assert_eq!(board.destinations_by_color(&tables, Color::White), union);
    assert_eq!(union, 0x0000_ffff_0000_0000);
}

#[test]
fn from_external_state_derives_the_unions() {
    let start = BoardState::from_fen(DEFAULT_FEN_STRING).expect("Fail during board setup");
    let board = BoardState::from_external_state(
        start.bb_pieces,
        Color::White,
        start.bb_castling_rigths,
        0,
        0,
        1,
    );
    assert_eq!(board, start);
    let broken = BoardState::from_external_state(
        [[1, 1, 0, 0, 0, 2], [0, 0, 0, 0, 0, 4]],
        Color::White,
        [[0, 0], [0, 0]],
        0,
        0,
        1,
    );
    assert_eq!(broken.bb_colors, [3, 4]);
    assert_eq!(broken.bb_fullboard, 7);
    assert!(!broken.is_valid_start());
}

#[test]
fn playable_positions() {
    let tables = tables();
    let start = BoardState::from_fen(DEFAULT_FEN_STRING).expect("Fail during board setup");
    assert!(start.is_playable(&tables));
    // black is in check and white is to move
    let illegal =
        BoardState::from_fen("rnbqkbnr/ppppp1pp/8/5p1Q/4P3/8/PPPP1PPP/RNB1KBNR w KQkq f6 0 1")
            .expect("Fail during board setup");
    assert!(illegal.is_valid_start());
    assert!(!illegal.is_playable(&tables));
    // black to move with the flag of white
    let turn = BoardState::from_fen("rnbqkbnr/pppppppp/8/8/4P3/8/PPPP1PPP/RNBQKBNR b KQkq e3 0 1")
        .expect("Fail during board setup");
    assert!(turn.is_valid_start());
    assert!(!turn.is_playable(&tables));
    let fine = BoardState::from_fen("rnbqkbnr/pppppppp/8/8/4P3/8/PPPP1PPP/RNBQKBNR b KQkq e3 1 1")
        .expect("Fail during board setup");
    assert!(fine.is_playable(&tables));
    let mut after = start.clone();
    assert_eq!(after.make_move(52 + 36 * 64 + 6 * 65536), Ok(()));
    assert!(!after.is_valid_start());
}

#[test]
fn moving_onto_the_en_passant_square_leaves_the_passed_pawn() {
    let mut board = BoardState::from_fen("4k3/8/8/3pP3/8/8/8/4K3 w - d6 0 2")
        .expect("Fail during board setup");
    // e5 to d6
    assert_eq!(board.make_move(394460), Ok(()));
    assert_eq!(board.get_piece_bb(Color::White, Piece::Pawn), 1u64 << 19);
    assert_eq!(board.get_piece_bb(Color::Black, Piece::Pawn), 1u64 << 27);
    assert_eq!(board.bb_en_passant, 0);
    assert_coherent(&board);
}

#[test]
fn a_pawn_on_the_last_row_stays_a_pawn() {
    let tables = tables();
    let mut board = BoardState::from_fen("4k3/1P6/8/8/8/8/8/4K3 w - - 0 1")
        .expect("Fail during board setup");
    let moves = board.generate_moves_by_color(&tables, &Color::White);
    // b7 to b8, without the promotion flag
    assert_eq!(moves[0], 9 + 64 + 6 * 65536);
    assert_eq!(board.decode_move(moves[0]), Ok((9, 1, Piece::Pawn, Color::White, Piece::Empty, false)));
    assert_eq!(board.make_move(moves[0]), Ok(()));
    assert_eq!(board.get_piece_bb(Color::White, Piece::Pawn), 2);
    assert_eq!(board.get_piece_bb(Color::White, Piece::Queen), 0);
    // from the last row the pawn has no move
    let moves = board.generate_moves_by_color(&tables, &Color::White);
    assert!(moves.iter().all(|m| (m >> 12) & 7 == 5));
    // the promotion flag of a move is carried and changes nothing on the board
    let mut flagged = BoardState::from_fen("4k3/1P6/8/8/8/8/8/4K3 w - - 0 1")
        .expect("Fail during board setup");
    assert_eq!(flagged.make_move(9 + 64 + 6 * 65536 + (1 << 19)), Ok(()));
    assert_eq!(flagged.bb_pieces, board.bb_pieces);
    assert_eq!(flagged.move_history, vec![9 + 64 + 6 * 65536 + (1 << 19)]);
}

#[test]
fn generation_is_repeatable() {
    let tables = tables();
    let board =
        BoardState::from_fen("r1bqkbnr/pppp1ppp/2n5/4p3/4P3/5N2/PPPP1PPP/RNBQKB1R w KQkq - 0 3")
            .expect("Fail during board setup");
    let first = board.generate_moves_by_color(&tables, &Color::White);
    let second = board.generate_moves_by_color(&tables, &Color::White);
    assert_eq!(first, second);
    assert_eq!(
        first,
        vec![
            395312, 395824, 395377, 395889, 395442, 395954, 395507, 396019, 395702, 396214, 395767,
            396279, 417084, 5933, 399277, 399597, 399853, 401325, 399929, 400057, 402493, 403069,
            403645, 404221, 404797, 409535, 412987
        ]
    );
}

#[test]
fn the_generator_may_capture_a_king_that_is_in_check() {
    let tables = tables();
    let mut board =
        BoardState::from_fen("rnbqkbnr/ppppp1pp/8/5p1Q/4P3/8/PPPP1PPP/RNB1KBNR w KQkq f6 0 1")
            .expect("Fail during board setup");
    let moves = board.generate_moves_by_color(&tables, &Color::White);
    // queen h5 takes the king on e8
    let capture = 31 + 4 * 64 + 4 * 4096 + 5 * 65536;
    assert!(moves.contains(&capture));
    let snapshot = board.clone();
    assert_eq!(board.make_move(capture), Ok(()));
    assert_eq!(board.get_piece_bb(Color::Black, Piece::King), 0);
    assert_eq!(board.undo_move(), Ok(()));
    assert_eq!(board.bb_pieces, snapshot.bb_pieces);
}
