use chess_core::board::BoardState;
use chess_core::board::NULL_MOVE;
use chess_core::constants::DEFAULT_FEN_STRING;
use chess_core::eval::evaluate;
use chess_core::eval::CHECKMATE;
use chess_core::eval::STALEMATE;
use chess_core::magic::AttackTables;
use chess_core::search::negamax;
use chess_core::utils::Color;
use chess_core::utils::Piece;

fn tables() -> AttackTables {
    AttackTables::new().expect("the shipped magic numbers fit")
}

fn search(fen: &str, depth: u8) -> (i32, u32) {
    let tables = tables();
    let mut board = BoardState::from_fen(fen).expect("Fail during board setup");
    assert!(board.is_playable(&tables));
    let before = board.clone();
    let found = negamax(&mut board, &tables, depth);
    assert_eq!(board.bb_pieces, before.bb_pieces);
    assert_eq!(board.bb_colors, before.bb_colors);
    assert_eq!(board.bb_fullboard, before.bb_fullboard);
    assert_eq!(board.to_move, before.to_move);
    assert_eq!(board.halfmove, before.halfmove);
    assert_eq!(board.fullmove, before.fullmove);
    assert_eq!(board.move_history, before.move_history);
    found
}

#[test]
fn depth_zero_is_the_static_score() {
    let tables = tables();
    let mut board = BoardState::from_fen("4k3/8/8/8/8/8/4P3/4K3 w - - 0 1")
        .expect("Fail during board setup");
    let before = board.clone();
    assert_eq!(negamax(&mut board, &tables, 0), (230, NULL_MOVE));
    assert_eq!(negamax(&mut board, &tables, 0).0, evaluate(&board, &tables));
    assert_eq!(board, before);
}

#[test]
fn stalemate_scores_zero() {
    assert_eq!(search("k7/2Q5/1K6/8/8/8/8/8 b - - 1 1", 1), (STALEMATE, NULL_MOVE));
    assert_eq!(search("k7/2Q5/1K6/8/8/8/8/8 b - - 1 1", 1), (0, 0));
    assert_eq!(search("k7/2Q5/1K6/8/8/8/8/8 b - - 1 1", 3), (0, 0));
}

#[test]
fn checkmate_scores_the_mate_constant() {
    assert_eq!(search("k7/1Q6/1K6/8/8/8/8/8 b - - 1 1", 1), (CHECKMATE, NULL_MOVE));
    assert_eq!(search("k7/1Q6/1K6/8/8/8/8/8 b - - 1 1", 1), (-10_000, 0));
    assert_eq!(search("k7/1Q6/1K6/8/8/8/8/8 b - - 1 1", 2), (-10_000, 0));
}

#[test]
fn mate_in_one_is_found() {
    let tables = tables();
    let (score, best) = search("6k1/5ppp/8/8/8/8/8/R5K1 w - - 0 1", 2);
    assert_eq!(score, 10_000);
    // rook a1 to a8
    assert_eq!(best, 405560);
    let mut board = BoardState::from_fen("6k1/5ppp/8/8/8/8/8/R5K1 w - - 0 1")
        .expect("Fail during board setup");
    assert_eq!(
        board.decode_move(best),
        Ok((56, 0, Piece::Rook, Color::White, Piece::Empty, false))
    );
    assert_eq!(board.make_move(best), Ok(()));
    assert!(board.is_in_check(&tables, &Color::Black));
    assert_eq!(negamax(&mut board, &tables, 1), (CHECKMATE, NULL_MOVE));
    // at depth 1 the mate is not seen
    assert_eq!(search("6k1/5ppp/8/8/8/8/8/R5K1 w - - 0 1", 1), (-10, 417150));
}

#[test]
fn search_from_the_initial_position() {
    assert_eq!(search(DEFAULT_FEN_STRING, 1), (50, 400057));
    assert_eq!(search(DEFAULT_FEN_STRING, 2), (0, 400057));
    assert_eq!(search(DEFAULT_FEN_STRING, 3), (50, 400057));
}

#[test]
fn search_values() {
    assert_eq!(search("4k3/8/8/8/8/8/4P3/4K3 w - - 0 1", 1), (260, 417020));
    assert_eq!(search("4k3/8/8/8/8/8/4P3/4K3 w - - 0 1", 2), (230, 417020));
    assert_eq!(search("4k3/8/8/8/8/8/4P3/4K3 b - - 1 1", 1), (-200, 447172));
    assert_eq!(search("4k3/8/8/8/8/8/4P3/4K3 b - - 1 1", 2), (-230, 447172));
    assert_eq!(
        search("r1bqkbnr/pppp1ppp/2n5/4p3/4P3/5N2/PPPP1PPP/RNBQKB1R w KQkq - 0 3", 1),
        (135, 5933)
    );
    assert_eq!(
        search("r1bqkbnr/pppp1ppp/2n5/4p3/4P3/5N2/PPPP1PPP/RNBQKB1R w KQkq - 0 3", 2),
        (-115, 400057)
    );
    assert_eq!(
        search("rnbqkbnr/pppppppp/8/8/4P3/8/PPPP1PPP/RNBQKBNR b KQkq e3 1 1", 2),
        (30, 431233)
    );
    assert_eq!(search("4k3/8/8/3pP3/8/8/8/4K3 w - d6 0 2", 2), (-20, 417020));
    assert_eq!(search("r3k2r/8/8/8/8/8/8/R2BKB1R w KQkq - 0 1", 2), (1190, 208952));
}

#[test]
fn the_value_is_the_negated_value_after_the_best_move() {
    let tables = tables();
    for fen in [
        DEFAULT_FEN_STRING,
        "r1bqkbnr/pppp1ppp/2n5/4p3/4P3/5N2/PPPP1PPP/RNBQKB1R w KQkq - 0 3",
        "6k1/5ppp/8/8/8/8/8/R5K1 w - - 0 1",
        "4k3/8/8/8/8/8/4P3/4K3 b - - 1 1",
    ] {
        for depth in 1..3u8 {
            let (score, best) = search(fen, depth);
            let mut board = BoardState::from_fen(fen).expect("Fail during board setup");
            let mover = board.to_move;
            assert!(board.generate_moves_by_color(&tables, &mover).contains(&best));
            assert_eq!(board.make_move(best), Ok(()));
            assert!(!board.is_in_check(&tables, &mover));
            let (reply, _) = negamax(&mut board, &tables, depth - 1);
            assert_eq!(score, -reply);
        }
    }
}

#[test]
fn no_legal_move_does_better_than_the_best() {
    let tables = tables();
    let fen = "r1bqkbnr/pppp1ppp/2n5/4p3/4P3/5N2/PPPP1PPP/RNBQKB1R w KQkq - 0 3";
    let (score, _) = search(fen, 2);
    let mut board = BoardState::from_fen(fen).expect("Fail during board setup");
    let mut legal = 0;
    for piece_move in board.generate_moves_by_color(&tables, &Color::White) {
        assert_eq!(board.make_move(piece_move), Ok(()));
        if !board.is_in_check(&tables, &Color::White) {
            legal += 1;
            let (reply, _) = negamax(&mut board, &tables, 1);
            assert!(-reply <= score);
        }
        assert_eq!(board.undo_move(), Ok(()));
    }
    assert_eq!(legal, 27);
}

#[test]
fn moves_that_leave_the_king_attacked_are_not_counted() {
    let tables = tables();
    // the white rook on e2 is pinned to the king by the rook on e8
    let fen = "4r1k1/8/8/8/8/8/4R3/4K3 w - - 0 1";
    let mut board = BoardState::from_fen(fen).expect("Fail during board setup");
    let mut legal = Vec::new();
    for piece_move in board.generate_moves_by_color(&tables, &Color::White) {
        assert_eq!(board.make_move(piece_move), Ok(()));
        if !board.is_in_check(&tables, &Color::White) {
            legal.push(piece_move);
        }
        assert_eq!(board.undo_move(), Ok(()));
    }
    // the rook may only move on the e-file; the king may leave it
    for piece_move in &legal {
        let (from, to, piece, _, _, _) = board.decode_move(*piece_move).expect("a generated move");
        if piece == Piece::Rook {
            assert_eq!(from, 52);
            assert_eq!(to % 8, 4);
        }
    }
    assert_eq!(legal.iter().filter(|m| (*m >> 12) & 7 == 3).count(), 6);
    let (_, best) = search(fen, 1);
    assert!(legal.contains(&best));
    // rook takes rook
    assert_eq!(best, 52 + 4 * 64 + 3 * 4096 + 3 * 65536);
}

#[test]
fn the_board_after_the_search() {
    let tables = tables();
    // every move from the initial position leaves nothing behind when it is taken back
    let mut board = BoardState::from_fen(DEFAULT_FEN_STRING).expect("Fail during board setup");
    let before = board.clone();
    negamax(&mut board, &tables, 2);
    assert_eq!(board, before);
    // the last move tried is the pawn move e5 to e4, from the row where two-square advances
    // land: taking it back leaves the square behind e5 as the en-passant square
    let mut board = BoardState::from_fen("kp6/pp6/8/4p3/8/8/8/4K3 b - - 1 1")
        .expect("Fail during board setup");
    assert!(board.is_playable(&tables));
    let before = board.clone();
    let moves = board.generate_moves_by_color(&tables, &Color::Black);
    assert_eq!(moves.last(), Some(&(28 + 36 * 64 + 32768 + 6 * 65536)));
    negamax(&mut board, &tables, 1);
    assert_eq!(board.bb_en_passant, 1 << 20);
    assert_eq!(board.bb_pieces, before.bb_pieces);
    assert_eq!(board.bb_castling_rigths, before.bb_castling_rigths);
    assert_eq!(board.move_history, before.move_history);
}
