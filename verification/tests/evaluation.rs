use chess_core::board::BoardState;
use chess_core::constants::DEFAULT_FEN_STRING;
use chess_core::eval::evaluate;
use chess_core::eval::BISHOP_BONUS;
use chess_core::eval::CHECKMATE;
use chess_core::eval::KING_ENDGAME_BONUS;
use chess_core::eval::KING_MIDDLEGAME_BONUS;
use chess_core::eval::KNIGHT_BONUS;
use chess_core::eval::PAWN_ENDGAME_BONUS;
use chess_core::eval::PAWN_MIDDLEGAME_BONUS;
use chess_core::eval::QUEEN_BONUS;
use chess_core::eval::ROOK_BONUS;
use chess_core::eval::STALEMATE;
use chess_core::magic::AttackTables;

fn tables() -> AttackTables {
    AttackTables::new().expect("the shipped magic numbers fit")
}

fn score(fen: &str) -> i32 {
    let board = BoardState::from_fen(fen).expect("Fail during board setup");
    evaluate(&board, &tables())
}

#[test]
fn terminal_scores() {
    assert_eq!(CHECKMATE, -10_000);
    assert_eq!(STALEMATE, 0);
}

#[test]
fn the_initial_position_is_level() {
    assert_eq!(score(DEFAULT_FEN_STRING), 0);
}

#[test]
fn endgame_with_one_pawn() {
    // white: pawn on e2 (200 + 30) and king; black: king on the mirrored square
    assert_eq!(score("4k3/8/8/8/8/8/4P3/4K3 w - - 0 1"), 230);
    assert_eq!(score("4k3/8/8/8/8/8/4P3/4K3 b - - 1 1"), -230);
}

#[test]
fn mirrored_positions_score_alike() {
    let white = score("4k3/8/8/8/8/8/4P3/4K3 w - - 0 1");
    let black = score("4k3/4p3/8/8/8/8/8/4K3 b - - 1 1");
    assert_eq!(white, black);
    let white = score("r1bqkbnr/pppp1ppp/2n5/4p3/4P3/5N2/PPPP1PPP/RNBQKB1R w KQkq - 0 3");
    assert_eq!(white, 0);
    let ahead = score("rnbqkbnr/pppppppp/8/8/4P3/8/PPPP1PPP/RNBQKBNR w KQkq - 0 1");
    let behind = score("rnbqkbnr/pppp1ppp/8/4p3/8/8/PPPPPPPP/RNBQKBNR b KQkq - 1 1");
    assert_eq!(ahead, behind);
}

#[test]
fn middlegame_scores() {
    // after e2 to e4 black sees white 145 ahead
    assert_eq!(score("rnbqkbnr/pppppppp/8/8/4P3/8/PPPP1PPP/RNBQKBNR b KQkq e3 1 1"), 145);
    assert_eq!(score("rnbqkbnr/ppppp1pp/8/5p1Q/4P3/8/PPPP1PPP/RNB1KBNR w KQkq f6 0 1"), 15);
    // two bishops against none, eight pieces that are not pawns
    assert_eq!(score("r3k2r/8/8/8/8/8/8/R2BKB1R w KQkq - 0 1"), 690);
}

#[test]
fn endgame_scores() {
    assert_eq!(score("6k1/5ppp/8/8/8/8/8/R5K1 w - - 0 1"), -40);
    assert_eq!(score("k7/2Q5/1K6/8/8/8/8/8 b - - 1 1"), -960);
    assert_eq!(score("4k3/8/8/3pP3/8/8/8/4K3 w - d6 0 2"), -20);
}

#[test]
fn five_pieces_are_an_endgame_and_six_are_not() {
    // kings, two white rooks, one black rook: five pieces, rooks count 600
    let five = score("r3k3/8/8/8/8/8/8/R3K2R w - - 0 1");
    // one more black rook: six pieces, rooks count 500, kings get the shelter term
    let six = score("r3k2r/8/8/8/8/8/8/R3K2R w - - 0 1");
    assert_eq!(six, 0);
    assert_eq!(
        five,
        600 + ROOK_BONUS[63] + KING_ENDGAME_BONUS[60] - KING_ENDGAME_BONUS[60]
    );
}

#[test]
fn bonus_tables_stay_in_range() {
    for table in [
        PAWN_MIDDLEGAME_BONUS,
        PAWN_ENDGAME_BONUS,
        KNIGHT_BONUS,
        BISHOP_BONUS,
        ROOK_BONUS,
        QUEEN_BONUS,
        KING_MIDDLEGAME_BONUS,
        KING_ENDGAME_BONUS,
    ] {
        for bonus in table {
            assert!(-50 <= bonus && bonus <= 50);
        }
    }
    assert_eq!(PAWN_MIDDLEGAME_BONUS[52], 50);
    assert_eq!(KNIGHT_BONUS[0], -50);
}

#[test]
fn crowded_king_is_penalised() {
    // white king on e1 with three friendly neighbours and a free square; six pieces that are
    // not pawns, so the shelter of the kings counts
    let crowded = score("r3k2r/8/8/8/8/8/3PPP2/R3K2R w - - 0 1");
    let sheltered = score("r3k2r/8/8/8/8/8/3P1P2/R3K2R w - - 0 1");
    // the e-pawn is worth 100 + 50 where it stands, and costs 120 of shelter
    assert_eq!(crowded - sheltered, 100 + PAWN_MIDDLEGAME_BONUS[52] - 120);
}
