use chess_core::board::BoardState;
use chess_core::fen::FenError;
use chess_core::utils::Color;
use chess_core::utils::Piece;

fn error(fen: &str) -> FenError {
    match BoardState::from_fen(fen) {
        Ok(_) => panic!("{} was read", fen),
        Err(e) => e,
    }
}

#[test]
fn fields_are_set_apart_by_blanks() {
    let plain = BoardState::from_fen("4k3/8/8/8/8/8/4P3/4K3 w - - 0 1").expect("a position");
    let spaced = BoardState::from_fen("  4k3/8/8/8/8/8/4P3/4K3\tw  -\n- 0   1  ").expect("a position");
    assert_eq!(plain, spaced);
    assert_eq!(plain.get_piece_bb(Color::White, Piece::Pawn), 1 << 52);
    assert_eq!(plain.get_piece_bb(Color::White, Piece::King), 1 << 60);
    assert_eq!(plain.get_piece_bb(Color::Black, Piece::King), 1 << 4);
    assert_eq!(plain.bb_castling_rigths, [[0, 0], [0, 0]]);
}

#[test]
fn every_field_is_read() {
    let board = BoardState::from_fen("rnbqkbnr/pppppppp/8/8/4P3/8/PPPP1PPP/RNBQKBNR b Kq e3 1 42")
        .expect("a position");
    assert_eq!(board.to_move, Color::Black);
    assert_eq!(board.bb_castling_rigths, [[1 << 63, 0], [0, 1 << 7]]);
    assert_eq!(board.bb_en_passant, 1 << 44);
    assert_eq!(board.halfmove, 1);
    assert_eq!(board.fullmove, 42);
    assert_eq!(board.get_piece_bb(Color::White, Piece::Pawn), 0x00ef_0010_0000_0000);
    assert_eq!(board.get_piece_bb(Color::Black, Piece::Queen), 1 << 3);
    assert_eq!(board.get_piece_bb(Color::White, Piece::Queen), 1 << 59);
    assert_eq!(board.get_piece_bb(Color::Black, Piece::Knight), (1 << 1) | (1 << 6));
    assert_eq!(board.get_piece_bb(Color::White, Piece::Bishop), (1 << 58) | (1 << 61));
    let big = BoardState::from_fen("4k3/8/8/8/8/8/8/4K3 w - - 0 4294967295").expect("a position");
    assert_eq!(big.fullmove, u32::MAX);
}

#[test]
fn field_count() {
    assert_eq!(error(""), FenError::FieldCount);
    assert_eq!(error("4k3/8/8/8/8/8/4P3/4K3 w - - 0"), FenError::FieldCount);
    assert_eq!(error("4k3/8/8/8/8/8/4P3/4K3 w - - 0 1 1"), FenError::FieldCount);
}

#[test]
fn placement_errors() {
    assert_eq!(error("4k3/8/8/8/8/8/4K3 w - - 0 1"), FenError::RankCount);
    assert_eq!(error("4k3/8/8/8/8/8/8/8/4K3 w - - 0 1"), FenError::RankCount);
    assert_eq!(error("4k3P/8/8/8/8/8/8/4K3 w - - 0 1"), FenError::RankCount);
    assert_eq!(error("rnbqkbnrr/8/8/8/8/8/8/4K3 w - - 0 1"), FenError::RankCount);
    assert_eq!(error("4k3/8/8/8/8/8/8/4X3 w - - 0 1"), FenError::PieceLetter);
    assert_eq!(error("4k3/8/8/8/8/8/8/4K3\u{e9} w - - 0 1"), FenError::PieceLetter);
}

#[test]
fn king_errors() {
    assert_eq!(error("4k3/8/8/8/8/8/8/8 w - - 0 1"), FenError::WhiteKings);
    assert_eq!(error("4k3/8/8/8/8/8/8/3KK3 w - - 0 1"), FenError::WhiteKings);
    assert_eq!(error("8/8/8/8/8/8/8/4K3 w - - 0 1"), FenError::BlackKings);
    assert_eq!(error("3kk3/8/8/8/8/8/8/4K3 w - - 0 1"), FenError::BlackKings);
}

#[test]
fn to_move_and_castling_errors() {
    assert_eq!(error("4k3/8/8/8/8/8/8/4K3 x - - 0 1"), FenError::ToMove);
    assert_eq!(error("4k3/8/8/8/8/8/8/4K3 ww - - 0 1"), FenError::ToMove);
    assert_eq!(error("4k3/8/8/8/8/8/8/4K3 w KX - 0 1"), FenError::Castling);
}

#[test]
fn en_passant_errors() {
    assert_eq!(error("4k3/8/8/8/4P3/8/8/4K3 b - e33 1 1"), FenError::EnPassantLength);
    assert_eq!(error("4k3/8/8/8/4P3/8/8/4K3 b - e 1 1"), FenError::EnPassantSquare);
    assert_eq!(error("4k3/8/8/8/4P3/8/8/4K3 b - e9 1 1"), FenError::EnPassantSquare);
    assert_eq!(error("4k3/8/8/8/4P3/8/8/4K3 b - i3 1 1"), FenError::EnPassantSquare);
    // no pawn in front of the square
    assert_eq!(error("4k3/8/8/8/4P3/8/8/4K3 b - d3 1 1"), FenError::EnPassantSquare);
    // not a row where the square can lie
    assert_eq!(error("4k3/8/8/8/4P3/8/8/4K3 b - e4 1 1"), FenError::EnPassantSquare);
    assert!(BoardState::from_fen("4k3/8/8/8/4P3/8/8/4K3 b - e3 1 1").is_ok());
}

#[test]
fn counter_errors() {
    assert_eq!(error("4k3/8/8/8/8/8/8/4K3 w - - 2 1"), FenError::Halfmove);
    assert_eq!(error("4k3/8/8/8/8/8/8/4K3 w - - x 1"), FenError::Halfmove);
    assert_eq!(error("4k3/8/8/8/8/8/8/4K3 w - - 0 x"), FenError::Fullmove);
    assert_eq!(error("4k3/8/8/8/8/8/8/4K3 w - - 0 -1"), FenError::Fullmove);
    assert_eq!(error("4k3/8/8/8/8/8/8/4K3 w - - 0 4294967296"), FenError::Fullmove);
    assert_eq!(error("4k3/8/8/8/8/8/8/4K3 w - - 0 99999999999999999999999"), FenError::Fullmove);
}

#[test]
fn messages() {
    assert_eq!(FenError::FieldCount.message(), "Incorrect fen string!");
    assert_eq!(FenError::PieceLetter.message(), "Incorrect piece in fen string!");
    assert_eq!(FenError::ToMove.message(), "Incorrect to move color in fen string!");
}
