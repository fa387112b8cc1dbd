use chess_core::board::BoardState;
use chess_core::board::NULL_MOVE;
use chess_core::constants::DEFAULT_FEN_STRING;
use chess_core::utils::number_to_color;
use chess_core::utils::number_to_piece;
use chess_core::utils::opposite_color;
use chess_core::utils::ChessError;
use chess_core::utils::Color;
use chess_core::utils::Piece;

const KINDS: [Piece; 7] = [
    Piece::Pawn,
    Piece::Knight,
    Piece::Bishop,
    Piece::Rook,
    Piece::Queen,
    Piece::King,
    Piece::Empty,
];

#[test]
fn knight_move_encoding() {
    let board = BoardState::from_fen(DEFAULT_FEN_STRING).expect("Fail during board setup");
    let packed = board.encode_move(62, 52, Piece::Knight, Color::White, Piece::Empty, false);
    assert_eq!(packed, Ok(400702));
    assert_eq!(
        board.decode_move(400702),
        Ok((62, 52, Piece::Knight, Color::White, Piece::Empty, false))
    );
}

#[test]
fn every_field_has_its_bits() {
    let board = BoardState::from_fen(DEFAULT_FEN_STRING).expect("Fail during board setup");
    assert_eq!(board.encode_move(63, 0, Piece::Pawn, Color::White, Piece::Pawn, false), Ok(63));
    assert_eq!(board.encode_move(0, 63, Piece::Pawn, Color::White, Piece::Pawn, false), Ok(63 << 6));
    assert_eq!(board.encode_move(0, 0, Piece::King, Color::White, Piece::Pawn, false), Ok(5 << 12));
    assert_eq!(board.encode_move(0, 0, Piece::Pawn, Color::Black, Piece::Pawn, false), Ok(1 << 15));
    assert_eq!(board.encode_move(0, 0, Piece::Pawn, Color::White, Piece::Empty, false), Ok(6 << 16));
    assert_eq!(board.encode_move(0, 0, Piece::Pawn, Color::White, Piece::Pawn, true), Ok(1 << 19));
    assert_eq!(board.encode_move(0, 0, Piece::Pawn, Color::White, Piece::Pawn, false), Ok(NULL_MOVE));
    assert_eq!(
        board.encode_move(63, 63, Piece::Empty, Color::Black, Piece::Empty, true),
        Ok(0xf_ffff - (1 << 12) - (1 << 16))
    );
}

#[test]
fn encode_then_decode_gives_the_fields_back() {
    let board = BoardState::from_fen(DEFAULT_FEN_STRING).expect("Fail during board setup");
    for from in 0..64u8 {
        for to in [0u8, 1, 7, 8, 31, 32, 62, 63] {
            for piece in KINDS {
                for captured in KINDS {
                    for color in [Color::White, Color::Black] {
                        for promotion in [false, true] {
                            let packed = board
                                .encode_move(from, to, piece, color, captured, promotion)
                                .expect("squares on the board");
                            assert!(packed < 1 << 20);
                            assert_eq!(
                                board.decode_move(packed),
                                Ok((from, to, piece, color, captured, promotion))
                            );
                        }
                    }
                }
            }
        }
    }
}

#[test]
fn squares_beyond_the_board_are_refused() {
    let board = BoardState::from_fen(DEFAULT_FEN_STRING).expect("Fail during board setup");
    assert_eq!(
        board.encode_move(64, 0, Piece::Pawn, Color::White, Piece::Empty, false),
        Err(ChessError::InvalidMoveEncoding)
    );
    assert_eq!(
        board.encode_move(0, 64, Piece::Pawn, Color::White, Piece::Empty, false),
        Err(ChessError::InvalidMoveEncoding)
    );
    assert_eq!(
        board.encode_move(255, 255, Piece::Pawn, Color::White, Piece::Empty, false),
        Err(ChessError::InvalidMoveEncoding)
    );
}

#[test]
fn tags_that_name_no_kind_are_refused() {
    let board = BoardState::from_fen(DEFAULT_FEN_STRING).expect("Fail during board setup");
    assert_eq!(board.decode_move(7 << 12), Err(ChessError::InvalidMoveEncoding));
    assert_eq!(board.decode_move(7 << 16), Err(ChessError::InvalidMoveEncoding));
    assert_eq!(
        board.decode_move(6 << 12),
        Ok((0, 0, Piece::Empty, Color::White, Piece::Pawn, false))
    );
    // the bits above bit 19 carry nothing
    assert_eq!(
        board.decode_move(400702 | 0xfff0_0000),
        Ok((62, 52, Piece::Knight, Color::White, Piece::Empty, false))
    );
}

#[test]
fn tags_of_kinds_and_sides() {
    assert_eq!(number_to_piece(0), Ok(Piece::Pawn));
    assert_eq!(number_to_piece(1), Ok(Piece::Knight));
    assert_eq!(number_to_piece(2), Ok(Piece::Bishop));
    assert_eq!(number_to_piece(3), Ok(Piece::Rook));
    assert_eq!(number_to_piece(4), Ok(Piece::Queen));
    assert_eq!(number_to_piece(5), Ok(Piece::King));
    assert_eq!(number_to_piece(6), Ok(Piece::Empty));
    assert_eq!(number_to_piece(7), Err(ChessError::UnreachablePieceTag));
    assert_eq!(number_to_piece(u32::MAX), Err(ChessError::UnreachablePieceTag));
    assert_eq!(number_to_color(0), Ok(Color::White));
    assert_eq!(number_to_color(1), Ok(Color::Black));
    assert_eq!(number_to_color(2), Err(ChessError::InvalidMoveEncoding));
    assert_eq!(opposite_color(Color::White), Color::Black);
    assert_eq!(opposite_color(Color::Black), Color::White);
    for (tag, piece) in KINDS.iter().enumerate() {
        assert_eq!(piece.index(), tag);
    }
    assert_eq!(Color::White.index(), 0);
    assert_eq!(Color::Black.index(), 1);
}
