use chesslink::board::{Board, GameOutcome, Move, Piece, PieceColor, PieceKind, Square};
use chesslink::codec::{decode, encode, encode_quit, CodecError, DecodedMessage};

fn white(kind: PieceKind) -> Piece {
    Piece { kind, color: PieceColor::White }
}

fn black(kind: PieceKind) -> Piece {
    Piece { kind, color: PieceColor::Black }
}

/// The starting position after white plays e2-e4.
fn position_after_e2e4() -> Board {
    let mut b = Board::starting_position();
    b.set_piece(Square::new(4, 1), None);
    b.set_piece(Square::new(4, 3), Some(white(PieceKind::Pawn)));
    b
}

fn padded(prefix: &[u8]) -> Vec<u8> {
    let mut v = prefix.to_vec();
    while v.len() < 128 {
        v.push(b'0');
    }
    v
}

fn boards_equal(a: &Board, b: &Board) -> bool {
    for rank in 0..8u8 {
        for file in 0..8u8 {
            if a.piece_at(Square::new(file, rank)) != b.piece_at(Square::new(file, rank)) {
                return false;
            }
        }
    }
    true
}

#[test]
fn encode_is_always_128_bytes() {
    let m = Move::new(Square::new(4, 1), Square::new(4, 3), false);
    assert_eq!(encode(m, GameOutcome::InProgress, &Board::starting_position()).len(), 128);
    assert_eq!(encode(m, GameOutcome::WhiteWins, &position_after_e2e4()).len(), 128);
    assert_eq!(encode(m, GameOutcome::Draw, &Board::empty()).len(), 128);
    // a near-empty endgame board: two kings only
    let mut endgame = Board::empty();
    endgame.set_piece(Square::new(4, 0), Some(white(PieceKind::King)));
    endgame.set_piece(Square::new(4, 7), Some(black(PieceKind::King)));
    assert_eq!(encode(m, GameOutcome::BlackWins, &endgame).len(), 128);
    assert_eq!(encode_quit().len(), 128);
}

#[test]
fn opening_move_frame_is_exact() {
    // white moves e2-e4: file 4 rank 1 -> file 4 rank 3, no promotion
    let m = Move::new(Square::new(4, 1), Square::new(4, 3), false);
    let frame = encode(m, GameOutcome::InProgress, &position_after_e2e4());
    let expected = padded(b"ChessMOVE:E2E40:0-0:rnbqkbnr/pppppppp/8/8/4P3/8/PPPP1PPP/RNBQKBNR/:");
    assert_eq!(frame, expected);
    // the move descriptor and outcome descriptor stand at fixed offsets
    assert_eq!(&frame[10..15], b"E2E40");
    assert_eq!(&frame[16..19], b"0-0");
}

#[test]
fn round_trip_recovers_move_outcome_and_board() {
    let cases = [
        (Move::new(Square::new(4, 1), Square::new(4, 3), false), GameOutcome::InProgress),
        (Move::new(Square::new(0, 6), Square::new(0, 7), true), GameOutcome::WhiteWins),
        (Move::new(Square::new(7, 7), Square::new(0, 0), false), GameOutcome::BlackWins),
        (Move::new(Square::new(3, 3), Square::new(4, 4), false), GameOutcome::Draw),
    ];
    let mut endgame = Board::empty();
    endgame.set_piece(Square::new(4, 0), Some(white(PieceKind::King)));
    endgame.set_piece(Square::new(4, 7), Some(black(PieceKind::King)));
    endgame.set_piece(Square::new(0, 6), Some(white(PieceKind::Queen)));
    let boards = [Board::starting_position(), position_after_e2e4(), Board::empty(), endgame];
    for (m, o) in cases.iter() {
        for b in boards.iter() {
            let frame = encode(*m, *o, b);
            match decode(&frame) {
                Ok(DecodedMessage::Move { m: m2, outcome, board }) => {
                    assert_eq!(m2, *m);
                    assert_eq!(outcome, *o);
                    assert!(boards_equal(&board, b));
                },
                other => panic!("round trip failed: {:?}", other),
            }
        }
    }
}

#[test]
fn decode_rejects_short_input() {
    assert!(matches!(decode(&Vec::new()), Err(CodecError::Truncated)));
    assert!(matches!(decode(&vec![b'C'; 5]), Err(CodecError::Truncated)));
    assert!(matches!(decode(&vec![b'0'; 127]), Err(CodecError::Truncated)));
}

#[test]
fn decode_recognizes_quit() {
    match decode(&encode_quit()) {
        Ok(DecodedMessage::Quit) => {},
        other => panic!("expected quit, got {:?}", other),
    }
}

#[test]
fn decode_rejects_malformed_frames() {
    // wrong tag
    assert!(matches!(decode(&vec![b'0'; 128]), Err(CodecError::Malformed)));
    let m = Move::new(Square::new(4, 1), Square::new(4, 3), false);
    let good = encode(m, GameOutcome::InProgress, &Board::starting_position());
    // a file letter out of range
    let mut bad = good.clone();
    bad[10] = b'Z';
    assert!(matches!(decode(&bad), Err(CodecError::Malformed)));
    // an outcome descriptor that names no outcome
    let mut bad = good.clone();
    bad[16] = b'7';
    assert!(matches!(decode(&bad), Err(CodecError::Malformed)));
    // a board byte that is neither a piece letter nor an empty-run digit
    let mut bad = good.clone();
    bad[20] = b'9';
    assert!(matches!(decode(&bad), Err(CodecError::Malformed)));
}

#[test]
fn decode_ignores_trailing_padding() {
    // only the four delimiter-terminated fields carry meaning: a frame
    // whose padding bytes differ still decodes to the same content
    let m = Move::new(Square::new(4, 1), Square::new(4, 3), false);
    let good = encode(m, GameOutcome::InProgress, &Board::starting_position());
    let mut odd = good.clone();
    odd[127] = b'x';
    odd[100] = b'?';
    match decode(&odd) {
        Ok(DecodedMessage::Move { m: m2, outcome, board }) => {
            assert_eq!(m2, m);
            assert_eq!(outcome, GameOutcome::InProgress);
            assert!(boards_equal(&board, &Board::starting_position()));
        },
        other => panic!("expected move, got {:?}", other),
    }
}

#[test]
fn promotion_marker_round_trips() {
    let m = Move::new(Square::new(6, 6), Square::new(6, 7), true);
    let frame = encode(m, GameOutcome::InProgress, &Board::empty());
    assert_eq!(frame[14], b'q');
    match decode(&frame) {
        Ok(DecodedMessage::Move { m: m2, .. }) => assert!(m2.promotion),
        other => panic!("expected move, got {:?}", other),
    }
    let m0 = Move::new(Square::new(6, 6), Square::new(6, 7), false);
    let frame0 = encode(m0, GameOutcome::InProgress, &Board::empty());
    assert_eq!(frame0[14], b'0');
}

#[test]
fn outcome_descriptors_are_exact() {
    let m = Move::new(Square::new(4, 1), Square::new(4, 3), false);
    let b = Board::empty();
    assert_eq!(&encode(m, GameOutcome::InProgress, &b)[16..19], b"0-0");
    assert_eq!(&encode(m, GameOutcome::WhiteWins, &b)[16..19], b"1-0");
    assert_eq!(&encode(m, GameOutcome::BlackWins, &b)[16..19], b"0-1");
    assert_eq!(&encode(m, GameOutcome::Draw, &b)[16..19], b"1-1");
}
