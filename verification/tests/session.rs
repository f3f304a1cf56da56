use chesslink::board::{Board, Piece, PieceColor, PieceKind, Square};
use chesslink::session::{
    MoveOutcome, MoveVerdict, RemoteOutcome, Session, SessionEvent, TerminationReason,
};

/// The starting position after the pawn move e2-e4.
fn board_after_e2e4() -> Board {
    let mut b = Board::starting_position();
    b.set_piece(Square::new(4, 1), None);
    b.set_piece(
        Square::new(4, 3),
        Some(Piece { kind: PieceKind::Pawn, color: PieceColor::White }),
    );
    b
}

fn quit_frame_expected() -> Vec<u8> {
    let mut v = b"ChessQUIT::".to_vec();
    while v.len() < 128 {
        v.push(b'0');
    }
    v
}

#[test]
fn submit_is_rejected_while_awaiting_remote() {
    // black side, white to move first: the local side must wait
    let mut s = Session::new(false, false);
    assert!(!s.may_submit());
    let r = s.submit_local_move(
        Square::new(4, 1),
        Square::new(4, 3),
        MoveVerdict::Normal,
        &board_after_e2e4(),
        false,
        false,
    );
    assert_eq!(r, MoveOutcome::OutOfTurn);
    // no state change: still active, still not the local side's turn
    assert!(s.is_active());
    assert!(!s.may_submit());
}

#[test]
fn submit_illegal_changes_nothing() {
    let mut s = Session::new(true, true);
    let r = s.submit_local_move(
        Square::new(0, 0),
        Square::new(7, 7),
        MoveVerdict::Illegal,
        &Board::starting_position(),
        false,
        false,
    );
    assert_eq!(r, MoveOutcome::Illegal);
    assert!(s.is_active());
    assert!(s.may_submit());
}

#[test]
fn submit_sends_frame_and_flips_turn() {
    let mut s = Session::new(true, true);
    let r = s.submit_local_move(
        Square::new(4, 1),
        Square::new(4, 3),
        MoveVerdict::Normal,
        &board_after_e2e4(),
        false,
        false,
    );
    match r {
        MoveOutcome::Sent(frame) => {
            assert_eq!(frame.len(), 128);
            assert_eq!(&frame[0..10], b"ChessMOVE:");
            assert_eq!(&frame[10..15], b"E2E40");
            assert_eq!(&frame[16..19], b"0-0");
        },
        other => panic!("expected Sent, got {:?}", other),
    }
    assert!(s.is_active());
    assert!(!s.may_submit());
}

#[test]
fn reconciliation_accepts_an_honest_peer() {
    // two sessions on the same board; engines agree on everything
    let mut sender = Session::new(true, true);
    let mut receiver = Session::new(false, false);
    let board_after = board_after_e2e4();
    let r = sender.submit_local_move(
        Square::new(4, 1),
        Square::new(4, 3),
        MoveVerdict::Normal,
        &board_after,
        false,
        false,
    );
    let frame = match r {
        MoveOutcome::Sent(f) => f,
        other => panic!("expected Sent, got {:?}", other),
    };
    match receiver.handle_incoming(&frame) {
        SessionEvent::ApplyRemote(m) => {
            assert_eq!(m.from, Square::new(4, 1));
            assert_eq!(m.to, Square::new(4, 3));
            assert!(!m.promotion);
        },
        other => panic!("expected ApplyRemote, got {:?}", other),
    }
    let rec = receiver.finish_remote(MoveVerdict::Normal, &board_after, false, false);
    assert_eq!(rec, RemoteOutcome::MoveApplied);
    assert!(receiver.is_active());
    assert!(receiver.may_submit());
}

#[test]
fn divergent_outcome_claim_aborts() {
    // the peer claims a white win while the honest outcome is in-progress
    let mut sender = Session::new(true, true);
    let mut receiver = Session::new(false, false);
    let board_after = board_after_e2e4();
    let r = sender.submit_local_move(
        Square::new(4, 1),
        Square::new(4, 3),
        MoveVerdict::Normal,
        &board_after,
        false,
        false,
    );
    let mut frame = match r {
        MoveOutcome::Sent(f) => f,
        other => panic!("expected Sent, got {:?}", other),
    };
    assert_eq!(&frame[16..19], b"0-0");
    frame[16] = b'1';  // now claims "1-0"
    match receiver.handle_incoming(&frame) {
        SessionEvent::ApplyRemote(_) => {},
        other => panic!("expected ApplyRemote, got {:?}", other),
    }
    match receiver.finish_remote(MoveVerdict::Normal, &board_after, false, false) {
        RemoteOutcome::Violation(q) => assert_eq!(q, quit_frame_expected()),
        other => panic!("expected Violation, got {:?}", other),
    }
    assert!(!receiver.is_active());
}

#[test]
fn divergent_board_claim_aborts() {
    let mut sender = Session::new(true, true);
    let mut receiver = Session::new(false, false);
    let board_after = board_after_e2e4();
    let r = sender.submit_local_move(
        Square::new(4, 1),
        Square::new(4, 3),
        MoveVerdict::Normal,
        &board_after,
        false,
        false,
    );
    let mut frame = match r {
        MoveOutcome::Sent(f) => f,
        other => panic!("expected Sent, got {:?}", other),
    };
    // tamper with the board descriptor: the black queen becomes a rook
    let pos = frame.iter().position(|&c| c == b'q').expect("queen letter");
    frame[pos] = b'r';
    match receiver.handle_incoming(&frame) {
        SessionEvent::ApplyRemote(_) => {},
        other => panic!("expected ApplyRemote, got {:?}", other),
    }
    match receiver.finish_remote(MoveVerdict::Normal, &board_after, false, false) {
        RemoteOutcome::Violation(_) => {},
        other => panic!("expected Violation, got {:?}", other),
    }
    assert!(!receiver.is_active());
}

#[test]
fn padding_mismatch_does_not_abort() {
    // the comparison stops at the fourth delimiter: a frame that agrees
    // with the honest core but differs in its padding reconciles fine
    let mut sender = Session::new(true, true);
    let mut receiver = Session::new(false, false);
    let board_after = board_after_e2e4();
    let r = sender.submit_local_move(
        Square::new(4, 1),
        Square::new(4, 3),
        MoveVerdict::Normal,
        &board_after,
        false,
        false,
    );
    let mut frame = match r {
        MoveOutcome::Sent(f) => f,
        other => panic!("expected Sent, got {:?}", other),
    };
    frame[127] = b'x';
    match receiver.handle_incoming(&frame) {
        SessionEvent::ApplyRemote(_) => {},
        other => panic!("expected ApplyRemote, got {:?}", other),
    }
    let rec = receiver.finish_remote(MoveVerdict::Normal, &board_after, false, false);
    assert_eq!(rec, RemoteOutcome::MoveApplied);
    assert!(receiver.is_active());
    assert!(receiver.may_submit());
}

#[test]
fn illegal_remote_claim_aborts_with_quit() {
    // the peer claims a move the local rules engine rejects:
    // file 0 rank 1 -> file 0 rank 4 has no legal pawn move
    let mut receiver = Session::new(false, false);
    let claimed = chesslink::codec::encode(
        chesslink::board::Move::new(Square::new(0, 1), Square::new(0, 4), false),
        chesslink::board::GameOutcome::InProgress,
        &Board::starting_position(),
    );
    match receiver.handle_incoming(&claimed) {
        SessionEvent::ApplyRemote(m) => {
            assert_eq!(m.from, Square::new(0, 1));
            assert_eq!(m.to, Square::new(0, 4));
        },
        other => panic!("expected ApplyRemote, got {:?}", other),
    }
    match receiver.finish_remote(MoveVerdict::Illegal, &Board::starting_position(), false, false) {
        RemoteOutcome::Violation(q) => assert_eq!(q, quit_frame_expected()),
        other => panic!("expected Violation, got {:?}", other),
    }
    assert!(!receiver.is_active());
}

#[test]
fn quit_terminates_in_any_turn_state() {
    let quit = chesslink::codec::encode_quit();
    // while awaiting the remote move
    let mut s = Session::new(false, false);
    assert_eq!(s.handle_incoming(&quit), SessionEvent::RemoteQuit);
    assert!(!s.is_active());
    // while the local side is to move
    let mut s2 = Session::new(true, true);
    assert_eq!(s2.handle_incoming(&quit), SessionEvent::RemoteQuit);
    assert!(!s2.is_active());
    // nothing further is accepted
    let r = s2.submit_local_move(
        Square::new(4, 1),
        Square::new(4, 3),
        MoveVerdict::Normal,
        &board_after_e2e4(),
        false,
        false,
    );
    assert_eq!(r, MoveOutcome::Closed);
}

#[test]
fn message_while_local_to_move_is_a_violation() {
    // the peer moved without waiting for its turn
    let mut s = Session::new(true, true);
    let frame = chesslink::codec::encode(
        chesslink::board::Move::new(Square::new(4, 6), Square::new(4, 4), false),
        chesslink::board::GameOutcome::InProgress,
        &Board::starting_position(),
    );
    match s.handle_incoming(&frame) {
        SessionEvent::Violation(q) => assert_eq!(q, quit_frame_expected()),
        other => panic!("expected Violation, got {:?}", other),
    }
    assert!(!s.is_active());
}

#[test]
fn undecodable_frame_is_a_violation() {
    let mut s = Session::new(false, false);
    match s.handle_incoming(&vec![b'?'; 128]) {
        SessionEvent::Violation(q) => assert_eq!(q.len(), 128),
        other => panic!("expected Violation, got {:?}", other),
    }
    assert!(!s.is_active());
    // a short read is just as fatal once handed to the session
    let mut s2 = Session::new(false, false);
    match s2.handle_incoming(&vec![b'C'; 17]) {
        SessionEvent::Violation(_) => {},
        other => panic!("expected Violation, got {:?}", other),
    }
    assert!(!s2.is_active());
}

#[test]
fn abort_emits_quit_and_closes() {
    let mut s = Session::new(true, true);
    let q = s.abort(TerminationReason::TransportFailure);
    assert_eq!(q, quit_frame_expected());
    assert!(!s.is_active());
    let r = s.submit_local_move(
        Square::new(4, 1),
        Square::new(4, 3),
        MoveVerdict::Normal,
        &board_after_e2e4(),
        false,
        false,
    );
    assert_eq!(r, MoveOutcome::Closed);
}

#[test]
fn checkmate_and_stalemate_set_the_outcome_field() {
    // a checkmating move by the white local side reports a white win
    let mut s = Session::new(true, true);
    let r = s.submit_local_move(
        Square::new(4, 1),
        Square::new(4, 3),
        MoveVerdict::Normal,
        &board_after_e2e4(),
        true,
        false,
    );
    match r {
        MoveOutcome::Sent(frame) => assert_eq!(&frame[16..19], b"1-0"),
        other => panic!("expected Sent, got {:?}", other),
    }
    // a checkmating move by the black local side reports a black win
    let mut s2 = Session::new(false, true);
    let r2 = s2.submit_local_move(
        Square::new(4, 6),
        Square::new(4, 4),
        MoveVerdict::Normal,
        &Board::starting_position(),
        true,
        false,
    );
    match r2 {
        MoveOutcome::Sent(frame) => assert_eq!(&frame[16..19], b"0-1"),
        other => panic!("expected Sent, got {:?}", other),
    }
    // a stalemating move is a draw
    let mut s3 = Session::new(true, true);
    let r3 = s3.submit_local_move(
        Square::new(4, 1),
        Square::new(4, 3),
        MoveVerdict::Normal,
        &board_after_e2e4(),
        false,
        true,
    );
    match r3 {
        MoveOutcome::Sent(frame) => assert_eq!(&frame[16..19], b"1-1"),
        other => panic!("expected Sent, got {:?}", other),
    }
}

#[test]
fn local_quit_closes_the_session() {
    let mut s = Session::new(true, true);
    let q = s.abort(TerminationReason::LocalQuit);
    assert_eq!(q.len(), 128);
    assert_eq!(&q[0..11], b"ChessQUIT::");
    assert!(!s.is_active());
}
