//! The turn-ownership state machine, the reconciliation engine, and
//! the session that drives both.
//!
//! The session owns no rules engine and no transport: the front end
//! applies moves to the external engine and carries bytes over the
//! link, and hands the session plain values — the engine's verdict on
//! a move, the board after it, the checkmate/stalemate answers, and
//! received frames. The session decides everything else: whether a
//! local move may be submitted, what frame to send, whether a remote
//! claim reconciles with the locally recomputed state, and when the
//! session terminates.

use vstd::prelude::*;
use crate::board::{Board, GameOutcome, Move, Piece, Square};
use crate::codec::{
    check_fields, encode, encode_quit, decode, fields_match, frame_core, spec_encode,
    spec_parse_frame, spec_quit_frame, tag_quit, DecodedMessage,
};

verus! {

/// Whose turn it is, as the session sees it.
#[derive(Clone, Copy, Debug, PartialEq, Eq)]
pub enum TurnState {
    /// The local side may submit a move.
    LocalToMove,
    /// A remote move is awaited; local submissions are rejected.
    AwaitingRemote,
}

/// The external rules engine's verdict on applying a move.
#[derive(Clone, Copy, Debug, PartialEq, Eq)]
pub enum MoveVerdict {
    /// The move is legal and was applied.
    Normal,
    /// The move is legal, was applied, and promotes a pawn (resolved
    /// to a queen, the only promotion the protocol can carry).
    Promotion,
    /// The engine rejects the move.
    Illegal,
}

/// Why a session ended.
#[derive(Clone, Copy, Debug, PartialEq, Eq)]
pub enum TerminationReason {
    /// The peer sent a quit frame; a normal end, not an error.
    RemoteQuit,
    /// The peer's claim could not be reconciled, or it moved out of
    /// turn, or sent an undecodable frame.
    ProtocolViolation,
    /// The byte-stream link failed; reported by the front end.
    TransportFailure,
    /// The local side chose to quit.
    LocalQuit,
}

/// Whether the session still accepts moves and messages.
#[derive(Clone, Copy, Debug, PartialEq, Eq)]
pub enum SessionStatus {
    Active,
    Terminated(TerminationReason),
}

/// What `submit_local_move` did.
#[derive(Debug, PartialEq, Eq)]
pub enum MoveOutcome {
    /// The move was accepted; send this frame to the peer.
    Sent(Vec<u8>),
    /// The engine rejected the move; nothing changed, nothing to send.
    Illegal,
    /// It is not the local side's turn; nothing changed, nothing to send.
    OutOfTurn,
    /// The session has already terminated.
    Closed,
}

/// What a received frame led to.
#[derive(Debug, PartialEq, Eq)]
pub enum SessionEvent {
    /// A remote move claim: apply it to the rules engine, then call
    /// `finish_remote` with the engine's answers.
    ApplyRemote(Move),
    /// The peer quit; the session is terminated.
    RemoteQuit,
    /// Protocol violation; send this quit frame best-effort, the
    /// session is terminated.
    Violation(Vec<u8>),
}

/// What reconciliation concluded.
#[derive(Debug, PartialEq, Eq)]
pub enum RemoteOutcome {
    /// The remote claim reconciled; the local side is to move.
    MoveApplied,
    /// The claim was illegal or diverged from the recomputed state;
    /// send this quit frame best-effort, the session is terminated.
    Violation(Vec<u8>),
}

/// The outcome to report once the side `mover_is_white` has moved:
/// checkmate means the mover has won, stalemate is a draw, anything
/// else leaves the game in progress.
pub open spec fn spec_outcome_after(checkmate: bool, stalemate: bool, mover_is_white: bool) -> GameOutcome {
    if checkmate {
        if mover_is_white {
            GameOutcome::WhiteWins
        } else {
            GameOutcome::BlackWins
        }
    } else if stalemate {
        GameOutcome::Draw
    } else {
        GameOutcome::InProgress
    }
}

/// Executable counterpart of `spec_outcome_after`.
pub fn outcome_after(checkmate: bool, stalemate: bool, mover_is_white: bool) -> (o: GameOutcome)
    ensures
        o == spec_outcome_after(checkmate, stalemate, mover_is_white),
{
    if checkmate {
        if mover_is_white {
            GameOutcome::WhiteWins
        } else {
            GameOutcome::BlackWins
        }
    } else if stalemate {
        GameOutcome::Draw
    } else {
        GameOutcome::InProgress
    }
}

/// One peer's side of a running game.
pub struct Session {
    turn: TurnState,
    local_is_white: bool,
    status: SessionStatus,
    pending: bool,
    pending_bytes: Vec<u8>,
    pending_mv: Move,
}

impl Session {
    /// Whose turn the session believes it is.
    pub closed spec fn turn(self) -> TurnState {
        self.turn
    }

    /// The color assigned to the local side for the connection's life.
    pub closed spec fn local_is_white(self) -> bool {
        self.local_is_white
    }

    /// Whether the session is still running.
    pub closed spec fn status(self) -> SessionStatus {
        self.status
    }

    /// A remote claim is being replayed by the engine: `handle_incoming`
    /// returned it and `finish_remote` has not yet judged it.
    pub closed spec fn has_pending(self) -> bool {
        self.pending
    }

    /// The received frame held for reconciliation.
    pub closed spec fn pending_frame(self) -> Seq<u8> {
        self.pending_bytes@
    }

    /// The decoded move of the frame held for reconciliation.
    pub closed spec fn pending_move(self) -> Move {
        self.pending_mv
    }

    /// A pending claim only exists while the session is active and a
    /// remote move was awaited, and its move is on the board.
    pub open spec fn wf(self) -> bool {
        self.has_pending() ==> {
            &&& self.turn() is AwaitingRemote
            &&& self.status() is Active
            &&& self.pending_move().wf()
        }
    }

    /// A new session: the color and the first turn owner come from the
    /// out-of-band role negotiation (one side dials, the other listens).
    pub fn new(local_is_white: bool, local_to_move: bool) -> (s: Session)
        ensures
            s.wf(),
            s.status() is Active,
            s.local_is_white() == local_is_white,
            s.turn() == (if local_to_move {
                TurnState::LocalToMove
            } else {
                TurnState::AwaitingRemote
            }),
            !s.has_pending(),
    {
        Session {
            turn: if local_to_move {
                TurnState::LocalToMove
            } else {
                TurnState::AwaitingRemote
            },
            local_is_white,
            status: SessionStatus::Active,
            pending: false,
            pending_bytes: Vec::new(),
            pending_mv: Move {
                from: Square { file: 0, rank: 0 },
                to: Square { file: 0, rank: 0 },
                promotion: false,
            },
        }
    }

    /// Whether the local side may submit a move now.
    pub fn may_submit(&self) -> (r: bool)
        ensures
            r == (self.turn() is LocalToMove && self.status() is Active),
    {
        match (&self.turn, &self.status) {
            (TurnState::LocalToMove, SessionStatus::Active) => true,
            _ => false,
        }
    }

    /// Whether the session is still running.
    pub fn is_active(&self) -> (r: bool)
        ensures
            r == (self.status() is Active),
    {
        match &self.status {
            SessionStatus::Active => true,
            _ => false,
        }
    }

    /// Submit a locally proposed move that the external rules engine
    /// has already judged: `verdict` is the engine's answer,
    /// `board_after` the board once applied (a promotion resolved to a
    /// queen), and `checkmate`/`stalemate` the engine's answers on that
    /// board for the side now to move.
    ///
    /// Out of turn or after termination nothing changes and nothing is
    /// sent; an illegal move changes nothing; otherwise the encoded
    /// frame to send is returned and the session awaits the remote
    /// reply.
    pub fn submit_local_move(
        &mut self,
        from: Square,
        to: Square,
        verdict: MoveVerdict,
        board_after: &Board,
        checkmate: bool,
        stalemate: bool,
    ) -> (r: MoveOutcome)
        requires
            old(self).wf(),
            from.on_board(),
            to.on_board(),
            board_after.wf(),
        ensures
            final(self).wf(),
            !(old(self).status() is Active) ==> r is Closed && *final(self) == *old(self),
            old(self).status() is Active && old(self).turn() is AwaitingRemote ==> r is OutOfTurn
                && *final(self) == *old(self),
            old(self).status() is Active && old(self).turn() is LocalToMove && verdict is Illegal
                ==> r is Illegal && *final(self) == *old(self),
            old(self).status() is Active && old(self).turn() is LocalToMove && !(verdict is Illegal)
                ==> (r matches MoveOutcome::Sent(f) && f@ == spec_encode(
                Move { from, to, promotion: verdict is Promotion },
                spec_outcome_after(checkmate, stalemate, old(self).local_is_white()),
                board_after@,
            ) && f@.len() == 128 && final(self).turn() is AwaitingRemote && final(self).status() is Active && !final(self).has_pending() && final(self).local_is_white()
                == old(self).local_is_white()),
    {
        match &self.status {
            SessionStatus::Terminated(_) => {
                return MoveOutcome::Closed;
            },
            SessionStatus::Active => {},
        }
        match &self.turn {
            TurnState::AwaitingRemote => {
                return MoveOutcome::OutOfTurn;
            },
            TurnState::LocalToMove => {},
        }
        let promotion = match verdict {
            MoveVerdict::Illegal => {
                return MoveOutcome::Illegal;
            },
            MoveVerdict::Promotion => true,
            MoveVerdict::Normal => false,
        };
        let m = Move { from, to, promotion };
        let o = outcome_after(checkmate, stalemate, self.local_is_white);
        let frame = encode(m, o, board_after);
        self.turn = TurnState::AwaitingRemote;
        MoveOutcome::Sent(frame)
    }

    /// Feed one received frame to the session.
    ///
    /// A quit frame terminates the session at once, in any turn state,
    /// with nothing sent and no board touched. A frame that does not
    /// decode, or a move claim while it was the local side's turn, is a
    /// protocol violation: the session terminates and hands back a quit
    /// frame to send best-effort. A move claim while a remote move was
    /// awaited is held for reconciliation: apply the returned move to
    /// the rules engine and call `finish_remote`.
    pub fn handle_incoming(&mut self, frame: &Vec<u8>) -> (ev: SessionEvent)
        requires
            old(self).wf(),
            old(self).status() is Active,
            !old(self).has_pending(),
        ensures
            final(self).wf(),
            final(self).local_is_white() == old(self).local_is_white(),
            frame@.len() >= 128 && frame@.take(128).subrange(0, 9) == tag_quit() ==> (
            ev is RemoteQuit && final(self).status() == SessionStatus::Terminated(
                TerminationReason::RemoteQuit,
            ) && final(self).turn() == old(self).turn() && !final(self).has_pending()),
            (frame@.len() < 128 || (frame@.take(128).subrange(0, 9) != tag_quit()
                && spec_parse_frame(frame@.take(128)) is None)) ==> (
            ev matches SessionEvent::Violation(q) && q@ == spec_quit_frame() && final(self).status() == SessionStatus::Terminated(TerminationReason::ProtocolViolation)
                && !final(self).has_pending()),
            frame@.len() >= 128 ==> (match spec_parse_frame(frame@.take(128)) {
                Some(t) => {
                    &&& old(self).turn() is LocalToMove ==> (
                    ev matches SessionEvent::Violation(q) && q@ == spec_quit_frame() && final(self).status() == SessionStatus::Terminated(
                        TerminationReason::ProtocolViolation,
                    ) && !final(self).has_pending())
                    &&& old(self).turn() is AwaitingRemote ==> (
                    ev == SessionEvent::ApplyRemote(t.0) && final(self).has_pending() && final(self).pending_frame() == frame@ && final(self).pending_move() == t.0 && final(self).status() is Active && final(self).turn() is AwaitingRemote)
                },
                None => true,
            }),
    {
        match decode(frame) {
            Err(_) => {
                self.status = SessionStatus::Terminated(TerminationReason::ProtocolViolation);
                SessionEvent::Violation(encode_quit())
            },
            Ok(DecodedMessage::Quit) => {
                self.status = SessionStatus::Terminated(TerminationReason::RemoteQuit);
                SessionEvent::RemoteQuit
            },
            Ok(DecodedMessage::Move { m, outcome: _, board: _ }) => {
                match &self.turn {
                    TurnState::LocalToMove => {
                        // the peer moved without waiting for its turn
                        self.status = SessionStatus::Terminated(
                            TerminationReason::ProtocolViolation,
                        );
                        SessionEvent::Violation(encode_quit())
                    },
                    TurnState::AwaitingRemote => {
                        proof {
                            let f = frame@.take(128);
                            assert(spec_parse_frame(f) is Some);
                            assert(m.wf());
                        }
                        let mut copy: Vec<u8> = Vec::new();
                        let mut i: usize = 0;
                        let n = frame.len();
                        while i < n
                            invariant
                                i <= n,
                                n == frame@.len(),
                                copy@ == frame@.take(i as int),
                            decreases n - i,
                        {
                            copy.push(frame[i]);
                            proof {
                                assert(copy@ =~= frame@.take(i as int + 1));
                            }
                            i = i + 1;
                        }
                        proof {
                            assert(copy@ =~= frame@);
                        }
                        self.pending = true;
                        self.pending_bytes = copy;
                        self.pending_mv = m;
                        SessionEvent::ApplyRemote(m)
                    },
                }
            },
        }
    }

    /// Judge a held remote claim, given the engine's answers for the
    /// claimed move: the verdict, the board once applied (a promotion
    /// resolved to a queen), and the checkmate/stalemate answers.
    ///
    /// An illegal claim is a protocol violation. Otherwise the frame
    /// that honestly describes the replayed move is recomputed locally
    /// and its four checked fields are compared byte-for-byte against
    /// the received frame: agreement hands the turn to the local side;
    /// any divergence terminates the session with a quit frame to send.
    pub fn finish_remote(
        &mut self,
        verdict: MoveVerdict,
        board_after: &Board,
        checkmate: bool,
        stalemate: bool,
    ) -> (r: RemoteOutcome)
        requires
            old(self).wf(),
            old(self).has_pending(),
            board_after.wf(),
        ensures
            final(self).wf(),
            final(self).local_is_white() == old(self).local_is_white(),
            !final(self).has_pending(),
            verdict is Illegal ==> (r matches RemoteOutcome::Violation(q) && q@
                == spec_quit_frame() && final(self).status() == SessionStatus::Terminated(
                TerminationReason::ProtocolViolation,
            )),
            !(verdict is Illegal) ==> ({
                let expected = frame_core(
                    Move {
                        from: old(self).pending_move().from,
                        to: old(self).pending_move().to,
                        promotion: verdict is Promotion,
                    },
                    spec_outcome_after(checkmate, stalemate, !old(self).local_is_white()),
                    board_after@,
                );
                &&& fields_match(expected, old(self).pending_frame()) ==> (
                r is MoveApplied && final(self).status() is Active && final(self).turn() is LocalToMove)
                &&& !fields_match(expected, old(self).pending_frame()) ==> (
                r matches RemoteOutcome::Violation(q) && q@ == spec_quit_frame() && final(self).status() == SessionStatus::Terminated(TerminationReason::ProtocolViolation))
            }),
    {
        let promotion = match verdict {
            MoveVerdict::Illegal => {
                self.pending = false;
                self.pending_bytes = Vec::new();
                self.status = SessionStatus::Terminated(TerminationReason::ProtocolViolation);
                return RemoteOutcome::Violation(encode_quit());
            },
            MoveVerdict::Promotion => true,
            MoveVerdict::Normal => false,
        };
        let m = Move {
            from: self.pending_mv.from,
            to: self.pending_mv.to,
            promotion,
        };
        let mover_is_white = !self.local_is_white;
        let o = outcome_after(checkmate, stalemate, mover_is_white);
        let core = crate::codec::encode_core(m, o, board_after);
        let matched = check_fields(&core, &self.pending_bytes);
        self.pending = false;
        self.pending_bytes = Vec::new();
        if matched {
            self.turn = TurnState::LocalToMove;
            RemoteOutcome::MoveApplied
        } else {
            self.status = SessionStatus::Terminated(TerminationReason::ProtocolViolation);
            RemoteOutcome::Violation(encode_quit())
        }
    }

    /// Locally abort the session (an illegal peer claim already turns
    /// into an abort by itself; the front end calls this on transport
    /// failure or a local quit). Returns the quit frame to send
    /// best-effort; the session accepts nothing further.
    pub fn abort(&mut self, reason: TerminationReason) -> (q: Vec<u8>)
        requires
            old(self).wf(),
        ensures
            final(self).wf(),
            q@ == spec_quit_frame(),
            q@.len() == 128,
            final(self).status() == SessionStatus::Terminated(reason),
            !final(self).has_pending(),
            final(self).turn() == old(self).turn(),
            final(self).local_is_white() == old(self).local_is_white(),
    {
        self.pending = false;
        self.pending_bytes = Vec::new();
        self.status = SessionStatus::Terminated(reason);
        encode_quit()
    }
}

/// Reconciliation symmetry: two sessions that start a turn from the
/// same board, whose rules engines agree on the move's verdict, the
/// resulting board and the checkmate/stalemate answers, always
/// reconcile. The frame the sender's `submit_local_move` produces
/// decodes on the receiver's side to exactly the sent move, and the
/// core the receiver recomputes in `finish_remote` matches that frame
/// byte-for-byte, so the receiver reports `MoveApplied` and no abort.
pub proof fn lemma_reconciliation_symmetry(
    from: Square,
    to: Square,
    promotion: bool,
    checkmate: bool,
    stalemate: bool,
    board_after: Seq<Option<Piece>>,
    sender_is_white: bool,
)
    requires
        from.on_board(),
        to.on_board(),
        board_after.len() == 64,
    ensures
        ({
            let m = Move { from, to, promotion };
            let o = spec_outcome_after(checkmate, stalemate, sender_is_white);
            let f = spec_encode(m, o, board_after);
            // the sent frame is a move frame, never mistaken for a quit
            &&& f.len() == 128
            &&& f.subrange(0, 9) != tag_quit()
            // the receiver decodes exactly the sent move, outcome, board
            &&& spec_parse_frame(f) == Some((m, o, board_after))
            // the receiver recomputes the mover's outcome: the mover is
            // the side opposite its own color, i.e. the sender
            &&& spec_outcome_after(checkmate, stalemate, !!sender_is_white) == o
            // the recomputed checked fields agree with the frame
            &&& fields_match(frame_core(m, o, board_after), f)
        }),
{
    let m = Move { from, to, promotion };
    let o = spec_outcome_after(checkmate, stalemate, sender_is_white);
    let f = spec_encode(m, o, board_after);
    crate::codec::lemma_round_trip(m, o, board_after);
    crate::codec::lemma_frame_core_len(m, o, board_after);
    let core = frame_core(m, o, board_after);
    assert(f.subrange(0, core.len() as int) =~= core);
}

} // verus!
