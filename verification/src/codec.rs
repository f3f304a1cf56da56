//! The wire-frame codec.
//!
//! A frame is exactly 128 ASCII bytes: a tag (`ChessMOVE` or
//! `ChessQUIT`), a 5-byte move descriptor, a 3-byte outcome descriptor,
//! and a run-length-encoded board descriptor (rank 7 down to rank 0,
//! rows separated by `/`), the four fields each followed by a `:`
//! delimiter and the remainder padded with `0` bytes.

use vstd::prelude::*;
use crate::board::{Board, GameOutcome, Move, Piece, PieceColor, PieceKind, Square};

verus! {

/// The field delimiter byte, `:`.
pub const DELIM: u8 = 58;
/// The padding byte, `0`.
pub const PAD: u8 = 48;
/// The row separator byte inside the board descriptor, `/`.
pub const ROW_SEP: u8 = 47;

/// The tag of a move frame, the ASCII bytes of `ChessMOVE`.
pub open spec fn tag_move() -> Seq<u8> {
    seq![67u8, 104u8, 101u8, 115u8, 115u8, 77u8, 79u8, 86u8, 69u8]
}

/// The tag of a quit frame, the ASCII bytes of `ChessQUIT`.
pub open spec fn tag_quit() -> Seq<u8> {
    seq![67u8, 104u8, 101u8, 115u8, 115u8, 81u8, 85u8, 73u8, 84u8]
}

/// The one-byte letter of a piece: uppercase for white, lowercase for
/// black, letters P/N/B/R/Q/K by kind.
pub open spec fn piece_byte(p: Piece) -> u8 {
    match p.color {
        PieceColor::White => match p.kind {
            PieceKind::Pawn => 80u8,
            PieceKind::Knight => 78u8,
            PieceKind::Bishop => 66u8,
            PieceKind::Rook => 82u8,
            PieceKind::Queen => 81u8,
            PieceKind::King => 75u8,
        },
        PieceColor::Black => match p.kind {
            PieceKind::Pawn => 112u8,
            PieceKind::Knight => 110u8,
            PieceKind::Bishop => 98u8,
            PieceKind::Rook => 114u8,
            PieceKind::Queen => 113u8,
            PieceKind::King => 107u8,
        },
    }
}

/// The 5-byte move descriptor: file letter (`A`..`H`) and rank digit
/// (`1`..`8`) of the source, the same for the destination, then the
/// promotion marker (`q` for promote-to-queen, `0` otherwise).
pub open spec fn move_desc(m: Move) -> Seq<u8> {
    seq![
        (65 + m.from.file) as u8,
        (49 + m.from.rank) as u8,
        (65 + m.to.file) as u8,
        (49 + m.to.rank) as u8,
        if m.promotion { 113u8 } else { 48u8 },
    ]
}

/// The 3-byte outcome descriptor: `1-0`, `0-1`, `1-1`, or `0-0`.
pub open spec fn outcome_desc(o: GameOutcome) -> Seq<u8> {
    match o {
        GameOutcome::WhiteWins => seq![49u8, 45u8, 48u8],
        GameOutcome::BlackWins => seq![48u8, 45u8, 49u8],
        GameOutcome::Draw => seq![49u8, 45u8, 49u8],
        GameOutcome::InProgress => seq![48u8, 45u8, 48u8],
    }
}

/// The run-length encoding of one row, from column `col` on, with `ct`
/// empty squares pending from columns `col - ct .. col`. A pending
/// count is flushed as a decimal digit immediately before the next
/// occupied square, or at row end if non-zero.
pub open spec fn row_enc(b: Seq<Option<Piece>>, rank: int, col: int, ct: int) -> Seq<u8>
    decreases 8 - col,
{
    if col < 0 || col >= 8 {
        if ct > 0 {
            seq![(48 + ct) as u8]
        } else {
            Seq::empty()
        }
    } else {
        match b[rank * 8 + col] {
            Some(p) => (if ct > 0 {
                seq![(48 + ct) as u8]
            } else {
                Seq::empty()
            }) + seq![piece_byte(p)] + row_enc(b, rank, col + 1, 0),
            None => row_enc(b, rank, col + 1, ct + 1),
        }
    }
}

/// The board descriptor for ranks `rank` down to 0: each row's run-length
/// encoding followed by the `/` separator.
pub open spec fn board_desc_from(b: Seq<Option<Piece>>, rank: int) -> Seq<u8>
    decreases rank + 1,
{
    if rank < 0 {
        Seq::empty()
    } else {
        row_enc(b, rank, 0, 0) + seq![ROW_SEP] + board_desc_from(b, rank - 1)
    }
}

/// The full board descriptor: ranks 7 down to 0.
pub open spec fn board_desc(b: Seq<Option<Piece>>) -> Seq<u8> {
    board_desc_from(b, 7)
}

/// The checked portion of a move frame: the four delimiter-terminated
/// fields (tag, move descriptor, outcome descriptor, board descriptor),
/// everything up to and including the fourth delimiter.
pub open spec fn frame_core(m: Move, o: GameOutcome, b: Seq<Option<Piece>>) -> Seq<u8> {
    tag_move() + seq![DELIM] + move_desc(m) + seq![DELIM] + outcome_desc(o) + seq![DELIM]
        + board_desc(b) + seq![DELIM]
}

/// The full 128-byte move frame: the checked core padded with `0` bytes.
pub open spec fn spec_encode(m: Move, o: GameOutcome, b: Seq<Option<Piece>>) -> Seq<u8> {
    frame_core(m, o, b) + Seq::new((128 - frame_core(m, o, b).len()) as nat, |i: int| PAD)
}

/// The fixed 128-byte quit frame: the quit tag, two delimiters (its move
/// and outcome fields are empty), and `0` padding.
pub open spec fn spec_quit_frame() -> Seq<u8> {
    tag_quit() + seq![DELIM] + seq![DELIM] + Seq::new(117, |i: int| PAD)
}

/// One row's encoding adds at most one byte per column not yet
/// processed, plus one for a pending count.
pub proof fn lemma_row_enc_len(b: Seq<Option<Piece>>, rank: int, col: int, ct: int)
    requires
        0 <= col <= 8,
        ct >= 0,
    ensures
        row_enc(b, rank, col, ct).len() <= 8 - col + if ct > 0 { 1int } else { 0int },
    decreases 8 - col,
{
    if col < 8 {
        match b[rank * 8 + col] {
            Some(p) => {
                lemma_row_enc_len(b, rank, col + 1, 0);
            },
            None => {
                lemma_row_enc_len(b, rank, col + 1, ct + 1);
            },
        }
    }
}

/// The board descriptor for ranks `rank` down to 0 takes at most
/// 9 bytes per rank.
pub proof fn lemma_board_desc_len(b: Seq<Option<Piece>>, rank: int)
    requires
        -1 <= rank <= 7,
    ensures
        board_desc_from(b, rank).len() <= 9 * (rank + 1),
    decreases rank + 1,
{
    if rank >= 0 {
        lemma_row_enc_len(b, rank, 0, 0);
        lemma_board_desc_len(b, rank - 1);
    }
}

/// The checked core of a frame is at most 93 bytes, so the padded frame
/// is always exactly 128 bytes.
pub proof fn lemma_frame_core_len(m: Move, o: GameOutcome, b: Seq<Option<Piece>>)
    ensures
        frame_core(m, o, b).len() <= 93,
        spec_encode(m, o, b).len() == 128,
{
    lemma_board_desc_len(b, 7);
}

/// Executable piece-to-letter mapping.
pub fn piece_to_byte(p: Piece) -> (r: u8)
    ensures
        r == piece_byte(p),
{
    match p.color {
        PieceColor::White => match p.kind {
            PieceKind::Pawn => 80,
            PieceKind::Knight => 78,
            PieceKind::Bishop => 66,
            PieceKind::Rook => 82,
            PieceKind::Queen => 81,
            PieceKind::King => 75,
        },
        PieceColor::Black => match p.kind {
            PieceKind::Pawn => 112,
            PieceKind::Knight => 110,
            PieceKind::Bishop => 98,
            PieceKind::Rook => 114,
            PieceKind::Queen => 113,
            PieceKind::King => 107,
        },
    }
}

/// Build the checked core of a move frame: the four fields, each
/// followed by its delimiter, without the padding.
pub fn encode_core(m: Move, outcome: GameOutcome, board: &Board) -> (v: Vec<u8>)
    requires
        m.wf(),
        board.wf(),
    ensures
        v@ == frame_core(m, outcome, board@),
{
    let mut v: Vec<u8> = Vec::new();
    // tag
    v.push(67);
    v.push(104);
    v.push(101);
    v.push(115);
    v.push(115);
    v.push(77);
    v.push(79);
    v.push(86);
    v.push(69);
    v.push(DELIM);
    assert(v@ =~= tag_move() + seq![DELIM]);
    // move descriptor
    v.push(65 + m.from.file);
    v.push(49 + m.from.rank);
    v.push(65 + m.to.file);
    v.push(49 + m.to.rank);
    if m.promotion {
        v.push(113);
    } else {
        v.push(48);
    }
    v.push(DELIM);
    assert(v@ =~= tag_move() + seq![DELIM] + move_desc(m) + seq![DELIM]);
    // outcome descriptor
    match outcome {
        GameOutcome::WhiteWins => {
            v.push(49);
            v.push(45);
            v.push(48);
        },
        GameOutcome::BlackWins => {
            v.push(48);
            v.push(45);
            v.push(49);
        },
        GameOutcome::Draw => {
            v.push(49);
            v.push(45);
            v.push(49);
        },
        GameOutcome::InProgress => {
            v.push(48);
            v.push(45);
            v.push(48);
        },
    }
    v.push(DELIM);
    let ghost prefix = tag_move() + seq![DELIM] + move_desc(m) + seq![DELIM] + outcome_desc(
        outcome,
    ) + seq![DELIM];
    assert(v@ =~= prefix);
    // board descriptor, ranks 7 down to 0
    let mut r: usize = 8;
    while r > 0
        invariant
            r <= 8,
            board.wf(),
            v@ + board_desc_from(board@, r as int - 1) == prefix + board_desc(board@),
        decreases r,
    {
        r = r - 1;
        let ghost v_row_start = v@;
        let mut col: usize = 0;
        let mut ct: u8 = 0;
        while col < 8
            invariant
                col <= 8,
                ct <= col,
                r < 8,
                board.wf(),
                v@ + row_enc(board@, r as int, col as int, ct as int) == v_row_start + row_enc(
                    board@,
                    r as int,
                    0,
                    0,
                ),
            decreases 8 - col,
        {
            match board.piece_at(Square { file: col as u8, rank: r as u8 }) {
                Some(p) => {
                    if ct > 0 {
                        v.push(48 + ct);
                    }
                    v.push(piece_to_byte(p));
                    proof {
                        assert(row_enc(board@, r as int, col as int, ct as int) == (if ct > 0 {
                            seq![(48 + ct) as u8]
                        } else {
                            Seq::<u8>::empty()
                        }) + seq![piece_byte(p)] + row_enc(board@, r as int, col as int + 1, 0));
                        assert(v@ + row_enc(board@, r as int, col as int + 1, 0) =~= v_row_start
                            + row_enc(board@, r as int, 0, 0));
                    }
                    ct = 0;
                },
                None => {
                    proof {
                        assert(row_enc(board@, r as int, col as int, ct as int) == row_enc(
                            board@,
                            r as int,
                            col as int + 1,
                            ct as int + 1,
                        ));
                    }
                    ct = ct + 1;
                },
            }
            col = col + 1;
        }
        if ct > 0 {
            v.push(48 + ct);
        }
        proof {
            assert(row_enc(board@, r as int, 8, ct as int) == (if ct > 0 {
                seq![(48 + ct) as u8]
            } else {
                Seq::<u8>::empty()
            }));
            assert(v@ =~= v_row_start + row_enc(board@, r as int, 0, 0));
        }
        v.push(ROW_SEP);
        proof {
            assert(board_desc_from(board@, r as int) == row_enc(board@, r as int, 0, 0) + seq![
                ROW_SEP,
            ] + board_desc_from(board@, r as int - 1));
            assert(v@ + board_desc_from(board@, r as int - 1) =~= v_row_start + row_enc(
                board@,
                r as int,
                0,
                0,
            ) + seq![ROW_SEP] + board_desc_from(board@, r as int - 1));
            assert(v@ + board_desc_from(board@, r as int - 1) =~= prefix + board_desc(board@));
        }
    }
    v.push(DELIM);
    proof {
        assert(board_desc_from(board@, -1) == Seq::<u8>::empty());
        assert(v@ =~= prefix + board_desc(board@) + seq![DELIM]);
        assert(v@ =~= frame_core(m, outcome, board@));
    }
    v
}

/// Encode a move frame: the checked core padded with `0` bytes to
/// exactly 128 bytes.
pub fn encode(m: Move, outcome: GameOutcome, board: &Board) -> (v: Vec<u8>)
    requires
        m.wf(),
        board.wf(),
    ensures
        v@ == spec_encode(m, outcome, board@),
        v@.len() == 128,
{
    let mut v = encode_core(m, outcome, board);
    proof {
        lemma_frame_core_len(m, outcome, board@);
    }
    let ghost core = frame_core(m, outcome, board@);
    while v.len() < 128
        invariant
            core.len() <= v@.len() <= 128,
            v@ == core + Seq::new((v@.len() - core.len()) as nat, |i: int| PAD),
        decreases 128 - v@.len(),
    {
        v.push(PAD);
        proof {
            assert(v@ =~= core + Seq::new((v@.len() - core.len()) as nat, |i: int| PAD));
        }
    }
    proof {
        assert(v@ =~= spec_encode(m, outcome, board@));
    }
    v
}

/// Build the fixed 128-byte quit frame.
pub fn encode_quit() -> (v: Vec<u8>)
    ensures
        v@ == spec_quit_frame(),
        v@.len() == 128,
{
    let mut v: Vec<u8> = Vec::new();
    v.push(67);
    v.push(104);
    v.push(101);
    v.push(115);
    v.push(115);
    v.push(81);
    v.push(85);
    v.push(73);
    v.push(84);
    v.push(DELIM);
    v.push(DELIM);
    while v.len() < 128
        invariant
            11 <= v@.len() <= 128,
            v@ == tag_quit() + seq![DELIM] + seq![DELIM] + Seq::new(
                (v@.len() - 11) as nat,
                |i: int| PAD,
            ),
        decreases 128 - v@.len(),
    {
        v.push(PAD);
        proof {
            assert(v@ =~= tag_quit() + seq![DELIM] + seq![DELIM] + Seq::new(
                (v@.len() - 11) as nat,
                |i: int| PAD,
            ));
        }
    }
    proof {
        assert(v@ =~= spec_quit_frame());
    }
    v
}

/// The byte `c` is one of the twelve piece letters.
pub open spec fn is_piece_letter(c: u8) -> bool {
    ||| c == 80
    ||| c == 78
    ||| c == 66
    ||| c == 82
    ||| c == 81
    ||| c == 75
    ||| c == 112
    ||| c == 110
    ||| c == 98
    ||| c == 114
    ||| c == 113
    ||| c == 107
}

/// The piece a piece letter denotes (meaningful when `is_piece_letter`).
pub open spec fn piece_of_byte(c: u8) -> Piece {
    if c == 80 {
        Piece { kind: PieceKind::Pawn, color: PieceColor::White }
    } else if c == 78 {
        Piece { kind: PieceKind::Knight, color: PieceColor::White }
    } else if c == 66 {
        Piece { kind: PieceKind::Bishop, color: PieceColor::White }
    } else if c == 82 {
        Piece { kind: PieceKind::Rook, color: PieceColor::White }
    } else if c == 81 {
        Piece { kind: PieceKind::Queen, color: PieceColor::White }
    } else if c == 75 {
        Piece { kind: PieceKind::King, color: PieceColor::White }
    } else if c == 112 {
        Piece { kind: PieceKind::Pawn, color: PieceColor::Black }
    } else if c == 110 {
        Piece { kind: PieceKind::Knight, color: PieceColor::Black }
    } else if c == 98 {
        Piece { kind: PieceKind::Bishop, color: PieceColor::Black }
    } else if c == 114 {
        Piece { kind: PieceKind::Rook, color: PieceColor::Black }
    } else if c == 113 {
        Piece { kind: PieceKind::Queen, color: PieceColor::Black }
    } else {
        Piece { kind: PieceKind::King, color: PieceColor::Black }
    }
}

/// A run of `n` empty squares.
pub open spec fn empty_run(n: int) -> Seq<Option<Piece>> {
    Seq::new(n as nat, |k: int| None)
}

/// Parse one row's run-length encoding from index `i`, with `col`
/// squares of the row already accounted for. Yields the squares of the
/// remaining columns and the index just past the row, or `None` if the
/// bytes are not a well-formed row.
pub open spec fn parse_row(bytes: Seq<u8>, i: int, col: int) -> Option<(Seq<Option<Piece>>, int)>
    decreases bytes.len() - i,
{
    if col >= 8 {
        Some((Seq::empty(), i))
    } else if i < 0 || i >= bytes.len() {
        None
    } else {
        let c = bytes[i];
        if is_piece_letter(c) {
            match parse_row(bytes, i + 1, col + 1) {
                Some((rest, j)) => Some((seq![Some(piece_of_byte(c))] + rest, j)),
                None => None,
            }
        } else if 49 <= c <= 56 {
            let n = c - 48;
            if col + n <= 8 {
                match parse_row(bytes, i + 1, col + n) {
                    Some((rest, j)) => Some((empty_run(n as int) + rest, j)),
                    None => None,
                }
            } else {
                None
            }
        } else {
            None
        }
    }
}

/// Parse `k` rows, each followed by the `/` separator, from index `i`.
/// Yields the rows in encoded order (highest rank first) and the index
/// just past the last separator.
pub open spec fn parse_rows(bytes: Seq<u8>, i: int, k: int) -> Option<
    (Seq<Seq<Option<Piece>>>, int),
>
    decreases k,
{
    if k <= 0 {
        Some((Seq::empty(), i))
    } else {
        match parse_row(bytes, i, 0) {
            None => None,
            Some((row, j)) => if 0 <= j < bytes.len() && bytes[j] == ROW_SEP {
                match parse_rows(bytes, j + 1, k - 1) {
                    Some((rows, j2)) => Some((seq![row] + rows, j2)),
                    None => None,
                }
            } else {
                None
            },
        }
    }
}

/// Assemble a board from rows given in encoded order (rank 7 first):
/// entry `rank * 8 + file` comes from `rows[7 - rank][file]`.
pub open spec fn assemble(rows: Seq<Seq<Option<Piece>>>) -> Seq<Option<Piece>> {
    Seq::new(64, |idx: int| rows[7 - idx / 8][idx % 8])
}

/// The move descriptor bytes of a frame are in range: file letters
/// `A`..`H`, rank digits `1`..`8`, promotion marker `q` or `0`.
pub open spec fn move_desc_ok(f: Seq<u8>) -> bool {
    &&& 65 <= f[10] <= 72
    &&& 49 <= f[11] <= 56
    &&& 65 <= f[12] <= 72
    &&& 49 <= f[13] <= 56
    &&& (f[14] == 113 || f[14] == 48)
}

/// The move a frame's descriptor denotes (meaningful when `move_desc_ok`).
pub open spec fn parse_move(f: Seq<u8>) -> Move {
    Move {
        from: Square { file: (f[10] - 65) as u8, rank: (f[11] - 49) as u8 },
        to: Square { file: (f[12] - 65) as u8, rank: (f[13] - 49) as u8 },
        promotion: f[14] == 113,
    }
}

/// The outcome a frame's descriptor (bytes 16..19) denotes, if any.
pub open spec fn parse_outcome(f: Seq<u8>) -> Option<GameOutcome> {
    let s = f.subrange(16, 19);
    if s == outcome_desc(GameOutcome::WhiteWins) {
        Some(GameOutcome::WhiteWins)
    } else if s == outcome_desc(GameOutcome::BlackWins) {
        Some(GameOutcome::BlackWins)
    } else if s == outcome_desc(GameOutcome::Draw) {
        Some(GameOutcome::Draw)
    } else if s == outcome_desc(GameOutcome::InProgress) {
        Some(GameOutcome::InProgress)
    } else {
        None
    }
}

/// Full parse of a 128-byte move frame: tag, move descriptor, outcome
/// descriptor, board descriptor, and the fourth delimiter that closes
/// it. The trailing padding after that delimiter is opaque: it is
/// neither parsed nor checked, as only the four delimiter-terminated
/// fields carry meaning. `None` if any checked part is malformed.
pub open spec fn spec_parse_frame(f: Seq<u8>) -> Option<
    (Move, GameOutcome, Seq<Option<Piece>>),
> {
    if f.len() != 128 {
        None
    } else if f.subrange(0, 9) != tag_move() || f[9] != DELIM {
        None
    } else if !move_desc_ok(f) || f[15] != DELIM {
        None
    } else {
        match parse_outcome(f) {
            None => None,
            Some(o) => if f[19] != DELIM {
                None
            } else {
                match parse_rows(f, 20, 8) {
                    None => None,
                    Some((rows, j)) => if j < 128 && f[j] == DELIM {
                        Some((parse_move(f), o, assemble(rows)))
                    } else {
                        None
                    },
                }
            },
        }
    }
}

/// Executable letter-to-piece mapping.
pub fn byte_to_piece(c: u8) -> (r: Option<Piece>)
    ensures
        r is Some <==> is_piece_letter(c),
        is_piece_letter(c) ==> r == Some(piece_of_byte(c)),
{
    if c == 80 {
        Some(Piece { kind: PieceKind::Pawn, color: PieceColor::White })
    } else if c == 78 {
        Some(Piece { kind: PieceKind::Knight, color: PieceColor::White })
    } else if c == 66 {
        Some(Piece { kind: PieceKind::Bishop, color: PieceColor::White })
    } else if c == 82 {
        Some(Piece { kind: PieceKind::Rook, color: PieceColor::White })
    } else if c == 81 {
        Some(Piece { kind: PieceKind::Queen, color: PieceColor::White })
    } else if c == 75 {
        Some(Piece { kind: PieceKind::King, color: PieceColor::White })
    } else if c == 112 {
        Some(Piece { kind: PieceKind::Pawn, color: PieceColor::Black })
    } else if c == 110 {
        Some(Piece { kind: PieceKind::Knight, color: PieceColor::Black })
    } else if c == 98 {
        Some(Piece { kind: PieceKind::Bishop, color: PieceColor::Black })
    } else if c == 114 {
        Some(Piece { kind: PieceKind::Rook, color: PieceColor::Black })
    } else if c == 113 {
        Some(Piece { kind: PieceKind::Queen, color: PieceColor::Black })
    } else if c == 107 {
        Some(Piece { kind: PieceKind::King, color: PieceColor::Black })
    } else {
        None
    }
}

/// Parse one row starting at `start`, reading only bytes below index
/// 128, mirroring `parse_row` on the frame's first 128 bytes.
fn parse_row_exec(bytes: &Vec<u8>, start: usize) -> (res: Option<(Vec<Option<Piece>>, usize)>)
    requires
        bytes@.len() >= 128,
        start <= 128,
    ensures
        (match res {
            Some((row, j)) => {
                &&& parse_row(bytes@.take(128), start as int, 0) == Some((row@, j as int))
                &&& start <= j <= 128
                &&& row@.len() == 8
            },
            None => parse_row(bytes@.take(128), start as int, 0) is None,
        }),
{
    let ghost f = bytes@.take(128);
    let mut i: usize = start;
    let mut col: usize = 0;
    let mut row: Vec<Option<Piece>> = Vec::new();
    proof {
        if let Some((rest, j)) = parse_row(f, start as int, 0) {
            assert(Seq::<Option<Piece>>::empty() + rest =~= rest);
        }
    }
    while col < 8
        invariant
            bytes@.len() >= 128,
            f == bytes@.take(128),
            col <= 8,
            start <= i <= 128,
            row@.len() == col,
            (match parse_row(f, i as int, col as int) {
                Some((rest, j)) => parse_row(f, start as int, 0) == Some((row@ + rest, j)),
                None => parse_row(f, start as int, 0) is None,
            }),
        decreases 8 - col,
    {
        if i >= 128 {
            proof {
                assert(parse_row(f, i as int, col as int) is None);
            }
            return None;
        }
        let c = bytes[i];
        proof {
            assert(f[i as int] == c);
        }
        match byte_to_piece(c) {
            Some(p) => {
                let ghost row_old = row@;
                row.push(Some(p));
                proof {
                    assert(parse_row(f, i as int, col as int) == (match parse_row(
                        f,
                        i as int + 1,
                        col as int + 1,
                    ) {
                        Some((rest, j)) => Some((seq![Some(piece_of_byte(c))] + rest, j)),
                        None => None::<(Seq<Option<Piece>>, int)>,
                    }));
                    if let Some((rest, j)) = parse_row(f, i as int + 1, col as int + 1) {
                        assert(row_old + (seq![Some(piece_of_byte(c))] + rest) =~= row@ + rest);
                    }
                }
                i = i + 1;
                col = col + 1;
            },
            None => {
                if 49 <= c && c <= 56 {
                    let n = (c - 48) as usize;
                    if col + n <= 8 {
                        let ghost row_before = row@;
                        let mut t: usize = 0;
                        while t < n
                            invariant
                                t <= n,
                                row@ == row_before + Seq::new(t as nat, |k: int| None),
                            decreases n - t,
                        {
                            row.push(None);
                            proof {
                                assert(row@ =~= row_before + Seq::new(
                                    (t + 1) as nat,
                                    |k: int| None,
                                ));
                            }
                            t = t + 1;
                        }
                        proof {
                            assert(row@ =~= row_before + empty_run(n as int));
                            assert(parse_row(f, i as int, col as int) == (match parse_row(
                                f,
                                i as int + 1,
                                col as int + n as int,
                            ) {
                                Some((rest, j)) => Some((empty_run(n as int) + rest, j)),
                                None => None::<(Seq<Option<Piece>>, int)>,
                            }));
                            if let Some((rest, j)) = parse_row(f, i as int + 1, col as int + n) {
                                assert(row_before + (empty_run(n as int) + rest) =~= row@ + rest);
                            }
                        }
                        i = i + 1;
                        col = col + n;
                    } else {
                        proof {
                            assert(parse_row(f, i as int, col as int) is None);
                        }
                        return None;
                    }
                } else {
                    proof {
                        assert(parse_row(f, i as int, col as int) is None);
                    }
                    return None;
                }
            },
        }
    }
    proof {
        assert(parse_row(f, i as int, 8) == Some((Seq::<Option<Piece>>::empty(), i as int)));
        assert(row@ + Seq::<Option<Piece>>::empty() =~= row@);
    }
    Some((row, i))
}

/// Why a frame could not be decoded.
#[derive(Clone, Copy, Debug, PartialEq, Eq)]
pub enum CodecError {
    /// Fewer bytes than one full frame.
    Truncated,
    /// A full frame whose fields do not parse.
    Malformed,
}

/// A successfully decoded frame.
#[derive(Debug)]
pub enum DecodedMessage {
    /// A quit frame; no other field of it is meaningful.
    Quit,
    /// A move frame: the claimed move, outcome, and resulting board.
    Move { m: Move, outcome: GameOutcome, board: Board },
}

/// Decode a received frame.
///
/// Fewer than 128 bytes is `Truncated`. Otherwise the first 128 bytes
/// are read: a quit tag yields `Quit`; a move frame whose four
/// delimiter-terminated fields parse yields the move, outcome and
/// board it describes, whatever its trailing padding holds; anything
/// else is `Malformed`.
#[verifier::loop_isolation(false)]
pub fn decode(bytes: &Vec<u8>) -> (r: Result<DecodedMessage, CodecError>)
    ensures
        (bytes@.len() < 128) <==> (r matches Err(CodecError::Truncated)),
        bytes@.len() >= 128 ==> ((bytes@.take(128).subrange(0, 9) == tag_quit()) <==> (
        r matches Ok(DecodedMessage::Quit))),
        bytes@.len() >= 128 ==> (match spec_parse_frame(bytes@.take(128)) {
            Some(t) => r matches Ok(DecodedMessage::Move { m, outcome, board }) && m == t.0
                && outcome == t.1 && board@ == t.2 && board.wf(),
            None => bytes@.take(128).subrange(0, 9) != tag_quit() ==> r matches Err(
                CodecError::Malformed,
            ),
        }),
{
    if bytes.len() < 128 {
        return Err(CodecError::Truncated);
    }
    let ghost f = bytes@.take(128);
    proof {
        assert(forall|k: int| 0 <= k < 128 ==> f[k] == bytes@[k]);
        assert(forall|k: int| 0 <= k < 9 ==> f.subrange(0, 9)[k] == f[k]);
    }
    // quit tag short-circuits: nothing else in the frame is meaningful
    if bytes[0] == 67 && bytes[1] == 104 && bytes[2] == 101 && bytes[3] == 115 && bytes[4] == 115
        && bytes[5] == 81 && bytes[6] == 85 && bytes[7] == 73 && bytes[8] == 84 {
        proof {
            assert(f.subrange(0, 9) =~= tag_quit());
        }
        return Ok(DecodedMessage::Quit);
    }
    proof {
        if f.subrange(0, 9) == tag_quit() {
            assert(bytes@[0] == 67 && bytes@[1] == 104 && bytes@[2] == 101 && bytes@[3] == 115
                && bytes@[4] == 115 && bytes@[5] == 81 && bytes@[6] == 85 && bytes@[7] == 73
                && bytes@[8] == 84);
        }
        assert(f.subrange(0, 9) != tag_quit());
    }
    // move tag and its delimiter
    if !(bytes[0] == 67 && bytes[1] == 104 && bytes[2] == 101 && bytes[3] == 115 && bytes[4] == 115
        && bytes[5] == 77 && bytes[6] == 79 && bytes[7] == 86 && bytes[8] == 69 && bytes[9] == DELIM)
    {
        proof {
            if f.subrange(0, 9) == tag_move() {
                assert(bytes@[0] == 67 && bytes@[1] == 104 && bytes@[2] == 101 && bytes@[3] == 115
                    && bytes@[4] == 115 && bytes@[5] == 77 && bytes@[6] == 79 && bytes@[7] == 86
                    && bytes@[8] == 69);
            }
            assert(spec_parse_frame(f) is None);
        }
        return Err(CodecError::Malformed);
    }
    proof {
        assert(f.subrange(0, 9) =~= tag_move());
    }
    // move descriptor
    if !(65 <= bytes[10] && bytes[10] <= 72 && 49 <= bytes[11] && bytes[11] <= 56 && 65 <= bytes[12]
        && bytes[12] <= 72 && 49 <= bytes[13] && bytes[13] <= 56 && (bytes[14] == 113 || bytes[14]
        == 48) && bytes[15] == DELIM) {
        proof {
            assert(spec_parse_frame(f) is None);
        }
        return Err(CodecError::Malformed);
    }
    let m = Move {
        from: Square { file: bytes[10] - 65, rank: bytes[11] - 49 },
        to: Square { file: bytes[12] - 65, rank: bytes[13] - 49 },
        promotion: bytes[14] == 113,
    };
    proof {
        assert(m == parse_move(f));
        assert(move_desc_ok(f));
    }
    // outcome descriptor
    let ghost s = f.subrange(16, 19);
    proof {
        assert(s.len() == 3 && s[0] == bytes@[16] && s[1] == bytes@[17] && s[2] == bytes@[18]);
    }
    let outcome: GameOutcome;
    if bytes[17] == 45 && bytes[16] == 49 && bytes[18] == 48 {
        outcome = GameOutcome::WhiteWins;
        proof {
            assert(s =~= outcome_desc(GameOutcome::WhiteWins));
        }
    } else if bytes[17] == 45 && bytes[16] == 48 && bytes[18] == 49 {
        outcome = GameOutcome::BlackWins;
        proof {
            assert(s =~= outcome_desc(GameOutcome::BlackWins));
        }
    } else if bytes[17] == 45 && bytes[16] == 49 && bytes[18] == 49 {
        outcome = GameOutcome::Draw;
        proof {
            assert(s =~= outcome_desc(GameOutcome::Draw));
        }
    } else if bytes[17] == 45 && bytes[16] == 48 && bytes[18] == 48 {
        outcome = GameOutcome::InProgress;
        proof {
            assert(s =~= outcome_desc(GameOutcome::InProgress));
        }
    } else {
        proof {
            assert(parse_outcome(f) is None);
            assert(spec_parse_frame(f) is None);
        }
        return Err(CodecError::Malformed);
    }
    proof {
        assert(parse_outcome(f) == Some(outcome));
    }
    if bytes[19] != DELIM {
        proof {
            assert(spec_parse_frame(f) is None);
        }
        return Err(CodecError::Malformed);
    }
    // board descriptor: eight rows, rank 7 first, each closed by `/`
    let mut board: Vec<Option<Piece>> = Vec::new();
    let mut z: usize = 0;
    while z < 64
        invariant
            z <= 64,
            board@.len() == z,
        decreases 64 - z,
    {
        board.push(None);
        z = z + 1;
    }
    let mut i: usize = 20;
    let mut k: usize = 0;
    let ghost mut rows_acc: Seq<Seq<Option<Piece>>> = Seq::empty();
    proof {
        if let Some((rest, j)) = parse_rows(f, 20, 8) {
            assert(Seq::<Seq<Option<Piece>>>::empty() + rest =~= rest);
        }
    }
    while k < 8
        invariant
            bytes@.len() >= 128,
            f == bytes@.take(128),
            k <= 8,
            20 <= i <= 128,
            board@.len() == 64,
            rows_acc.len() == k,
            forall|t: int| 0 <= t < k ==> (#[trigger] rows_acc[t]).len() == 8,
            forall|t: int, fl: int|
                0 <= t < k && 0 <= fl < 8 ==> #[trigger] board@[(7 - t) * 8 + fl] == rows_acc[t][fl],
            (match parse_rows(f, i as int, 8 - k as int) {
                Some((rest, j)) => parse_rows(f, 20, 8) == Some((rows_acc + rest, j)),
                None => parse_rows(f, 20, 8) is None,
            }),
        decreases 8 - k,
    {
        let row_res = parse_row_exec(bytes, i);
        match row_res {
            None => {
                proof {
                    assert(parse_rows(f, i as int, 8 - k as int) is None);
                    assert(spec_parse_frame(f) is None);
                }
                return Err(CodecError::Malformed);
            },
            Some((row, j)) => {
                if j >= 128 || bytes[j] != ROW_SEP {
                    proof {
                        assert(parse_rows(f, i as int, 8 - k as int) is None);
                        assert(spec_parse_frame(f) is None);
                    }
                    return Err(CodecError::Malformed);
                }
                let ghost board_old = board@;
                let mut fl: usize = 0;
                while fl < 8
                    invariant
                        fl <= 8,
                        k < 8,
                        row@.len() == 8,
                        board@.len() == 64,
                        forall|x: int|
                            0 <= x < 64 && !((7 - k as int) * 8 <= x < (7 - k as int) * 8 + fl)
                                ==> board@[x] == board_old[x],
                        forall|x: int|
                            0 <= x < fl ==> #[trigger] board@[(7 - k as int) * 8 + x] == row@[x],
                    decreases 8 - fl,
                {
                    board.set((7 - k) * 8 + fl, row[fl]);
                    fl = fl + 1;
                }
                proof {
                    let krow = row@;
                    let rows_old = rows_acc;
                    rows_acc = rows_acc + seq![krow];
                    assert forall|t2: int, fl2: int|
                        0 <= t2 < k + 1 && 0 <= fl2 < 8 implies #[trigger] board@[(7 - t2) * 8
                        + fl2] == rows_acc[t2][fl2] by {
                        if t2 < k {
                            assert((7 - t2) * 8 + fl2 >= (7 - k as int) * 8 + 8);
                            assert(board@[(7 - t2) * 8 + fl2] == board_old[(7 - t2) * 8 + fl2]);
                            assert(board_old[(7 - t2) * 8 + fl2] == rows_old[t2][fl2]);
                        } else {
                            assert(board@[(7 - k as int) * 8 + fl2] == krow[fl2]);
                        }
                    }
                    assert(parse_rows(f, i as int, 8 - k as int) == (match parse_rows(
                        f,
                        j as int + 1,
                        8 - k as int - 1,
                    ) {
                        Some((rows, j2)) => Some((seq![krow] + rows, j2)),
                        None => None::<(Seq<Seq<Option<Piece>>>, int)>,
                    }));
                    if let Some((rows, j2)) = parse_rows(f, j as int + 1, 8 - k as int - 1) {
                        assert(rows_acc.drop_last() + (seq![krow] + rows) =~= rows_acc + rows);
                    }
                }
                i = j + 1;
                k = k + 1;
            },
        }
    }
    proof {
        assert(parse_rows(f, i as int, 0) == Some((Seq::<Seq<Option<Piece>>>::empty(), i as int)));
        assert(rows_acc + Seq::<Seq<Option<Piece>>>::empty() =~= rows_acc);
        assert(parse_rows(f, 20, 8) == Some((rows_acc, i as int)));
    }
    // the fourth delimiter closes the checked fields; whatever follows
    // is padding, which is never examined
    if i >= 128 || bytes[i] != DELIM {
        proof {
            assert(spec_parse_frame(f) is None);
        }
        return Err(CodecError::Malformed);
    }
    proof {
        assert(spec_parse_frame(f) == Some((parse_move(f), outcome, assemble(rows_acc))));
        assert forall|idx: int| 0 <= idx < 64 implies board@[idx] == assemble(rows_acc)[idx] by {
            let r = idx / 8;
            let flx = idx % 8;
            vstd::arithmetic::div_mod::lemma_fundamental_div_mod(idx, 8);
            assert(0 <= r < 8);
            assert(0 <= flx < 8);
            assert(board@[(7 - (7 - r)) * 8 + flx] == rows_acc[7 - r][flx]);
            assert((7 - (7 - r)) * 8 + flx == idx);
        }
        assert(board@ =~= assemble(rows_acc));
    }
    Ok(DecodedMessage::Move { m, outcome, board: Board::from_squares(board) })
}

/// The squares of row `rank` from column `c` on.
pub open spec fn row_tail(b: Seq<Option<Piece>>, rank: int, c: int) -> Seq<Option<Piece>> {
    Seq::new((8 - c) as nat, |k: int| b[rank * 8 + c + k])
}

/// The rows of `b` from rank `rank` down to 0, in encoded order.
pub open spec fn rows_of(b: Seq<Option<Piece>>, rank: int) -> Seq<Seq<Option<Piece>>> {
    Seq::new((rank + 1) as nat, |k: int| row_tail(b, rank - k, 0))
}

/// Parsing inverts the run-length encoding of a row: wherever a row's
/// encoding stands in `bytes`, `parse_row` consumes exactly it and
/// returns that row's squares.
pub proof fn lemma_parse_row_of_enc(
    bytes: Seq<u8>,
    b: Seq<Option<Piece>>,
    rank: int,
    col: int,
    ct: int,
    i: int,
)
    requires
        0 <= rank < 8,
        0 <= ct <= col <= 8,
        forall|q: int| rank * 8 + col - ct <= q < rank * 8 + col ==> b[q] is None,
        0 <= i,
        i + row_enc(b, rank, col, ct).len() <= bytes.len(),
        bytes.subrange(i, i + row_enc(b, rank, col, ct).len() as int) == row_enc(b, rank, col, ct),
    ensures
        parse_row(bytes, i, col - ct) == Some(
            (row_tail(b, rank, col - ct), i + row_enc(b, rank, col, ct).len()),
        ),
    decreases 8 - col,
{
    let e = row_enc(b, rank, col, ct);
    assert(forall|x: int| 0 <= x < e.len() ==> bytes[i + x] == e[x]) by {
        assert(forall|x: int|
            0 <= x < e.len() ==> #[trigger] bytes.subrange(i, i + e.len() as int)[x] == bytes[i + x]);
    }
    if col == 8 {
        if ct == 0 {
            assert(row_tail(b, rank, 8) =~= Seq::<Option<Piece>>::empty());
        } else {
            assert(e =~= seq![(48 + ct) as u8]);
            assert(bytes[i + 0] == e[0]);
            assert(bytes[i] == 48 + ct);
            assert(!is_piece_letter((48 + ct) as u8));
            assert(parse_row(bytes, i + 1, 8) == Some(
                (Seq::<Option<Piece>>::empty(), i + 1),
            ));
            assert(empty_run(ct) + Seq::<Option<Piece>>::empty() =~= row_tail(b, rank, 8 - ct));
        }
    } else {
        match b[rank * 8 + col] {
            Some(p) => {
                let flen: int = if ct > 0 {
                    1
                } else {
                    0
                };
                let rest = row_enc(b, rank, col + 1, 0);
                let i2 = i + flen + 1;
                assert(e.len() == flen + 1 + rest.len());
                assert(e[flen] == piece_byte(p));
                assert(forall|x: int| 0 <= x < rest.len() ==> e[flen + 1 + x] == rest[x]);
                assert(bytes.subrange(i2, i2 + rest.len() as int) =~= rest) by {
                    assert(forall|x: int|
                        0 <= x < rest.len() ==> #[trigger] bytes.subrange(i2, i2 + rest.len() as int)[x]
                            == bytes[i2 + x]);
                    assert(forall|x: int| 0 <= x < rest.len() ==> #[trigger] bytes[i2 + x] == e[flen + 1 + x]);
                }
                lemma_parse_row_of_enc(bytes, b, rank, col + 1, 0, i2);
                assert(is_piece_letter(piece_byte(p)));
                assert(piece_of_byte(piece_byte(p)) == p);
                assert(bytes[i + flen] == e[flen]);
                assert(bytes[i2 - 1] == piece_byte(p));
                if ct > 0 {
                    assert(bytes[i + 0] == e[0]);
                    assert(bytes[i] == 48 + ct);
                    assert(!is_piece_letter((48 + ct) as u8));
                    assert(parse_row(bytes, i + 1, col) == Some(
                        (seq![Some(p)] + row_tail(b, rank, col + 1), i2 + rest.len()),
                    ));
                    assert(parse_row(bytes, i, col - ct) == Some(
                        (empty_run(ct) + (seq![Some(p)] + row_tail(b, rank, col + 1)), i2
                            + rest.len()),
                    ));
                    assert(empty_run(ct) + (seq![Some(p)] + row_tail(b, rank, col + 1)) =~= row_tail(
                        b,
                        rank,
                        col - ct,
                    ));
                } else {
                    assert(parse_row(bytes, i, col) == Some(
                        (seq![Some(p)] + row_tail(b, rank, col + 1), i2 + rest.len()),
                    ));
                    assert(seq![Some(p)] + row_tail(b, rank, col + 1) =~= row_tail(b, rank, col));
                }
            },
            None => {
                assert(e == row_enc(b, rank, col + 1, ct + 1));
                lemma_parse_row_of_enc(bytes, b, rank, col + 1, ct + 1, i);
            },
        }
    }
}

/// Parsing inverts the board descriptor: wherever the descriptor for
/// ranks `rank` down to 0 stands in `bytes`, `parse_rows` consumes
/// exactly it and returns those rows.
pub proof fn lemma_parse_rows_of_enc(bytes: Seq<u8>, b: Seq<Option<Piece>>, rank: int, i: int)
    requires
        -1 <= rank < 8,
        0 <= i,
        i + board_desc_from(b, rank).len() <= bytes.len(),
        bytes.subrange(i, i + board_desc_from(b, rank).len() as int) == board_desc_from(b, rank),
    ensures
        parse_rows(bytes, i, rank + 1) == Some(
            (rows_of(b, rank), i + board_desc_from(b, rank).len()),
        ),
    decreases rank + 1,
{
    let e = board_desc_from(b, rank);
    assert(forall|x: int| 0 <= x < e.len() ==> bytes[i + x] == e[x]) by {
        assert(forall|x: int|
            0 <= x < e.len() ==> #[trigger] bytes.subrange(i, i + e.len() as int)[x] == bytes[i + x]);
    }
    if rank < 0 {
        assert(rows_of(b, -1) =~= Seq::<Seq<Option<Piece>>>::empty());
    } else {
        let re = row_enc(b, rank, 0, 0);
        let rest = board_desc_from(b, rank - 1);
        let rl = re.len() as int;
        assert(e.len() == rl + 1 + rest.len());
        assert(forall|x: int| 0 <= x < rl ==> e[x] == re[x]);
        assert(e[rl] == ROW_SEP);
        assert(forall|x: int| 0 <= x < rest.len() ==> e[rl + 1 + x] == rest[x]);
        assert(bytes.subrange(i, i + rl) =~= re) by {
            assert(forall|x: int| 0 <= x < rl ==> #[trigger] bytes.subrange(i, i + rl)[x] == bytes[i + x]);
        }
        lemma_parse_row_of_enc(bytes, b, rank, 0, 0, i);
        assert(parse_row(bytes, i, 0) == Some((row_tail(b, rank, 0), i + rl)));
        assert(bytes[i + rl] == e[rl]);
        assert(bytes[i + rl] == ROW_SEP);
        let i2 = i + rl + 1;
        assert(bytes.subrange(i2, i2 + rest.len() as int) =~= rest) by {
            assert(forall|x: int|
                0 <= x < rest.len() ==> #[trigger] bytes.subrange(i2, i2 + rest.len() as int)[x] == bytes[i2
                    + x]);
            assert(forall|x: int| 0 <= x < rest.len() ==> #[trigger] bytes[i2 + x] == e[rl + 1 + x]);
        }
        lemma_parse_rows_of_enc(bytes, b, rank - 1, i2);
        assert(parse_rows(bytes, i2, rank) == Some((rows_of(b, rank - 1), i2 + rest.len())));
        assert(seq![row_tail(b, rank, 0)] + rows_of(b, rank - 1) =~= rows_of(b, rank));
    }
}

/// Assembling the rows of a 64-square board gives the board back.
pub proof fn lemma_assemble_rows_of(b: Seq<Option<Piece>>)
    requires
        b.len() == 64,
    ensures
        assemble(rows_of(b, 7)) == b,
{
    assert forall|idx: int| 0 <= idx < 64 implies assemble(rows_of(b, 7))[idx] == b[idx] by {
        let r = idx / 8;
        let flx = idx % 8;
        vstd::arithmetic::div_mod::lemma_fundamental_div_mod(idx, 8);
        assert(0 <= r < 8);
        assert(0 <= flx < 8);
        assert(rows_of(b, 7)[7 - r] == row_tail(b, r, 0));
        assert(row_tail(b, r, 0)[flx] == b[r * 8 + flx]);
    }
    assert(assemble(rows_of(b, 7)) =~= b);
}

/// Round trip: a frame encoded from any well-formed move, outcome and
/// board parses back to exactly that move, outcome and board.
pub proof fn lemma_round_trip(m: Move, o: GameOutcome, b: Seq<Option<Piece>>)
    requires
        m.wf(),
        b.len() == 64,
    ensures
        spec_encode(m, o, b).len() == 128,
        spec_encode(m, o, b).subrange(0, 9) == tag_move(),
        spec_encode(m, o, b).subrange(0, 9) != tag_quit(),
        spec_parse_frame(spec_encode(m, o, b)) == Some((m, o, b)),
{
    lemma_frame_core_len(m, o, b);
    lemma_board_desc_len(b, 7);
    let core = frame_core(m, o, b);
    let f = spec_encode(m, o, b);
    let md = move_desc(m);
    let od = outcome_desc(o);
    let bd = board_desc(b);
    assert(core.len() == 21 + bd.len());
    assert(forall|x: int| 0 <= x < core.len() ==> f[x] == core[x]);
    assert(forall|x: int| core.len() <= x < 128 ==> f[x] == PAD);
    assert(forall|x: int| 0 <= x < 9 ==> core[x] == tag_move()[x]);
    assert(core[9] == DELIM);
    assert(forall|x: int| 10 <= x < 15 ==> core[x] == md[x - 10]);
    assert(core[15] == DELIM);
    assert(forall|x: int| 16 <= x < 19 ==> core[x] == od[x - 16]);
    assert(core[19] == DELIM);
    assert(forall|x: int| 20 <= x < 20 + bd.len() ==> core[x] == bd[x - 20]);
    assert(core[20 + bd.len() as int] == DELIM);
    // tag
    assert(f.subrange(0, 9) =~= tag_move());
    assert(tag_move()[5] == 77 && tag_quit()[5] == 81);
    assert(tag_move() != tag_quit());
    // move descriptor
    assert(md[0] == 65 + m.from.file && md[1] == 49 + m.from.rank && md[2] == 65 + m.to.file
        && md[3] == 49 + m.to.rank);
    assert(move_desc_ok(f));
    assert(parse_move(f) == m);
    // outcome descriptor
    assert(f.subrange(16, 19) =~= od);
    assert(outcome_desc(GameOutcome::WhiteWins)[0] == 49 && outcome_desc(
        GameOutcome::WhiteWins,
    )[2] == 48);
    assert(outcome_desc(GameOutcome::BlackWins)[0] == 48 && outcome_desc(
        GameOutcome::BlackWins,
    )[2] == 49);
    assert(outcome_desc(GameOutcome::Draw)[0] == 49 && outcome_desc(GameOutcome::Draw)[2] == 49);
    assert(outcome_desc(GameOutcome::InProgress)[0] == 48 && outcome_desc(
        GameOutcome::InProgress,
    )[2] == 48);
    assert(parse_outcome(f) == Some(o));
    // board descriptor
    assert(f.subrange(20, 20 + bd.len() as int) =~= board_desc_from(b, 7)) by {
        assert(forall|x: int|
            0 <= x < bd.len() ==> #[trigger] f.subrange(20, 20 + bd.len() as int)[x] == f[20 + x]);
    }
    lemma_parse_rows_of_enc(f, b, 7, 20);
    assert(parse_rows(f, 20, 8) == Some((rows_of(b, 7), 20 + bd.len() as int)));
    let j = 20 + bd.len() as int;
    assert(j < 128 && f[j] == DELIM);
    lemma_assemble_rows_of(b);
    assert(spec_parse_frame(f) == Some((m, o, b)));
}

/// The received frame agrees byte-for-byte with `core` over the whole
/// checked region (the four delimiter-terminated fields); trailing
/// padding is outside it.
pub open spec fn fields_match(core: Seq<u8>, received: Seq<u8>) -> bool {
    received.len() >= core.len() && received.subrange(0, core.len() as int) == core
}

/// Does `received` begin with every byte of `core`?
pub fn check_fields(core: &Vec<u8>, received: &Vec<u8>) -> (r: bool)
    ensures
        r == fields_match(core@, received@),
{
    if received.len() < core.len() {
        return false;
    }
    let n = core.len();
    let mut i: usize = 0;
    while i < n
        invariant
            n == core@.len() <= received@.len(),
            i <= n,
            forall|x: int| 0 <= x < i ==> core@[x] == received@[x],
        decreases n - i,
    {
        if core[i] != received[i] {
            proof {
                if received@.subrange(0, n as int) == core@ {
                    assert(received@.subrange(0, n as int)[i as int] == received@[i as int]);
                }
            }
            return false;
        }
        i = i + 1;
    }
    proof {
        assert(received@.subrange(0, n as int) =~= core@);
    }
    true
}

/// Divergence detection: a received frame whose outcome field claims a
/// different result than the honestly recomputed one fails the
/// checked-field comparison, whatever the rest of the frame holds.
pub proof fn lemma_outcome_divergence_detected(
    m: Move,
    honest: GameOutcome,
    claimed: GameOutcome,
    b: Seq<Option<Piece>>,
)
    requires
        honest != claimed,
    ensures
        !fields_match(frame_core(m, honest, b), spec_encode(m, claimed, b)),
{
    let ch = frame_core(m, honest, b);
    let f = spec_encode(m, claimed, b);
    lemma_frame_core_len(m, claimed, b);
    assert(ch.len() == 21 + board_desc(b).len());
    assert(ch[16] == outcome_desc(honest)[0] && ch[18] == outcome_desc(honest)[2]);
    assert(f[16] == outcome_desc(claimed)[0] && f[18] == outcome_desc(claimed)[2]);
    assert(outcome_desc(GameOutcome::WhiteWins)[0] == 49 && outcome_desc(
        GameOutcome::WhiteWins,
    )[2] == 48);
    assert(outcome_desc(GameOutcome::BlackWins)[0] == 48 && outcome_desc(
        GameOutcome::BlackWins,
    )[2] == 49);
    assert(outcome_desc(GameOutcome::Draw)[0] == 49 && outcome_desc(GameOutcome::Draw)[2] == 49);
    assert(outcome_desc(GameOutcome::InProgress)[0] == 48 && outcome_desc(
        GameOutcome::InProgress,
    )[2] == 48);
    if fields_match(ch, f) {
        assert(f.subrange(0, ch.len() as int)[16] == f[16]);
        assert(f.subrange(0, ch.len() as int)[18] == f[18]);
        assert(ch[16] == f[16] && ch[18] == f[18]);
        assert(false);
    }
}

/// Any alteration within the checked region is caught: a received
/// frame that differs from the honest core at any byte of the four
/// checked fields fails the comparison.
pub proof fn lemma_checked_byte_divergence_detected(core: Seq<u8>, received: Seq<u8>, k: int)
    requires
        0 <= k < core.len(),
        received.len() >= core.len(),
        received[k] != core[k],
    ensures
        !fields_match(core, received),
{
    if received.subrange(0, core.len() as int) == core {
        assert(received.subrange(0, core.len() as int)[k] == received[k]);
    }
}

/// The quit frame is exactly 128 bytes and always recognized as a
/// quit by the peer: its first nine bytes are the quit tag.
pub proof fn lemma_quit_frame_recognized()
    ensures
        spec_quit_frame().len() == 128,
        spec_quit_frame().take(128) == spec_quit_frame(),
        spec_quit_frame().subrange(0, 9) == tag_quit(),
{
    assert(spec_quit_frame().take(128) =~= spec_quit_frame());
    assert(spec_quit_frame().subrange(0, 9) =~= tag_quit());
}

} // verus!
