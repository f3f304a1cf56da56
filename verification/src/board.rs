//! The data model of the synchronization core: squares, moves, game
//! outcomes, and the library's own board representation.
//!
//! The board here records only what the wire protocol speaks of: which
//! piece, if any, stands on each of the 64 squares. Legal-move knowledge
//! stays with the external rules engine; this model is what the codec
//! serializes and what reconciliation compares.

use vstd::prelude::*;

verus! {

/// A board coordinate: file (column) and rank (row), each in 0..8.
#[derive(Clone, Copy, Debug, PartialEq, Eq)]
pub struct Square {
    pub file: u8,
    pub rank: u8,
}

impl Square {
    /// A square is on the board iff both coordinates lie in 0..8.
    pub open spec fn on_board(self) -> bool {
        self.file < 8 && self.rank < 8
    }

    pub fn new(file: u8, rank: u8) -> (s: Square)
        ensures
            s.file == file,
            s.rank == rank,
    {
        Square { file, rank }
    }

    /// Executable check matching `on_board`.
    pub fn is_on_board(&self) -> (r: bool)
        ensures
            r == self.on_board(),
    {
        self.file < 8 && self.rank < 8
    }
}

/// A move: source and destination squares plus the single promotion
/// choice the protocol can carry (promote to queen, or not).
#[derive(Clone, Copy, Debug, PartialEq, Eq)]
pub struct Move {
    pub from: Square,
    pub to: Square,
    pub promotion: bool,
}

impl Move {
    /// A move is well formed iff both of its squares are on the board.
    pub open spec fn wf(self) -> bool {
        self.from.on_board() && self.to.on_board()
    }

    pub fn new(from: Square, to: Square, promotion: bool) -> (m: Move)
        ensures
            m.from == from,
            m.to == to,
            m.promotion == promotion,
    {
        Move { from, to, promotion }
    }
}

/// The game result a frame reports.
#[derive(Clone, Copy, Debug, PartialEq, Eq)]
pub enum GameOutcome {
    InProgress,
    WhiteWins,
    BlackWins,
    Draw,
}

/// The six piece kinds of chess.
#[derive(Clone, Copy, Debug, PartialEq, Eq)]
pub enum PieceKind {
    Pawn,
    Knight,
    Bishop,
    Rook,
    Queen,
    King,
}

/// The two sides.
#[derive(Clone, Copy, Debug, PartialEq, Eq)]
pub enum PieceColor {
    White,
    Black,
}

/// A piece as the wire format sees it: kind and color.
#[derive(Clone, Copy, Debug, PartialEq, Eq)]
pub struct Piece {
    pub kind: PieceKind,
    pub color: PieceColor,
}

/// The 64 squares of a position, one optional piece per square.
///
/// The square at `(file, rank)` is entry `rank * 8 + file` of the view.
#[derive(Debug)]
pub struct Board {
    squares: Vec<Option<Piece>>,
}

impl Board {
    /// The mathematical model: a sequence of 64 optional pieces.
    pub closed spec fn view(&self) -> Seq<Option<Piece>> {
        self.squares@
    }

    /// Well-formedness: exactly 64 squares.
    pub open spec fn wf(&self) -> bool {
        self@.len() == 64
    }

    /// An empty board.
    pub fn empty() -> (b: Board)
        ensures
            b.wf(),
            forall|i: int| 0 <= i < 64 ==> b@[i] is None,
    {
        let mut squares: Vec<Option<Piece>> = Vec::new();
        let mut i: usize = 0;
        while i < 64
            invariant
                i <= 64,
                squares@.len() == i,
                forall|j: int| 0 <= j < i ==> squares@[j] is None,
            decreases 64 - i,
        {
            squares.push(None);
            i = i + 1;
        }
        Board { squares }
    }

    /// The piece standing on square `i` (as `rank * 8 + file`) in the
    /// conventional starting position: white's back rank on rank 0,
    /// pawns on ranks 1 and 6, black's back rank on rank 7.
    pub open spec fn spec_start_square(i: int) -> Option<Piece> {
        let rank = i / 8;
        let file = i % 8;
        if rank == 0 || rank == 7 {
            let color = if rank == 0 {
                PieceColor::White
            } else {
                PieceColor::Black
            };
            let kind = if file == 0 || file == 7 {
                PieceKind::Rook
            } else if file == 1 || file == 6 {
                PieceKind::Knight
            } else if file == 2 || file == 5 {
                PieceKind::Bishop
            } else if file == 3 {
                PieceKind::Queen
            } else {
                PieceKind::King
            };
            Some(Piece { kind, color })
        } else if rank == 1 {
            Some(Piece { kind: PieceKind::Pawn, color: PieceColor::White })
        } else if rank == 6 {
            Some(Piece { kind: PieceKind::Pawn, color: PieceColor::Black })
        } else {
            None
        }
    }

    /// The conventional starting position.
    pub fn starting_position() -> (b: Board)
        ensures
            b.wf(),
            forall|i: int| 0 <= i < 64 ==> b@[i] == Board::spec_start_square(i),
    {
        let mut squares: Vec<Option<Piece>> = Vec::new();
        let mut i: usize = 0;
        while i < 64
            invariant
                i <= 64,
                squares@.len() == i,
                forall|j: int| 0 <= j < i ==> squares@[j] == Board::spec_start_square(j),
            decreases 64 - i,
        {
            let rank = i / 8;
            let file = i % 8;
            let sq: Option<Piece> = if rank == 0 || rank == 7 {
                let color = if rank == 0 {
                    PieceColor::White
                } else {
                    PieceColor::Black
                };
                let kind = if file == 0 || file == 7 {
                    PieceKind::Rook
                } else if file == 1 || file == 6 {
                    PieceKind::Knight
                } else if file == 2 || file == 5 {
                    PieceKind::Bishop
                } else if file == 3 {
                    PieceKind::Queen
                } else {
                    PieceKind::King
                };
                Some(Piece { kind, color })
            } else if rank == 1 {
                Some(Piece { kind: PieceKind::Pawn, color: PieceColor::White })
            } else if rank == 6 {
                Some(Piece { kind: PieceKind::Pawn, color: PieceColor::Black })
            } else {
                None
            };
            squares.push(sq);
            i = i + 1;
        }
        Board { squares }
    }

    /// A board from an explicit 64-square vector.
    pub fn from_squares(squares: Vec<Option<Piece>>) -> (b: Board)
        requires
            squares@.len() == 64,
        ensures
            b.wf(),
            b@ == squares@,
    {
        Board { squares }
    }

    /// What stands on `sq`.
    pub fn piece_at(&self, sq: Square) -> (p: Option<Piece>)
        requires
            self.wf(),
            sq.on_board(),
        ensures
            p == self@[sq.rank as int * 8 + sq.file as int],
    {
        self.squares[sq.rank as usize * 8 + sq.file as usize]
    }

    /// Put `p` on `sq` (replacing whatever stood there).
    pub fn set_piece(&mut self, sq: Square, p: Option<Piece>)
        requires
            old(self).wf(),
            sq.on_board(),
        ensures
            final(self).wf(),
            final(self)@ == old(self)@.update(sq.rank as int * 8 + sq.file as int, p),
    {
        self.squares.set(sq.rank as usize * 8 + sq.file as usize, p);
    }
}

} // verus!
