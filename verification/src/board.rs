//! The board: piece placement as twelve bitboards, plus the game state
//! (side to move, castling rights, en-passant target, half-move clock).
use vstd::prelude::*;

use crate::bits::{bit_set, bmask, lemma_disjoint_bit, test_bit};

verus! {

/// The two sides of a chess game.
#[derive(Debug, PartialEq, Eq, Clone, Copy, Structural)]
pub enum Color {
    White,
    Black,
}

impl Color {
    /// The side that moves after this one.
    pub fn other(&self) -> (r: Color)
        ensures
            r == self.spec_other(),
    {
        match self {
            Color::White => Color::Black,
            Color::Black => Color::White,
        }
    }

    pub open spec fn spec_other(self) -> Color {
        match self {
            Color::White => Color::Black,
            Color::Black => Color::White,
        }
    }
}

/// The six piece kinds.
#[derive(Debug, PartialEq, Eq, Clone, Copy, Structural)]
pub enum Piece {
    King,
    Queen,
    Rook,
    Bishop,
    Knight,
    Pawn,
}

/// The state a finished or running game is in.
#[derive(Debug, PartialEq, Eq, Clone, Copy, Structural)]
pub enum Outcome {
    Checkmate(Color),
    Stalemate,
    InProgress,
}

/// A position. Bit `x + 8 * y` of each bitboard stands for the square in
/// column `x` (0..8) and row `y` (0..8); white pieces start on rows 6 and 7
/// and white pawns move toward row 0.
#[derive(Clone, Copy)]
pub struct Schach {
    pub active_player: Color,
    pub black_pawns: u64,
    pub white_pawns: u64,
    pub black_king: u64,
    pub white_king: u64,
    pub black_queen: u64,
    pub white_queen: u64,
    pub black_bishops: u64,
    pub white_bishops: u64,
    pub black_knights: u64,
    pub white_knights: u64,
    pub black_rooks: u64,
    pub white_rooks: u64,
    pub castle: u64,
    pub en_passant: Option<(i32, i32)>,
    pub fifty_move: u32,
}

/// Whether `(x, y)` is a square of the board.
pub open spec fn in_b(x: int, y: int) -> bool {
    0 <= x < 8 && 0 <= y < 8
}

/// The bit index of square `(x, y)`.
pub open spec fn sq(x: int, y: int) -> u64 {
    (x + 8 * y) as u64
}

pub proof fn lemma_sq(x: int, y: int)
    requires
        in_b(x, y),
    ensures
        sq(x, y) < 64,
        sq(x, y) == x + 8 * y,
{
}

/// Square indices agree only on the same square.
pub proof fn lemma_sq_inj(x: int, y: int, a: int, b: int)
    requires
        in_b(x, y),
        in_b(a, b),
        sq(x, y) == sq(a, b),
    ensures
        x == a && y == b,
{
}

/// The bitboard that holds the pieces of kind `p` and color `c`.
pub open spec fn board_of(b: Schach, c: Color, p: Piece) -> u64 {
    match (p, c) {
        (Piece::King, Color::White) => b.white_king,
        (Piece::King, Color::Black) => b.black_king,
        (Piece::Queen, Color::White) => b.white_queen,
        (Piece::Queen, Color::Black) => b.black_queen,
        (Piece::Rook, Color::White) => b.white_rooks,
        (Piece::Rook, Color::Black) => b.black_rooks,
        (Piece::Bishop, Color::White) => b.white_bishops,
        (Piece::Bishop, Color::Black) => b.black_bishops,
        (Piece::Knight, Color::White) => b.white_knights,
        (Piece::Knight, Color::Black) => b.black_knights,
        (Piece::Pawn, Color::White) => b.white_pawns,
        (Piece::Pawn, Color::Black) => b.black_pawns,
    }
}

/// The twelve bitboards in a fixed order, for stating disjointness.
pub open spec fn nth_bb(b: Schach, i: int) -> u64 {
    if i == 0 {
        b.black_pawns
    } else if i == 1 {
        b.white_pawns
    } else if i == 2 {
        b.black_bishops
    } else if i == 3 {
        b.white_bishops
    } else if i == 4 {
        b.black_knights
    } else if i == 5 {
        b.white_knights
    } else if i == 6 {
        b.black_rooks
    } else if i == 7 {
        b.white_rooks
    } else if i == 8 {
        b.black_king
    } else if i == 9 {
        b.white_king
    } else if i == 10 {
        b.black_queen
    } else {
        b.white_queen
    }
}

/// The position in the fixed board order of color `c`, kind `p`.
pub open spec fn bb_index(c: Color, p: Piece) -> int {
    match (p, c) {
        (Piece::Pawn, Color::Black) => 0,
        (Piece::Pawn, Color::White) => 1,
        (Piece::Bishop, Color::Black) => 2,
        (Piece::Bishop, Color::White) => 3,
        (Piece::Knight, Color::Black) => 4,
        (Piece::Knight, Color::White) => 5,
        (Piece::Rook, Color::Black) => 6,
        (Piece::Rook, Color::White) => 7,
        (Piece::King, Color::Black) => 8,
        (Piece::King, Color::White) => 9,
        (Piece::Queen, Color::Black) => 10,
        (Piece::Queen, Color::White) => 11,
    }
}

/// The piece standing on `(x, y)`, if any. Boards are consulted in a fixed
/// order; on a well-formed position at most one of them holds the square.
pub open spec fn piece_at(b: Schach, x: int, y: int) -> Option<(Piece, Color)> {
    if !in_b(x, y) {
        Option::None
    } else {
        let s = sq(x, y);
        if bit_set(b.black_pawns, s) {
            Option::Some((Piece::Pawn, Color::Black))
        } else if bit_set(b.white_pawns, s) {
            Option::Some((Piece::Pawn, Color::White))
        } else if bit_set(b.black_bishops, s) {
            Option::Some((Piece::Bishop, Color::Black))
        } else if bit_set(b.white_bishops, s) {
            Option::Some((Piece::Bishop, Color::White))
        } else if bit_set(b.black_knights, s) {
            Option::Some((Piece::Knight, Color::Black))
        } else if bit_set(b.white_knights, s) {
            Option::Some((Piece::Knight, Color::White))
        } else if bit_set(b.black_rooks, s) {
            Option::Some((Piece::Rook, Color::Black))
        } else if bit_set(b.white_rooks, s) {
            Option::Some((Piece::Rook, Color::White))
        } else if bit_set(b.black_king, s) {
            Option::Some((Piece::King, Color::Black))
        } else if bit_set(b.white_king, s) {
            Option::Some((Piece::King, Color::White))
        } else if bit_set(b.black_queen, s) {
            Option::Some((Piece::Queen, Color::Black))
        } else if bit_set(b.white_queen, s) {
            Option::Some((Piece::Queen, Color::White))
        } else {
            Option::None
        }
    }
}

/// The color of the piece on `(x, y)`, if any.
pub open spec fn color_at(b: Schach, x: int, y: int) -> Option<Color> {
    match piece_at(b, x, y) {
        Option::Some((_, c)) => Option::Some(c),
        Option::None => Option::None,
    }
}

/// Whether `(x, y)` is an empty square of the board.
pub open spec fn empty_at(b: Schach, x: int, y: int) -> bool {
    in_b(x, y) && piece_at(b, x, y) is None
}

/// No square is claimed by two of the twelve bitboards.
pub open spec fn disjoint_boards(b: Schach) -> bool {
    forall|i: int, j: int|
        0 <= i < 12 && 0 <= j < 12 && i != j ==> #[trigger] (nth_bb(b, i) & nth_bb(b, j)) == 0
}

/// The en-passant target, when set, names the square a pawn of the side that
/// just moved passed over: an empty square with that pawn right behind it.
pub open spec fn ep_ok(b: Schach) -> bool {
    match b.en_passant {
        Option::None => true,
        Option::Some((ex, ey)) => {
            let x = ex as int;
            let y = ey as int;
            &&& in_b(x, y)
            &&& piece_at(b, x, y) is None
            &&& match b.active_player {
                Color::White => in_b(x, y + 1) && piece_at(b, x, y + 1) == Option::Some(
                    (Piece::Pawn, Color::Black),
                ),
                Color::Black => in_b(x, y - 1) && piece_at(b, x, y - 1) == Option::Some(
                    (Piece::Pawn, Color::White),
                ),
            }
        },
    }
}

/// The en-passant target, when set, is a square of the board.
pub open spec fn ep_in_board(b: Schach) -> bool {
    match b.en_passant {
        Option::None => true,
        Option::Some((ex, ey)) => in_b(ex as int, ey as int),
    }
}

/// Exactly one king a side and a sound en-passant record: what the move
/// generator itself relies on.
pub open spec fn kings_ok(b: Schach) -> bool {
    &&& crate::bits::one_bit(b.white_king)
    &&& crate::bits::one_bit(b.black_king)
    &&& ep_ok(b)
}

/// A well-formed position: disjoint piece sets, exactly one king a side, and
/// a sound en-passant record.
pub open spec fn wf(b: Schach) -> bool {
    &&& disjoint_boards(b)
    &&& kings_ok(b)
}

pub proof fn lemma_ep_ok_in_board(b: Schach)
    requires
        ep_ok(b),
    ensures
        ep_in_board(b),
{
}

/// On a board with disjoint piece sets, a set bit determines the piece.
pub proof fn lemma_bit_to_piece(b: Schach, c: Color, p: Piece, x: int, y: int)
    requires
        disjoint_boards(b),
        in_b(x, y),
        bit_set(board_of(b, c, p), sq(x, y)),
    ensures
        piece_at(b, x, y) == Option::Some((p, c)),
{
    let s = sq(x, y);
    let me = bb_index(c, p);
    assert(nth_bb(b, me) == board_of(b, c, p));
    assert forall|k: int| 0 <= k < 12 && k != me implies #[trigger] (nth_bb(b, k) & (1u64 << s))
        == 0 by {
        assert(nth_bb(b, me) & nth_bb(b, k) == 0);
        lemma_disjoint_bit(nth_bb(b, me), nth_bb(b, k), s);
    }
    if me != 0 {
        assert(nth_bb(b, 0) & (1u64 << s) == 0);
    }
    if me != 1 {
        assert(nth_bb(b, 1) & (1u64 << s) == 0);
    }
    if me != 2 {
        assert(nth_bb(b, 2) & (1u64 << s) == 0);
    }
    if me != 3 {
        assert(nth_bb(b, 3) & (1u64 << s) == 0);
    }
    if me != 4 {
        assert(nth_bb(b, 4) & (1u64 << s) == 0);
    }
    if me != 5 {
        assert(nth_bb(b, 5) & (1u64 << s) == 0);
    }
    if me != 6 {
        assert(nth_bb(b, 6) & (1u64 << s) == 0);
    }
    if me != 7 {
        assert(nth_bb(b, 7) & (1u64 << s) == 0);
    }
    if me != 8 {
        assert(nth_bb(b, 8) & (1u64 << s) == 0);
    }
    if me != 9 {
        assert(nth_bb(b, 9) & (1u64 << s) == 0);
    }
    if me != 10 {
        assert(nth_bb(b, 10) & (1u64 << s) == 0);
    }
    if me != 11 {
        assert(nth_bb(b, 11) & (1u64 << s) == 0);
    }
}

} // verus!

verus! {

/// `b` with a piece of kind `p`, color `c` added on square `s`.
pub open spec fn spec_set_piece(b: Schach, p: Piece, c: Color, s: u64) -> Schach {
    match (p, c) {
        (Piece::King, Color::White) => Schach { white_king: b.white_king | bmask(s), ..b },
        (Piece::King, Color::Black) => Schach { black_king: b.black_king | bmask(s), ..b },
        (Piece::Queen, Color::White) => Schach { white_queen: b.white_queen | bmask(s), ..b },
        (Piece::Queen, Color::Black) => Schach { black_queen: b.black_queen | bmask(s), ..b },
        (Piece::Rook, Color::White) => Schach { white_rooks: b.white_rooks | bmask(s), ..b },
        (Piece::Rook, Color::Black) => Schach { black_rooks: b.black_rooks | bmask(s), ..b },
        (Piece::Bishop, Color::White) => Schach { white_bishops: b.white_bishops | bmask(s), ..b },
        (Piece::Bishop, Color::Black) => Schach { black_bishops: b.black_bishops | bmask(s), ..b },
        (Piece::Knight, Color::White) => Schach { white_knights: b.white_knights | bmask(s), ..b },
        (Piece::Knight, Color::Black) => Schach { black_knights: b.black_knights | bmask(s), ..b },
        (Piece::Pawn, Color::White) => Schach { white_pawns: b.white_pawns | bmask(s), ..b },
        (Piece::Pawn, Color::Black) => Schach { black_pawns: b.black_pawns | bmask(s), ..b },
    }
}

/// `b` with any piece of kind `p`, color `c` removed from square `s`.
pub open spec fn spec_remove_piece(b: Schach, p: Piece, c: Color, s: u64) -> Schach {
    match (p, c) {
        (Piece::King, Color::White) => Schach { white_king: b.white_king & !bmask(s), ..b },
        (Piece::King, Color::Black) => Schach { black_king: b.black_king & !bmask(s), ..b },
        (Piece::Queen, Color::White) => Schach { white_queen: b.white_queen & !bmask(s), ..b },
        (Piece::Queen, Color::Black) => Schach { black_queen: b.black_queen & !bmask(s), ..b },
        (Piece::Rook, Color::White) => Schach { white_rooks: b.white_rooks & !bmask(s), ..b },
        (Piece::Rook, Color::Black) => Schach { black_rooks: b.black_rooks & !bmask(s), ..b },
        (Piece::Bishop, Color::White) => Schach {
            white_bishops: b.white_bishops & !bmask(s),
            ..b
        },
        (Piece::Bishop, Color::Black) => Schach {
            black_bishops: b.black_bishops & !bmask(s),
            ..b
        },
        (Piece::Knight, Color::White) => Schach {
            white_knights: b.white_knights & !bmask(s),
            ..b
        },
        (Piece::Knight, Color::Black) => Schach {
            black_knights: b.black_knights & !bmask(s),
            ..b
        },
        (Piece::Pawn, Color::White) => Schach { white_pawns: b.white_pawns & !bmask(s), ..b },
        (Piece::Pawn, Color::Black) => Schach { black_pawns: b.black_pawns & !bmask(s), ..b },
    }
}

/// `b` with whatever stands on `(x, y)` removed.
pub open spec fn spec_remove_at(b: Schach, x: int, y: int) -> Schach {
    match piece_at(b, x, y) {
        Option::Some((p, c)) => spec_remove_piece(b, p, c, sq(x, y)),
        Option::None => b,
    }
}

/// The twelve bitboards after the piece movement of a move from `(fx, fy)`
/// to `(tx, ty)`: capture, promotion, castling rook relocation and the
/// en-passant removal included.
pub open spec fn spec_move_boards(
    b: Schach,
    p: Piece,
    c: Color,
    fx: int,
    fy: int,
    tx: int,
    ty: int,
) -> Schach {
    let promo = p == Piece::Pawn && (ty == 7 || ty == 0);
    match piece_at(b, tx, ty) {
        Option::Some((pt, ct)) => {
            if promo {
                spec_remove_piece(
                    spec_set_piece(
                        spec_remove_piece(b, pt, ct, sq(tx, ty)),
                        Piece::Queen,
                        c,
                        sq(tx, ty),
                    ),
                    Piece::Pawn,
                    c,
                    sq(fx, fy),
                )
            } else {
                spec_remove_piece(
                    spec_set_piece(spec_remove_piece(b, pt, ct, sq(tx, ty)), p, c, sq(tx, ty)),
                    p,
                    c,
                    sq(fx, fy),
                )
            }
        },
        Option::None => {
            if promo {
                spec_remove_piece(
                    spec_set_piece(b, Piece::Queen, c, sq(tx, ty)),
                    Piece::Pawn,
                    c,
                    sq(fx, fy),
                )
            } else if p == Piece::King && (tx == fx + 2 || fx == tx + 2) && fx == 4 {
                let b1 = spec_remove_piece(
                    spec_set_piece(b, Piece::King, c, sq(tx, ty)),
                    Piece::King,
                    c,
                    sq(fx, fy),
                );
                if tx == fx + 2 {
                    spec_remove_piece(
                        spec_set_piece(b1, Piece::Rook, c, sq(tx - 1, ty)),
                        Piece::Rook,
                        c,
                        sq(fx + 3, fy),
                    )
                } else {
                    spec_remove_piece(
                        spec_set_piece(b1, Piece::Rook, c, sq(tx + 1, ty)),
                        Piece::Rook,
                        c,
                        sq(fx - 4, fy),
                    )
                }
            } else if p == Piece::Pawn && (tx == fx + 1 || fx == tx + 1) {
                let b1 = spec_remove_piece(b, Piece::Pawn, c, sq(fx, fy));
                let b2 = match c {
                    Color::White => spec_remove_at(b1, tx, ty + 1),
                    Color::Black => spec_remove_at(b1, tx, ty - 1),
                };
                spec_set_piece(b2, Piece::Pawn, c, sq(tx, ty))
            } else {
                spec_remove_piece(
                    spec_set_piece(b, p, c, sq(tx, ty)),
                    p,
                    c,
                    sq(fx, fy),
                )
            }
        },
    }
}

/// The position after applying the move from `(fx, fy)` to `(tx, ty)`:
/// a no-op when the source square is empty, otherwise the piece movement
/// together with the new en-passant target, castling rights, half-move
/// clock and side to move.
pub open spec fn spec_apply(b: Schach, fx: int, fy: int, tx: int, ty: int) -> Schach {
    match piece_at(b, fx, fy) {
        Option::None => b,
        Option::Some((p, c)) => {
            let ep1 = if p == Piece::Pawn && (ty == fy + 2 || fy == ty + 2) {
                match c {
                    Color::White => Option::Some((tx as i32, (ty + 1) as i32)),
                    Color::Black => Option::Some((tx as i32, (ty - 1) as i32)),
                }
            } else {
                Option::None
            };
            let clock1 = if p == Piece::Pawn || piece_at(b, tx, ty) is Some {
                0u32
            } else if b.fifty_move < 0xffff_ffffu32 {
                (b.fifty_move + 1) as u32
            } else {
                b.fifty_move
            };
            let cas1 = if p == Piece::Rook || p == Piece::King {
                b.castle & !bmask(sq(fx, fy))
            } else {
                b.castle
            };
            let cas2 = match piece_at(b, tx, ty) {
                Option::Some((Piece::Rook, _)) => cas1 & !bmask(sq(tx, ty)),
                _ => cas1,
            };
            let b1 = spec_move_boards(b, p, c, fx, fy, tx, ty);
            Schach {
                active_player: b.active_player.spec_other(),
                castle: cas2,
                en_passant: ep1,
                fifty_move: clock1,
                ..b1
            }
        },
    }
}

} // verus!

verus! {

impl Schach {
    /// The standard chess starting position.
    pub fn new() -> (r: Schach)
        ensures
            r == start_position(),
    {
        Schach {
            active_player: Color::White,
            black_pawns: 0b00000000_00000000_00000000_00000000_00000000_00000000_11111111_00000000u64,
            white_pawns: 0b00000000_11111111_00000000_00000000_00000000_00000000_00000000_00000000u64,
            black_king: 0b00000000_00000000_00000000_00000000_00000000_00000000_00000000_00010000u64,
            white_king: 0b00010000_00000000_00000000_00000000_00000000_00000000_00000000_00000000u64,
            black_queen: 0b00000000_00000000_00000000_00000000_00000000_00000000_00000000_00001000u64,
            white_queen: 0b00001000_00000000_00000000_00000000_00000000_00000000_00000000_00000000u64,
            black_bishops: 0b00000000_00000000_00000000_00000000_00000000_00000000_00000000_00100100u64,
            white_bishops: 0b00100100_00000000_00000000_00000000_00000000_00000000_00000000_00000000u64,
            black_knights: 0b00000000_00000000_00000000_00000000_00000000_00000000_00000000_01000010u64,
            white_knights: 0b01000010_00000000_00000000_00000000_00000000_00000000_00000000_00000000u64,
            black_rooks: 0b00000000_00000000_00000000_00000000_00000000_00000000_00000000_10000001u64,
            white_rooks: 0b10000001_00000000_00000000_00000000_00000000_00000000_00000000_00000000u64,
            castle: 0b10010001_00000000_00000000_00000000_00000000_00000000_00000000_10010001u64,
            en_passant: Option::None,
            fifty_move: 0,
        }
    }

    /// A board with no pieces, no castling rights, and White to move.
    pub fn empty() -> (r: Schach)
        ensures
            r == empty_position(),
    {
        Schach {
            active_player: Color::White,
            black_pawns: 0,
            white_pawns: 0,
            black_king: 0,
            white_king: 0,
            black_queen: 0,
            white_queen: 0,
            black_bishops: 0,
            white_bishops: 0,
            black_knights: 0,
            white_knights: 0,
            black_rooks: 0,
            white_rooks: 0,
            castle: 0,
            en_passant: Option::None,
            fifty_move: 0,
        }
    }

    /// The piece standing on `(x, y)`, if any.
    pub fn get_piece_at(&self, x: u64, y: u64) -> (r: Option<(Piece, Color)>)
        requires
            x < 8,
            y < 8,
        ensures
            r == piece_at(*self, x as int, y as int),
    {
        let s: u64 = x + 8 * y;
        if test_bit(self.black_pawns, s) {
            Option::Some((Piece::Pawn, Color::Black))
        } else if test_bit(self.white_pawns, s) {
            Option::Some((Piece::Pawn, Color::White))
        } else if test_bit(self.black_bishops, s) {
            Option::Some((Piece::Bishop, Color::Black))
        } else if test_bit(self.white_bishops, s) {
            Option::Some((Piece::Bishop, Color::White))
        } else if test_bit(self.black_knights, s) {
            Option::Some((Piece::Knight, Color::Black))
        } else if test_bit(self.white_knights, s) {
            Option::Some((Piece::Knight, Color::White))
        } else if test_bit(self.black_rooks, s) {
            Option::Some((Piece::Rook, Color::Black))
        } else if test_bit(self.white_rooks, s) {
            Option::Some((Piece::Rook, Color::White))
        } else if test_bit(self.black_king, s) {
            Option::Some((Piece::King, Color::Black))
        } else if test_bit(self.white_king, s) {
            Option::Some((Piece::King, Color::White))
        } else if test_bit(self.black_queen, s) {
            Option::Some((Piece::Queen, Color::Black))
        } else if test_bit(self.white_queen, s) {
            Option::Some((Piece::Queen, Color::White))
        } else {
            Option::None
        }
    }

    /// Put a piece of kind `p`, color `c` on `(x, y)`.
    pub fn set_piece(&mut self, p: &Piece, c: &Color, x: u64, y: u64)
        requires
            x < 8,
            y < 8,
        ensures
            *final(self) == spec_set_piece(*old(self), *p, *c, sq(x as int, y as int)),
    {
        let position: u64 = 1u64 << (x + 8 * y);
        match (p, c) {
            (Piece::King, Color::White) => self.white_king = self.white_king | position,
            (Piece::King, Color::Black) => self.black_king = self.black_king | position,
            (Piece::Queen, Color::White) => self.white_queen = self.white_queen | position,
            (Piece::Queen, Color::Black) => self.black_queen = self.black_queen | position,
            (Piece::Rook, Color::White) => self.white_rooks = self.white_rooks | position,
            (Piece::Rook, Color::Black) => self.black_rooks = self.black_rooks | position,
            (Piece::Bishop, Color::White) => self.white_bishops = self.white_bishops | position,
            (Piece::Bishop, Color::Black) => self.black_bishops = self.black_bishops | position,
            (Piece::Knight, Color::White) => self.white_knights = self.white_knights | position,
            (Piece::Knight, Color::Black) => self.black_knights = self.black_knights | position,
            (Piece::Pawn, Color::White) => self.white_pawns = self.white_pawns | position,
            (Piece::Pawn, Color::Black) => self.black_pawns = self.black_pawns | position,
        }
    }

    /// Take a piece of kind `piece`, color `color` off `(x, y)`.
    pub fn remove_piece_at(&mut self, piece: &Piece, color: &Color, x: u64, y: u64)
        requires
            x < 8,
            y < 8,
        ensures
            *final(self) == spec_remove_piece(*old(self), *piece, *color, sq(x as int, y as int)),
    {
        let position: u64 = 1u64 << (x + 8 * y);
        match (piece, color) {
            (Piece::King, Color::White) => self.white_king = self.white_king & !position,
            (Piece::King, Color::Black) => self.black_king = self.black_king & !position,
            (Piece::Queen, Color::White) => self.white_queen = self.white_queen & !position,
            (Piece::Queen, Color::Black) => self.black_queen = self.black_queen & !position,
            (Piece::Rook, Color::White) => self.white_rooks = self.white_rooks & !position,
            (Piece::Rook, Color::Black) => self.black_rooks = self.black_rooks & !position,
            (Piece::Bishop, Color::White) => self.white_bishops = self.white_bishops & !position,
            (Piece::Bishop, Color::Black) => self.black_bishops = self.black_bishops & !position,
            (Piece::Knight, Color::White) => self.white_knights = self.white_knights & !position,
            (Piece::Knight, Color::Black) => self.black_knights = self.black_knights & !position,
            (Piece::Pawn, Color::White) => self.white_pawns = self.white_pawns & !position,
            (Piece::Pawn, Color::Black) => self.black_pawns = self.black_pawns & !position,
        }
    }

    /// Take whatever stands on `(x, y)` off the board.
    pub fn remove_at(&mut self, x: u64, y: u64)
        requires
            x < 8,
            y < 8,
        ensures
            *final(self) == spec_remove_at(*old(self), x as int, y as int),
    {
        if let Option::Some((p, c)) = self.get_piece_at(x, y) {
            self.remove_piece_at(&p, &c, x, y);
        }
    }

    /// Apply the move from `(from_x, from_y)` to `(to_x, to_y)`: a no-op when
    /// the source square is empty; otherwise the piece moves, captures are
    /// removed, a pawn reaching the last row becomes a queen, a two-column
    /// king move relocates the rook, a one-column pawn move to an empty
    /// square removes the passed pawn, and the en-passant target, castling
    /// rights, half-move clock and side to move are updated.
    #[verifier::rlimit(100)]
    pub fn move_piece(&mut self, from_x: u64, from_y: u64, to_x: u64, to_y: u64)
        requires
            from_x < 8,
            from_y < 8,
            to_x < 8,
            to_y < 8,
        ensures
            *final(self) == spec_apply(*old(self), from_x as int, from_y as int, to_x as int, to_y as int),
    {
        if let Option::Some((p_f, c_f)) = self.get_piece_at(from_x, from_y) {
            let captured = self.get_piece_at(to_x, to_y);
            // En-passant target after the move
            let new_ep: Option<(i32, i32)> = if p_f == Piece::Pawn && (to_y == from_y + 2
                || from_y == to_y + 2) {
                match c_f {
                    Color::White => Option::Some((to_x as i32, to_y as i32 + 1)),
                    Color::Black => Option::Some((to_x as i32, to_y as i32 - 1)),
                }
            } else {
                Option::None
            };
            // Half-move clock: reset by a pawn move or a capture
            let new_clock: u32 = if p_f == Piece::Pawn || captured.is_some() {
                0
            } else if self.fifty_move < 0xffff_ffffu32 {
                self.fifty_move + 1
            } else {
                self.fifty_move
            };
            // Castling rights lost by moving a king or rook off its square,
            // or by capturing a rook on its square
            let mut new_castle: u64 = self.castle;
            if p_f == Piece::Rook || p_f == Piece::King {
                new_castle = new_castle & !(1u64 << (from_x + 8 * from_y));
            }
            if let Option::Some((p_t, _)) = captured {
                if p_t == Piece::Rook {
                    new_castle = new_castle & !(1u64 << (to_x + 8 * to_y));
                }
            }
            if let Option::Some((p_t, c_t)) = captured {
                if p_f == Piece::Pawn && (to_y == 7 || to_y == 0) {
                    self.remove_piece_at(&p_t, &c_t, to_x, to_y);
                    self.set_piece(&Piece::Queen, &c_f, to_x, to_y);
                    self.remove_piece_at(&p_f, &c_f, from_x, from_y);
                } else {
                    self.remove_piece_at(&p_t, &c_t, to_x, to_y);
                    self.set_piece(&p_f, &c_f, to_x, to_y);
                    self.remove_piece_at(&p_f, &c_f, from_x, from_y);
                }
            } else {
                if p_f == Piece::Pawn && (to_y == 7 || to_y == 0) {
                    self.set_piece(&Piece::Queen, &c_f, to_x, to_y);
                    self.remove_piece_at(&p_f, &c_f, from_x, from_y);
                } else if p_f == Piece::King && (to_x == from_x + 2 || from_x == to_x + 2) && from_x == 4 {
                    self.set_piece(&p_f, &c_f, to_x, to_y);
                    self.remove_piece_at(&p_f, &c_f, from_x, from_y);
                    if to_x == from_x + 2 {
                        self.set_piece(&Piece::Rook, &c_f, to_x - 1, to_y);
                        self.remove_piece_at(&Piece::Rook, &c_f, from_x + 3, from_y);
                    } else {
                        self.set_piece(&Piece::Rook, &c_f, to_x + 1, to_y);
                        self.remove_piece_at(&Piece::Rook, &c_f, from_x - 4, from_y);
                    }
                } else if p_f == Piece::Pawn && (to_x == from_x + 1 || from_x == to_x + 1) {
                    // En passant: the passed pawn stands behind the target
                    self.remove_piece_at(&p_f, &c_f, from_x, from_y);
                    match c_f {
                        Color::White => self.remove_at(to_x, to_y + 1),
                        Color::Black => self.remove_at(to_x, to_y - 1),
                    }
                    self.set_piece(&p_f, &c_f, to_x, to_y);
                } else {
                    self.set_piece(&p_f, &c_f, to_x, to_y);
                    self.remove_piece_at(&p_f, &c_f, from_x, from_y);
                }
            }
            self.en_passant = new_ep;
            self.fifty_move = new_clock;
            self.castle = new_castle;
            self.active_player = self.active_player.other();
        }
    }
}

/// The standard starting position as a value.
pub open spec fn start_position() -> Schach {
    Schach {
        active_player: Color::White,
        black_pawns: 0b00000000_00000000_00000000_00000000_00000000_00000000_11111111_00000000u64,
        white_pawns: 0b00000000_11111111_00000000_00000000_00000000_00000000_00000000_00000000u64,
        black_king: 0b00000000_00000000_00000000_00000000_00000000_00000000_00000000_00010000u64,
        white_king: 0b00010000_00000000_00000000_00000000_00000000_00000000_00000000_00000000u64,
        black_queen: 0b00000000_00000000_00000000_00000000_00000000_00000000_00000000_00001000u64,
        white_queen: 0b00001000_00000000_00000000_00000000_00000000_00000000_00000000_00000000u64,
        black_bishops: 0b00000000_00000000_00000000_00000000_00000000_00000000_00000000_00100100u64,
        white_bishops: 0b00100100_00000000_00000000_00000000_00000000_00000000_00000000_00000000u64,
        black_knights: 0b00000000_00000000_00000000_00000000_00000000_00000000_00000000_01000010u64,
        white_knights: 0b01000010_00000000_00000000_00000000_00000000_00000000_00000000_00000000u64,
        black_rooks: 0b00000000_00000000_00000000_00000000_00000000_00000000_00000000_10000001u64,
        white_rooks: 0b10000001_00000000_00000000_00000000_00000000_00000000_00000000_00000000u64,
        castle: 0b10010001_00000000_00000000_00000000_00000000_00000000_00000000_10010001u64,
        en_passant: Option::None,
        fifty_move: 0,
    }
}

/// The empty board as a value.
pub open spec fn empty_position() -> Schach {
    Schach {
        active_player: Color::White,
        black_pawns: 0,
        white_pawns: 0,
        black_king: 0,
        white_king: 0,
        black_queen: 0,
        white_queen: 0,
        black_bishops: 0,
        white_bishops: 0,
        black_knights: 0,
        white_knights: 0,
        black_rooks: 0,
        white_rooks: 0,
        castle: 0,
        en_passant: Option::None,
        fifty_move: 0,
    }
}

} // verus!

verus! {

/// How `spec_set_piece` changes each bitboard: only the board of `(p, c)`
/// gains bit `s`; every other board and every scalar field is untouched.
pub proof fn lemma_board_of_set(b: Schach, p: Piece, c: Color, s: u64, p2: Piece, c2: Color)
    ensures
        board_of(spec_set_piece(b, p, c, s), c2, p2) == if p2 == p && c2 == c {
            board_of(b, c2, p2) | bmask(s)
        } else {
            board_of(b, c2, p2)
        },
        spec_set_piece(b, p, c, s).castle == b.castle,
        spec_set_piece(b, p, c, s).en_passant == b.en_passant,
        spec_set_piece(b, p, c, s).fifty_move == b.fifty_move,
        spec_set_piece(b, p, c, s).active_player == b.active_player,
{
}

/// How `spec_remove_piece` changes each bitboard: only the board of `(p, c)`
/// loses bit `s`; every other board and every scalar field is untouched.
pub proof fn lemma_board_of_remove(b: Schach, p: Piece, c: Color, s: u64, p2: Piece, c2: Color)
    ensures
        board_of(spec_remove_piece(b, p, c, s), c2, p2) == if p2 == p && c2 == c {
            board_of(b, c2, p2) & !bmask(s)
        } else {
            board_of(b, c2, p2)
        },
        spec_remove_piece(b, p, c, s).castle == b.castle,
        spec_remove_piece(b, p, c, s).en_passant == b.en_passant,
        spec_remove_piece(b, p, c, s).fifty_move == b.fifty_move,
        spec_remove_piece(b, p, c, s).active_player == b.active_player,
{
}

/// Adding a piece on one square does not change what stands on another.
pub proof fn lemma_piece_at_set_other(b: Schach, p: Piece, c: Color, s: u64, x: int, y: int)
    requires
        in_b(x, y),
        s < 64,
        sq(x, y) != s,
    ensures
        piece_at(spec_set_piece(b, p, c, s), x, y) == piece_at(b, x, y),
{
    let t = sq(x, y);
    let b2 = spec_set_piece(b, p, c, s);
    crate::bits::lemma_bit_or(b.black_pawns, s, t);
    crate::bits::lemma_bit_or(b.white_pawns, s, t);
    crate::bits::lemma_bit_or(b.black_bishops, s, t);
    crate::bits::lemma_bit_or(b.white_bishops, s, t);
    crate::bits::lemma_bit_or(b.black_knights, s, t);
    crate::bits::lemma_bit_or(b.white_knights, s, t);
    crate::bits::lemma_bit_or(b.black_rooks, s, t);
    crate::bits::lemma_bit_or(b.white_rooks, s, t);
    crate::bits::lemma_bit_or(b.black_king, s, t);
    crate::bits::lemma_bit_or(b.white_king, s, t);
    crate::bits::lemma_bit_or(b.black_queen, s, t);
    crate::bits::lemma_bit_or(b.white_queen, s, t);
}

/// Removing a piece from one square does not change what stands on another.
pub proof fn lemma_piece_at_remove_other(b: Schach, p: Piece, c: Color, s: u64, x: int, y: int)
    requires
        in_b(x, y),
        s < 64,
        sq(x, y) != s,
    ensures
        piece_at(spec_remove_piece(b, p, c, s), x, y) == piece_at(b, x, y),
{
    let t = sq(x, y);
    crate::bits::lemma_bit_clear(b.black_pawns, s, t);
    crate::bits::lemma_bit_clear(b.white_pawns, s, t);
    crate::bits::lemma_bit_clear(b.black_bishops, s, t);
    crate::bits::lemma_bit_clear(b.white_bishops, s, t);
    crate::bits::lemma_bit_clear(b.black_knights, s, t);
    crate::bits::lemma_bit_clear(b.white_knights, s, t);
    crate::bits::lemma_bit_clear(b.black_rooks, s, t);
    crate::bits::lemma_bit_clear(b.white_rooks, s, t);
    crate::bits::lemma_bit_clear(b.black_king, s, t);
    crate::bits::lemma_bit_clear(b.white_king, s, t);
    crate::bits::lemma_bit_clear(b.black_queen, s, t);
    crate::bits::lemma_bit_clear(b.white_queen, s, t);
}

/// Adding a piece on an empty square puts exactly that piece there.
pub proof fn lemma_piece_at_set_same(b: Schach, p: Piece, c: Color, x: int, y: int)
    requires
        in_b(x, y),
        piece_at(b, x, y) is None,
    ensures
        piece_at(spec_set_piece(b, p, c, sq(x, y)), x, y) == Option::Some((p, c)),
{
    let s = sq(x, y);
    crate::bits::lemma_bit_or(b.black_pawns, s, s);
    crate::bits::lemma_bit_or(b.white_pawns, s, s);
    crate::bits::lemma_bit_or(b.black_bishops, s, s);
    crate::bits::lemma_bit_or(b.white_bishops, s, s);
    crate::bits::lemma_bit_or(b.black_knights, s, s);
    crate::bits::lemma_bit_or(b.white_knights, s, s);
    crate::bits::lemma_bit_or(b.black_rooks, s, s);
    crate::bits::lemma_bit_or(b.white_rooks, s, s);
    crate::bits::lemma_bit_or(b.black_king, s, s);
    crate::bits::lemma_bit_or(b.white_king, s, s);
    crate::bits::lemma_bit_or(b.black_queen, s, s);
    crate::bits::lemma_bit_or(b.white_queen, s, s);
}


} // verus!

verus! {

impl Schach {
    /// Every piece on the board, with its color, kind and square.
    pub fn get_positions(&self) -> (r: Vec<(Color, Piece, u64, u64)>)
        ensures
            forall|c: Color, p: Piece, x: u64, y: u64|
                #[trigger] r@.contains((c, p, x, y)) <==> (x < 8 && y < 8 && piece_at(
                    *self,
                    x as int,
                    y as int,
                ) == Option::Some((p, c))),
    {
        let mut result: Vec<(Color, Piece, u64, u64)> = Vec::new();
        let mut x: u64 = 0;
        while x < 8
            invariant
                x <= 8,
                forall|c: Color, p: Piece, a: u64, b: u64|
                    #[trigger] result@.contains((c, p, a, b)) <==> (a < x && b < 8 && piece_at(
                        *self,
                        a as int,
                        b as int,
                    ) == Option::Some((p, c))),
            decreases 8 - x,
        {
            let mut y: u64 = 0;
            while y < 8
                invariant
                    x < 8,
                    y <= 8,
                    forall|c: Color, p: Piece, a: u64, b: u64|
                        #[trigger] result@.contains((c, p, a, b)) <==> ((a < x && b < 8 || a == x
                            && b < y) && piece_at(*self, a as int, b as int) == Option::Some(
                            (p, c),
                        )),
                decreases 8 - y,
            {
                if let Option::Some((p, c)) = self.get_piece_at(x, y) {
                    let ghost oldr = result@;
                    result.push((c, p, x, y));
                    proof {
                        assert forall|c2: Color, p2: Piece, a: u64, b: u64|
                            #[trigger] result@.contains((c2, p2, a, b)) implies (oldr.contains(
                            (c2, p2, a, b),
                        ) || (c2, p2, a, b) == (c, p, x, y)) by {
                            let i = choose|i: int|
                                0 <= i < result@.len() && result@[i] == (c2, p2, a, b);
                            if i < oldr.len() {
                                assert(oldr[i] == (c2, p2, a, b));
                            }
                        }
                        assert forall|c2: Color, p2: Piece, a: u64, b: u64|
                            (oldr.contains((c2, p2, a, b)) || (c2, p2, a, b) == (c, p, x, y))
                            implies #[trigger] result@.contains((c2, p2, a, b)) by {
                            if oldr.contains((c2, p2, a, b)) {
                                let i = choose|i: int| 0 <= i < oldr.len() && oldr[i] == (c2, p2, a, b);
                                assert(result@[i] == (c2, p2, a, b));
                            } else {
                                assert(result@[oldr.len() as int] == (c2, p2, a, b));
                            }
                        }
                    }
                }
                y = y + 1;
            }
            x = x + 1;
        }
        result
    }

    /// Runtime check of the well-formedness invariant: disjoint piece sets,
    /// exactly one king a side, and a sound en-passant record.
    pub fn is_well_formed(&self) -> (r: bool)
        ensures
            r == wf(*self),
    {
        if self.black_pawns & self.white_pawns != 0 {
            proof {
                assert(nth_bb(*self, 0) & nth_bb(*self, 1) != 0);
            }
            return false;
        }
        if self.black_pawns & self.black_bishops != 0 {
            proof {
                assert(nth_bb(*self, 0) & nth_bb(*self, 2) != 0);
            }
            return false;
        }
        if self.black_pawns & self.white_bishops != 0 {
            proof {
                assert(nth_bb(*self, 0) & nth_bb(*self, 3) != 0);
            }
            return false;
        }
        if self.black_pawns & self.black_knights != 0 {
            proof {
                assert(nth_bb(*self, 0) & nth_bb(*self, 4) != 0);
            }
            return false;
        }
        if self.black_pawns & self.white_knights != 0 {
            proof {
                assert(nth_bb(*self, 0) & nth_bb(*self, 5) != 0);
            }
            return false;
        }
        if self.black_pawns & self.black_rooks != 0 {
            proof {
                assert(nth_bb(*self, 0) & nth_bb(*self, 6) != 0);
            }
            return false;
        }
        if self.black_pawns & self.white_rooks != 0 {
            proof {
                assert(nth_bb(*self, 0) & nth_bb(*self, 7) != 0);
            }
            return false;
        }
        if self.black_pawns & self.black_king != 0 {
            proof {
                assert(nth_bb(*self, 0) & nth_bb(*self, 8) != 0);
            }
            return false;
        }
        if self.black_pawns & self.white_king != 0 {
            proof {
                assert(nth_bb(*self, 0) & nth_bb(*self, 9) != 0);
            }
            return false;
        }
        if self.black_pawns & self.black_queen != 0 {
            proof {
                assert(nth_bb(*self, 0) & nth_bb(*self, 10) != 0);
            }
            return false;
        }
        if self.black_pawns & self.white_queen != 0 {
            proof {
                assert(nth_bb(*self, 0) & nth_bb(*self, 11) != 0);
            }
            return false;
        }
        if self.white_pawns & self.black_bishops != 0 {
            proof {
                assert(nth_bb(*self, 1) & nth_bb(*self, 2) != 0);
            }
            return false;
        }
        if self.white_pawns & self.white_bishops != 0 {
            proof {
                assert(nth_bb(*self, 1) & nth_bb(*self, 3) != 0);
            }
            return false;
        }
        if self.white_pawns & self.black_knights != 0 {
            proof {
                assert(nth_bb(*self, 1) & nth_bb(*self, 4) != 0);
            }
            return false;
        }
        if self.white_pawns & self.white_knights != 0 {
            proof {
                assert(nth_bb(*self, 1) & nth_bb(*self, 5) != 0);
            }
            return false;
        }
        if self.white_pawns & self.black_rooks != 0 {
            proof {
                assert(nth_bb(*self, 1) & nth_bb(*self, 6) != 0);
            }
            return false;
        }
        if self.white_pawns & self.white_rooks != 0 {
            proof {
                assert(nth_bb(*self, 1) & nth_bb(*self, 7) != 0);
            }
            return false;
        }
        if self.white_pawns & self.black_king != 0 {
            proof {
                assert(nth_bb(*self, 1) & nth_bb(*self, 8) != 0);
            }
            return false;
        }
        if self.white_pawns & self.white_king != 0 {
            proof {
                assert(nth_bb(*self, 1) & nth_bb(*self, 9) != 0);
            }
            return false;
        }
        if self.white_pawns & self.black_queen != 0 {
            proof {
                assert(nth_bb(*self, 1) & nth_bb(*self, 10) != 0);
            }
            return false;
        }
        if self.white_pawns & self.white_queen != 0 {
            proof {
                assert(nth_bb(*self, 1) & nth_bb(*self, 11) != 0);
            }
            return false;
        }
        if self.black_bishops & self.white_bishops != 0 {
            proof {
                assert(nth_bb(*self, 2) & nth_bb(*self, 3) != 0);
            }
            return false;
        }
        if self.black_bishops & self.black_knights != 0 {
            proof {
                assert(nth_bb(*self, 2) & nth_bb(*self, 4) != 0);
            }
            return false;
        }
        if self.black_bishops & self.white_knights != 0 {
            proof {
                assert(nth_bb(*self, 2) & nth_bb(*self, 5) != 0);
            }
            return false;
        }
        if self.black_bishops & self.black_rooks != 0 {
            proof {
                assert(nth_bb(*self, 2) & nth_bb(*self, 6) != 0);
            }
            return false;
        }
        if self.black_bishops & self.white_rooks != 0 {
            proof {
                assert(nth_bb(*self, 2) & nth_bb(*self, 7) != 0);
            }
            return false;
        }
        if self.black_bishops & self.black_king != 0 {
            proof {
                assert(nth_bb(*self, 2) & nth_bb(*self, 8) != 0);
            }
            return false;
        }
        if self.black_bishops & self.white_king != 0 {
            proof {
                assert(nth_bb(*self, 2) & nth_bb(*self, 9) != 0);
            }
            return false;
        }
        if self.black_bishops & self.black_queen != 0 {
            proof {
                assert(nth_bb(*self, 2) & nth_bb(*self, 10) != 0);
            }
            return false;
        }
        if self.black_bishops & self.white_queen != 0 {
            proof {
                assert(nth_bb(*self, 2) & nth_bb(*self, 11) != 0);
            }
            return false;
        }
        if self.white_bishops & self.black_knights != 0 {
            proof {
                assert(nth_bb(*self, 3) & nth_bb(*self, 4) != 0);
            }
            return false;
        }
        if self.white_bishops & self.white_knights != 0 {
            proof {
                assert(nth_bb(*self, 3) & nth_bb(*self, 5) != 0);
            }
            return false;
        }
        if self.white_bishops & self.black_rooks != 0 {
            proof {
                assert(nth_bb(*self, 3) & nth_bb(*self, 6) != 0);
            }
            return false;
        }
        if self.white_bishops & self.white_rooks != 0 {
            proof {
                assert(nth_bb(*self, 3) & nth_bb(*self, 7) != 0);
            }
            return false;
        }
        if self.white_bishops & self.black_king != 0 {
            proof {
                assert(nth_bb(*self, 3) & nth_bb(*self, 8) != 0);
            }
            return false;
        }
        if self.white_bishops & self.white_king != 0 {
            proof {
                assert(nth_bb(*self, 3) & nth_bb(*self, 9) != 0);
            }
            return false;
        }
        if self.white_bishops & self.black_queen != 0 {
            proof {
                assert(nth_bb(*self, 3) & nth_bb(*self, 10) != 0);
            }
            return false;
        }
        if self.white_bishops & self.white_queen != 0 {
            proof {
                assert(nth_bb(*self, 3) & nth_bb(*self, 11) != 0);
            }
            return false;
        }
        if self.black_knights & self.white_knights != 0 {
            proof {
                assert(nth_bb(*self, 4) & nth_bb(*self, 5) != 0);
            }
            return false;
        }
        if self.black_knights & self.black_rooks != 0 {
            proof {
                assert(nth_bb(*self, 4) & nth_bb(*self, 6) != 0);
            }
            return false;
        }
        if self.black_knights & self.white_rooks != 0 {
            proof {
                assert(nth_bb(*self, 4) & nth_bb(*self, 7) != 0);
            }
            return false;
        }
        if self.black_knights & self.black_king != 0 {
            proof {
                assert(nth_bb(*self, 4) & nth_bb(*self, 8) != 0);
            }
            return false;
        }
        if self.black_knights & self.white_king != 0 {
            proof {
                assert(nth_bb(*self, 4) & nth_bb(*self, 9) != 0);
            }
            return false;
        }
        if self.black_knights & self.black_queen != 0 {
            proof {
                assert(nth_bb(*self, 4) & nth_bb(*self, 10) != 0);
            }
            return false;
        }
        if self.black_knights & self.white_queen != 0 {
            proof {
                assert(nth_bb(*self, 4) & nth_bb(*self, 11) != 0);
            }
            return false;
        }
        if self.white_knights & self.black_rooks != 0 {
            proof {
                assert(nth_bb(*self, 5) & nth_bb(*self, 6) != 0);
            }
            return false;
        }
        if self.white_knights & self.white_rooks != 0 {
            proof {
                assert(nth_bb(*self, 5) & nth_bb(*self, 7) != 0);
            }
            return false;
        }
        if self.white_knights & self.black_king != 0 {
            proof {
                assert(nth_bb(*self, 5) & nth_bb(*self, 8) != 0);
            }
            return false;
        }
        if self.white_knights & self.white_king != 0 {
            proof {
                assert(nth_bb(*self, 5) & nth_bb(*self, 9) != 0);
            }
            return false;
        }
        if self.white_knights & self.black_queen != 0 {
            proof {
                assert(nth_bb(*self, 5) & nth_bb(*self, 10) != 0);
            }
            return false;
        }
        if self.white_knights & self.white_queen != 0 {
            proof {
                assert(nth_bb(*self, 5) & nth_bb(*self, 11) != 0);
            }
            return false;
        }
        if self.black_rooks & self.white_rooks != 0 {
            proof {
                assert(nth_bb(*self, 6) & nth_bb(*self, 7) != 0);
            }
            return false;
        }
        if self.black_rooks & self.black_king != 0 {
            proof {
                assert(nth_bb(*self, 6) & nth_bb(*self, 8) != 0);
            }
            return false;
        }
        if self.black_rooks & self.white_king != 0 {
            proof {
                assert(nth_bb(*self, 6) & nth_bb(*self, 9) != 0);
            }
            return false;
        }
        if self.black_rooks & self.black_queen != 0 {
            proof {
                assert(nth_bb(*self, 6) & nth_bb(*self, 10) != 0);
            }
            return false;
        }
        if self.black_rooks & self.white_queen != 0 {
            proof {
                assert(nth_bb(*self, 6) & nth_bb(*self, 11) != 0);
            }
            return false;
        }
        if self.white_rooks & self.black_king != 0 {
            proof {
                assert(nth_bb(*self, 7) & nth_bb(*self, 8) != 0);
            }
            return false;
        }
        if self.white_rooks & self.white_king != 0 {
            proof {
                assert(nth_bb(*self, 7) & nth_bb(*self, 9) != 0);
            }
            return false;
        }
        if self.white_rooks & self.black_queen != 0 {
            proof {
                assert(nth_bb(*self, 7) & nth_bb(*self, 10) != 0);
            }
            return false;
        }
        if self.white_rooks & self.white_queen != 0 {
            proof {
                assert(nth_bb(*self, 7) & nth_bb(*self, 11) != 0);
            }
            return false;
        }
        if self.black_king & self.white_king != 0 {
            proof {
                assert(nth_bb(*self, 8) & nth_bb(*self, 9) != 0);
            }
            return false;
        }
        if self.black_king & self.black_queen != 0 {
            proof {
                assert(nth_bb(*self, 8) & nth_bb(*self, 10) != 0);
            }
            return false;
        }
        if self.black_king & self.white_queen != 0 {
            proof {
                assert(nth_bb(*self, 8) & nth_bb(*self, 11) != 0);
            }
            return false;
        }
        if self.white_king & self.black_queen != 0 {
            proof {
                assert(nth_bb(*self, 9) & nth_bb(*self, 10) != 0);
            }
            return false;
        }
        if self.white_king & self.white_queen != 0 {
            proof {
                assert(nth_bb(*self, 9) & nth_bb(*self, 11) != 0);
            }
            return false;
        }
        if self.black_queen & self.white_queen != 0 {
            proof {
                assert(nth_bb(*self, 10) & nth_bb(*self, 11) != 0);
            }
            return false;
        }
        proof {
            assert forall|i: int, j: int| 0 <= i < 12 && 0 <= j < 12 && i != j implies #[trigger] (
            nth_bb(*self, i) & nth_bb(*self, j)) == 0 by {
                crate::bits::lemma_and_comm(nth_bb(*self, i), nth_bb(*self, j));
            }
        }
        if !crate::bits::is_one_bit(self.white_king) {
            return false;
        }
        if !crate::bits::is_one_bit(self.black_king) {
            return false;
        }
        match self.en_passant {
            Option::None => true,
            Option::Some((ex, ey)) => {
                if !(0 <= ex && ex < 8 && 0 <= ey && ey < 8) {
                    return false;
                }
                if self.get_piece_at(ex as u64, ey as u64).is_some() {
                    return false;
                }
                match self.active_player {
                    Color::White => {
                        if ey + 1 >= 8 {
                            return false;
                        }
                        match self.get_piece_at(ex as u64, (ey + 1) as u64) {
                            Option::Some((p2, c2)) => p2 == Piece::Pawn && c2 == Color::Black,
                            Option::None => false,
                        }
                    },
                    Color::Black => {
                        if ey - 1 < 0 {
                            return false;
                        }
                        match self.get_piece_at(ex as u64, (ey - 1) as u64) {
                            Option::Some((p2, c2)) => p2 == Piece::Pawn && c2 == Color::White,
                            Option::None => false,
                        }
                    },
                }
            },
        }
    }

}

} // verus!
