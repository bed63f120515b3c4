//! Game outcome (checkmate, stalemate, draws) and the material evaluation,
//! in centipawns from White's point of view.
use vstd::prelude::*;

use crate::bits::{bit_set, bmask, count_bits, lemma_bmask_bits, lemma_pop_below_bound, one_bit,
    popcount};
use crate::board::{board_of, color_at, in_b, kings_ok, lemma_sq, lemma_sq_inj, piece_at, sq, wf,
    Color, Outcome, Piece, Schach};
use crate::moves::{attacked_by, castle_dest, in_check, move_dest, pawn_dest, pseudo_dest,
    ray_dest, vector_dest};

verus! {

/// Only the two kings are left on the board.
pub open spec fn bare_material(b: Schach) -> bool {
    (b.white_bishops | b.white_queen | b.white_rooks | b.white_pawns | b.white_knights
        | b.black_bishops | b.black_queen | b.black_rooks | b.black_pawns | b.black_knights) == 0
}

/// The side to move has at least one legal move.
pub open spec fn exists_legal_move(b: Schach) -> bool {
    exists|x: int, y: int, a: int, c: int|
        in_b(x, y) && #[trigger] move_dest(b, x, y, a, c, true)
}

/// The outcome of a position: a draw once the half-move clock reaches 50 or
/// only kings remain; otherwise, with no legal move left, checkmate for the
/// other side if the king is attacked and stalemate if not; otherwise the
/// game goes on.
pub open spec fn spec_outcome(b: Schach) -> Outcome {
    if b.fifty_move >= 50 || bare_material(b) {
        Outcome::Stalemate
    } else if exists_legal_move(b) {
        Outcome::InProgress
    } else if in_check(b, b.active_player) {
        Outcome::Checkmate(b.active_player.spec_other())
    } else {
        Outcome::Stalemate
    }
}

/// Material balance in centipawns, positive for White: queen 950, rook 563,
/// bishop 333, knight 305, pawn 100, king 0.
pub open spec fn material(b: Schach) -> int {
    950 * popcount(b.white_queen) + 563 * popcount(b.white_rooks) + 333 * popcount(
        b.white_bishops,
    ) + 305 * popcount(b.white_knights) + 100 * popcount(b.white_pawns) - 950 * popcount(
        b.black_queen,
    ) - 563 * popcount(b.black_rooks) - 333 * popcount(b.black_bishops) - 305 * popcount(
        b.black_knights,
    ) - 100 * popcount(b.black_pawns)
}

/// The static score of a position: a won game counts one thousand pawns for
/// the winner, any draw counts zero, and otherwise the material balance.
pub open spec fn spec_eval(b: Schach) -> int {
    match spec_outcome(b) {
        Outcome::Checkmate(Color::White) => 100000,
        Outcome::Checkmate(Color::Black) => -100000,
        Outcome::Stalemate => 0,
        Outcome::InProgress => material(b),
    }
}

/// Every position's score lies strictly between the search sentinels.
pub proof fn lemma_eval_bounds(b: Schach)
    ensures
        -150000 <= spec_eval(b) <= 150000,
{
    lemma_pop_below_bound(b.white_queen, 64);
    lemma_pop_below_bound(b.white_rooks, 64);
    lemma_pop_below_bound(b.white_bishops, 64);
    lemma_pop_below_bound(b.white_knights, 64);
    lemma_pop_below_bound(b.white_pawns, 64);
    lemma_pop_below_bound(b.black_queen, 64);
    lemma_pop_below_bound(b.black_rooks, 64);
    lemma_pop_below_bound(b.black_bishops, 64);
    lemma_pop_below_bound(b.black_knights, 64);
    lemma_pop_below_bound(b.black_pawns, 64);
}

/// A walk only ever reaches squares of the board.
pub proof fn lemma_ray_dest_in_b(
    b: Schach,
    cx: int,
    cy: int,
    dx: int,
    dy: int,
    range: nat,
    m: Color,
    a: int,
    c: int,
)
    requires
        ray_dest(b, cx, cy, dx, dy, range, m, a, c),
    ensures
        in_b(a, c),
    decreases range,
{
    let nx = cx + dx;
    let ny = cy + dy;
    if range > 0 && in_b(nx, ny) && piece_at(b, nx, ny) is None && !(a == nx && c == ny) {
        lemma_ray_dest_in_b(b, nx, ny, dx, dy, (range - 1) as nat, m, a, c);
    }
}

/// On a well-formed board every generated destination is a board square.
pub proof fn lemma_move_dest_in_b(b: Schach, x: int, y: int, a: int, c: int, f: bool)
    requires
        kings_ok(b),
        in_b(x, y),
        move_dest(b, x, y, a, c, f),
    ensures
        in_b(a, c),
{
    let (p, col) = piece_at(b, x, y)->Some_0;
    if pseudo_dest(b, x, y, a, c) {
        if p == Piece::Pawn {
            if !pawn_dest(b, x, y, col, a, c) {
                assert(false);
            }
        } else {
            let i0 = choose|i: int|
                0 <= i < crate::moves::dirs_of(p).len() && #[trigger] ray_dest(
                    b,
                    x,
                    y,
                    crate::moves::dirs_of(p)[i].0 as int,
                    crate::moves::dirs_of(p)[i].1 as int,
                    crate::moves::range_of(p),
                    col,
                    a,
                    c,
                );
            lemma_ray_dest_in_b(
                b,
                x,
                y,
                crate::moves::dirs_of(p)[i0].0 as int,
                crate::moves::dirs_of(p)[i0].1 as int,
                crate::moves::range_of(p),
                col,
                a,
                c,
            );
        }
    }
}

impl Schach {
    /// The outcome of the position: see `spec_outcome`.
    pub fn get_outcome(&self) -> (r: Outcome)
        requires
            kings_ok(*self),
        ensures
            r == spec_outcome(*self),
    {
        let others = self.white_bishops | self.white_queen | self.white_rooks | self.white_pawns
            | self.white_knights | self.black_bishops | self.black_queen | self.black_rooks
            | self.black_pawns | self.black_knights;
        if self.fifty_move >= 50 || others == 0 {
            return Outcome::Stalemate;
        }
        let mut x: u64 = 0;
        while x < 8
            invariant
                x <= 8,
                kings_ok(*self),
                self.fifty_move < 50,
                !bare_material(*self),
                forall|sx: int, sy: int, p: i32, q: i32|
                    0 <= sx < x && 0 <= sy < 8 ==> !#[trigger] move_dest(
                        *self,
                        sx,
                        sy,
                        p as int,
                        q as int,
                        true,
                    ),
            decreases 8 - x,
        {
            let mut y: u64 = 0;
            while y < 8
                invariant
                    x < 8,
                    y <= 8,
                    kings_ok(*self),
                    self.fifty_move < 50,
                    !bare_material(*self),
                    forall|sx: int, sy: int, p: i32, q: i32|
                        0 <= sx < x && 0 <= sy < 8 ==> !#[trigger] move_dest(
                            *self,
                            sx,
                            sy,
                            p as int,
                            q as int,
                            true,
                        ),
                    forall|sy: int, p: i32, q: i32|
                        0 <= sy < y ==> !#[trigger] move_dest(
                            *self,
                            x as int,
                            sy,
                            p as int,
                            q as int,
                            true,
                        ),
                decreases 8 - y,
            {
                let v = self.get_legal_moves(x, y, 1);
                if v.len() > 0 {
                    proof {
                        assert(v@.contains(v@[0]));
                        let (p0, q0) = v@[0];
                        assert(move_dest(*self, x as int, y as int, p0 as int, q0 as int, true));
                    }
                    return Outcome::InProgress;
                }
                proof {
                    assert forall|p: i32, q: i32|
                        !#[trigger] move_dest(
                            *self,
                            x as int,
                            y as int,
                            p as int,
                            q as int,
                            true,
                        ) by {
                        if move_dest(*self, x as int, y as int, p as int, q as int, true) {
                            assert(v@.contains((p, q)));
                        }
                    }
                }
                y = y + 1;
            }
            x = x + 1;
        }
        proof {
            if exists_legal_move(*self) {
                let (wx, wy, wa, wc) = choose|sx: int, sy: int, a: int, c: int|
                    in_b(sx, sy) && #[trigger] move_dest(*self, sx, sy, a, c, true);
                lemma_move_dest_in_b(*self, wx, wy, wa, wc, true);
                assert(move_dest(*self, wx, wy, (wa as i32) as int, (wc as i32) as int, true));
                assert(false);
            }
        }
        let (kx, ky) = self.get_king_pos(&self.active_player);
        let opp = self.active_player.other();
        let chk = self.square_attacked(&opp, kx as u64, ky as u64);
        proof {
            lemma_sq(kx as int, ky as int);
            lemma_bmask_bits(sq(kx as int, ky as int), sq(kx as int, ky as int));
            assert(bit_set(
                board_of(*self, self.active_player, Piece::King),
                sq(kx as int, ky as int),
            ));
            if chk {
                assert(in_check(*self, self.active_player));
            }
            if in_check(*self, self.active_player) {
                let (zx, zy) = choose|zx: int, zy: int|
                    in_b(zx, zy) && #[trigger] bit_set(
                        board_of(*self, self.active_player, Piece::King),
                        sq(zx, zy),
                    ) && attacked_by(*self, self.active_player.spec_other(), zx, zy);
                lemma_sq(zx, zy);
                lemma_bmask_bits(sq(kx as int, ky as int), sq(zx, zy));
                lemma_sq_inj(zx, zy, kx as int, ky as int);
                assert(chk);
            }
        }
        if chk {
            Outcome::Checkmate(opp)
        } else {
            Outcome::Stalemate
        }
    }

    /// The static score of the position, in centipawns for White:
    /// see `spec_eval`.
    pub fn eval_position(&self) -> (r: i64)
        requires
            kings_ok(*self),
        ensures
            r == spec_eval(*self),
    {
        match self.get_outcome() {
            Outcome::Checkmate(Color::White) => 100000,
            Outcome::Checkmate(Color::Black) => -100000,
            Outcome::Stalemate => 0,
            Outcome::InProgress => {
                proof {
                    lemma_eval_bounds(*self);
                    lemma_pop_below_bound(self.white_queen, 64);
                    lemma_pop_below_bound(self.white_rooks, 64);
                    lemma_pop_below_bound(self.white_bishops, 64);
                    lemma_pop_below_bound(self.white_knights, 64);
                    lemma_pop_below_bound(self.white_pawns, 64);
                    lemma_pop_below_bound(self.black_queen, 64);
                    lemma_pop_below_bound(self.black_rooks, 64);
                    lemma_pop_below_bound(self.black_bishops, 64);
                    lemma_pop_below_bound(self.black_knights, 64);
                    lemma_pop_below_bound(self.black_pawns, 64);
                }
                let wq = count_bits(self.white_queen) as i64;
                let wr = count_bits(self.white_rooks) as i64;
                let wb = count_bits(self.white_bishops) as i64;
                let wn = count_bits(self.white_knights) as i64;
                let wp = count_bits(self.white_pawns) as i64;
                let bq = count_bits(self.black_queen) as i64;
                let br = count_bits(self.black_rooks) as i64;
                let bb = count_bits(self.black_bishops) as i64;
                let bn = count_bits(self.black_knights) as i64;
                let bp = count_bits(self.black_pawns) as i64;
                950 * wq + 563 * wr + 333 * wb + 305 * wn + 100 * wp - 950 * bq - 563 * br - 333
                    * bb - 305 * bn - 100 * bp
            },
        }
    }
}

} // verus!

verus! {

/// A game that is in progress has a legal move.
pub proof fn lemma_outcome_legal(b: Schach)
    requires
        spec_outcome(b) == Outcome::InProgress,
    ensures
        exists_legal_move(b),
{
}

} // verus!
