//! The properties the engine guarantees, stated and proved over the move
//! generator's and the board's specifications.
use vstd::prelude::*;

use crate::bits::{bit_set, bmask, lemma_bmask_bits, one_bit};
use crate::board::{
    board_of, color_at, empty_at, ep_ok, in_b, kings_ok, lemma_board_of_remove, lemma_board_of_set,
    lemma_piece_at_remove_other, lemma_piece_at_set_other, lemma_piece_at_set_same, lemma_sq,
    lemma_sq_inj, piece_at, spec_apply, spec_move_boards, spec_remove_at, spec_remove_piece,
    spec_set_piece, sq, wf, Color, Piece, Schach,
};
use crate::moves::{
    attacked_by, attacks_from, castle_dest, dirs_of, ep_shape, in_check, king_safe,
    lemma_apply_king, move_dest, pawn_dest, pseudo_dest, range_of, ray_dest, vector_dest,
};

verus! {

/// A position the search may stand on: sound kings and en-passant record,
/// and the side that is not to move is not in check (its king cannot be
/// captured).
pub open spec fn searchable(b: Schach) -> bool {
    kings_ok(b) && !in_check(b, b.active_player.spec_other())
}

/// A reachable destination never holds a piece of the mover's own color.
pub proof fn lemma_ray_dest_free(
    b: Schach,
    cx: int,
    cy: int,
    dx: int,
    dy: int,
    range: nat,
    m: Color,
    a: int,
    c: int,
)
    requires
        ray_dest(b, cx, cy, dx, dy, range, m, a, c),
    ensures
        color_at(b, a, c) != Option::Some(m),
    decreases range,
{
    let nx = cx + dx;
    let ny = cy + dy;
    if range > 0 && in_b(nx, ny) && piece_at(b, nx, ny) is None && !(a == nx && c == ny) {
        lemma_ray_dest_free(b, nx, ny, dx, dy, (range - 1) as nat, m, a, c);
    }
}

/// A generated destination never holds a piece of the side to move.
pub proof fn lemma_move_dest_free(b: Schach, x: int, y: int, a: int, c: int)
    requires
        kings_ok(b),
        in_b(x, y),
        move_dest(b, x, y, a, c, true),
    ensures
        color_at(b, a, c) != Option::Some(b.active_player),
{
    let (p, col) = piece_at(b, x, y)->Some_0;
    if pseudo_dest(b, x, y, a, c) {
        if p == Piece::Pawn {
            if in_b(a, c) && color_at(b, a, c) == Option::Some(col) {
                assert(b.en_passant == Option::Some((a as i32, c as i32)));
            }
        } else {
            let i0 = choose|i: int|
                0 <= i < dirs_of(p).len() && #[trigger] ray_dest(
                    b,
                    x,
                    y,
                    dirs_of(p)[i].0 as int,
                    dirs_of(p)[i].1 as int,
                    range_of(p),
                    col,
                    a,
                    c,
                );
            lemma_ray_dest_free(
                b,
                x,
                y,
                dirs_of(p)[i0].0 as int,
                dirs_of(p)[i0].1 as int,
                range_of(p),
                col,
                a,
                c,
            );
        }
    }
}

/// A generated pawn move of en-passant shape matches the recorded target.
pub proof fn lemma_move_dest_ep(b: Schach, x: int, y: int, a: int, c: int)
    requires
        in_b(x, y),
        in_b(a, c),
        move_dest(b, x, y, a, c, true),
        ep_shape(b, x, y, a, c),
    ensures
        b.en_passant == Option::Some((a as i32, c as i32)),
{
    let (p, col) = piece_at(b, x, y)->Some_0;
    assert(p == Piece::Pawn);
    assert(pseudo_dest(b, x, y, a, c));
}

/// Applying a generated move does not move the king of the side that is
/// not moving.
pub proof fn lemma_apply_other_king(b: Schach, fx: int, fy: int, tx: int, ty: int, c: Color)
    requires
        kings_ok(b),
        c == b.active_player,
        in_b(fx, fy),
        in_b(tx, ty),
        color_at(b, fx, fy) == Option::Some(c),
        color_at(b, tx, ty) != Option::Some(c),
        piece_at(b, tx, ty) != Option::Some((Piece::King, c.spec_other())),
        ep_shape(b, fx, fy, tx, ty) ==> b.en_passant == Option::Some((tx as i32, ty as i32)),
    ensures
        board_of(spec_apply(b, fx, fy, tx, ty), c.spec_other(), Piece::King) == board_of(
            b,
            c.spec_other(),
            Piece::King,
        ),
{
    let o = c.spec_other();
    let p = piece_at(b, fx, fy)->Some_0.0;
    let sf = sq(fx, fy);
    let st = sq(tx, ty);
    lemma_sq(fx, fy);
    lemma_sq(tx, ty);
    let b1 = spec_move_boards(b, p, c, fx, fy, tx, ty);
    assert(board_of(spec_apply(b, fx, fy, tx, ty), o, Piece::King) == board_of(
        b1,
        o,
        Piece::King,
    ));
    match piece_at(b, tx, ty) {
        Option::Some((pt, ct)) => {
            assert(!(pt == Piece::King && ct == o));
            let c1 = spec_remove_piece(b, pt, ct, st);
            lemma_board_of_remove(b, pt, ct, st, Piece::King, o);
            if p == Piece::Pawn && (ty == 7 || ty == 0) {
                lemma_board_of_set(c1, Piece::Queen, c, st, Piece::King, o);
                lemma_board_of_remove(
                    spec_set_piece(c1, Piece::Queen, c, st),
                    Piece::Pawn,
                    c,
                    sf,
                    Piece::King,
                    o,
                );
            } else {
                lemma_board_of_set(c1, p, c, st, Piece::King, o);
                lemma_board_of_remove(spec_set_piece(c1, p, c, st), p, c, sf, Piece::King, o);
            }
        },
        Option::None => {
            if p == Piece::Pawn && (ty == 7 || ty == 0) {
                lemma_board_of_set(b, Piece::Queen, c, st, Piece::King, o);
                lemma_board_of_remove(
                    spec_set_piece(b, Piece::Queen, c, st),
                    Piece::Pawn,
                    c,
                    sf,
                    Piece::King,
                    o,
                );
            } else if p == Piece::King && (tx == fx + 2 || fx == tx + 2) && fx == 4 {
                let c1 = spec_set_piece(b, Piece::King, c, st);
                lemma_board_of_set(b, Piece::King, c, st, Piece::King, o);
                lemma_board_of_remove(c1, Piece::King, c, sf, Piece::King, o);
                let c2 = spec_remove_piece(c1, Piece::King, c, sf);
                if tx == fx + 2 {
                    lemma_board_of_set(c2, Piece::Rook, c, sq(tx - 1, ty), Piece::King, o);
                    lemma_board_of_remove(
                        spec_set_piece(c2, Piece::Rook, c, sq(tx - 1, ty)),
                        Piece::Rook,
                        c,
                        sq(fx + 3, fy),
                        Piece::King,
                        o,
                    );
                } else {
                    lemma_board_of_set(c2, Piece::Rook, c, sq(tx + 1, ty), Piece::King, o);
                    lemma_board_of_remove(
                        spec_set_piece(c2, Piece::Rook, c, sq(tx + 1, ty)),
                        Piece::Rook,
                        c,
                        sq(fx - 4, fy),
                        Piece::King,
                        o,
                    );
                }
            } else if p == Piece::Pawn && (tx == fx + 1 || fx == tx + 1) {
                assert(ep_shape(b, fx, fy, tx, ty));
                let c1 = spec_remove_piece(b, Piece::Pawn, c, sf);
                lemma_board_of_remove(b, Piece::Pawn, c, sf, Piece::King, o);
                let by = if c == Color::White {
                    ty + 1
                } else {
                    ty - 1
                };
                assert(in_b(tx, by));
                lemma_sq(tx, by);
                if sq(tx, by) == sf {
                    lemma_sq_inj(fx, fy, tx, by);
                }
                lemma_piece_at_remove_other(b, Piece::Pawn, c, sf, tx, by);
                assert(piece_at(c1, tx, by) == Option::Some((Piece::Pawn, o)));
                let c2 = if c == Color::White {
                    spec_remove_at(c1, tx, ty + 1)
                } else {
                    spec_remove_at(c1, tx, ty - 1)
                };
                assert(c2 == spec_remove_piece(c1, Piece::Pawn, o, sq(tx, by)));
                lemma_board_of_remove(c1, Piece::Pawn, o, sq(tx, by), Piece::King, o);
                lemma_board_of_set(c2, Piece::Pawn, c, st, Piece::King, o);
            } else {
                lemma_board_of_set(b, p, c, st, Piece::King, o);
                lemma_board_of_remove(spec_set_piece(b, p, c, st), p, c, sf, Piece::King, o);
            }
        },
    }
}

/// Applying a generated move keeps the en-passant record sound: the new
/// target, if any, names the square a freshly double-pushed pawn passed
/// over.
pub proof fn lemma_apply_ep_ok(b: Schach, x: int, y: int, a: int, c: int)
    requires
        kings_ok(b),
        in_b(x, y),
        move_dest(b, x, y, a, c, true),
    ensures
        ep_ok(spec_apply(b, x, y, a, c)),
{
    let (p, col) = piece_at(b, x, y)->Some_0;
    let b2 = spec_apply(b, x, y, a, c);
    if p == Piece::Pawn && (c == y + 2 || y == c + 2) {
        // Only a double push from the start row fits the move generator.
        assert(pawn_dest(b, x, y, col, a, c));
        let d: int = match col {
            Color::White => -1,
            Color::Black => 1,
        };
        assert(a == x && c == y + 2 * d && piece_at(b, x, y + d) is None && piece_at(b, x, y + 2
            * d) is None);
        let sf = sq(x, y);
        let st = sq(a, c);
        lemma_sq(x, y);
        lemma_sq(a, c);
        lemma_sq(x, y + d);
        let b3 = spec_set_piece(b, Piece::Pawn, col, st);
        lemma_piece_at_set_same(b, Piece::Pawn, col, a, c);
        if sq(x, y + d) == st {
            lemma_sq_inj(x, y + d, a, c);
        }
        lemma_piece_at_set_other(b, Piece::Pawn, col, st, x, y + d);
        let b4 = spec_remove_piece(b3, Piece::Pawn, col, sf);
        if sf == st {
            lemma_sq_inj(x, y, a, c);
        }
        lemma_piece_at_remove_other(b3, Piece::Pawn, col, sf, a, c);
        if sq(x, y + d) == sf {
            lemma_sq_inj(x, y + d, x, y);
        }
        lemma_piece_at_remove_other(b3, Piece::Pawn, col, sf, x, y + d);
        assert(piece_at(b4, a, c) == Option::Some((Piece::Pawn, col)));
        assert(piece_at(b4, x, y + d) is None);
        assert(spec_move_boards(b, p, col, x, y, a, c) == b4);
        assert(piece_at(b2, a, c) == Option::Some((Piece::Pawn, col)));
        assert(piece_at(b2, x, y + d) is None);
        assert(b2.en_passant == Option::Some((x as i32, (y + d) as i32)));
        assert(ep_ok(b2));
    } else {
        assert(b2.en_passant is None);
    }
}

/// Applying a generated move to a searchable position yields a searchable
/// position: the invariant the search walks under.
pub proof fn lemma_apply_searchable(b: Schach, x: int, y: int, a: int, c: int)
    requires
        searchable(b),
        in_b(x, y),
        move_dest(b, x, y, a, c, true),
    ensures
        searchable(spec_apply(b, x, y, a, c)),
{
    let col = b.active_player;
    let o = col.spec_other();
    let b2 = spec_apply(b, x, y, a, c);
    crate::eval::lemma_move_dest_in_b(b, x, y, a, c, true);
    lemma_move_dest_free(b, x, y, a, c);
    if ep_shape(b, x, y, a, c) {
        lemma_move_dest_ep(b, x, y, a, c);
    }
    // The enemy king cannot be the captured piece: it would already be
    // attacked, against the searchability of `b`.
    if piece_at(b, a, c) == Option::Some((Piece::King, o)) {
        lemma_sq(a, c);
        assert(pseudo_dest(b, x, y, a, c));
        assert(attacks_from(b, x, y, col, a, c));
        assert(attacked_by(b, col, a, c));
        assert(bit_set(board_of(b, o, Piece::King), sq(a, c)));
        assert(in_check(b, o));
        assert(false);
    }
    lemma_apply_king(b, x, y, a, c, col);
    lemma_apply_other_king(b, x, y, a, c, col);
    lemma_apply_ep_ok(b, x, y, a, c);
    assert(one_bit(board_of(b2, col, Piece::King)));
    assert(one_bit(board_of(b2, o, Piece::King)));
    assert(b2.active_player == o && o.spec_other() == col);
    assert(!in_check(b2, col));
    match col {
        Color::White => {
            assert(one_bit(b2.white_king) && one_bit(b2.black_king));
        },
        Color::Black => {
            assert(one_bit(b2.white_king) && one_bit(b2.black_king));
        },
    }
}

/// Applying a move in the move generator's list never leaves the mover's
/// own king attacked.
pub proof fn lemma_legal_moves_safe(b: Schach, x: int, y: int, a: int, c: int)
    requires
        in_b(x, y),
        move_dest(b, x, y, a, c, true),
    ensures
        !in_check(spec_apply(b, x, y, a, c), b.active_player),
{
}

/// A move that is not a double pawn push clears the en-passant target.
pub proof fn lemma_ep_cleared(b: Schach, fx: int, fy: int, tx: int, ty: int)
    requires
        piece_at(b, fx, fy) is Some,
        !(piece_at(b, fx, fy)->Some_0.0 == Piece::Pawn && (ty == fy + 2 || fy == ty + 2)),
    ensures
        spec_apply(b, fx, fy, tx, ty).en_passant is None,
{
}

/// A double pawn push records the square it passed over.
pub proof fn lemma_ep_set_by_double_push(b: Schach, fx: int, fy: int, tx: int, ty: int)
    requires
        piece_at(b, fx, fy) matches Option::Some((p, _)) && p == Piece::Pawn,
        ty == fy + 2 || fy == ty + 2,
    ensures
        piece_at(b, fx, fy)->Some_0.1 == Color::White ==> spec_apply(
            b,
            fx,
            fy,
            tx,
            ty,
        ).en_passant == Option::Some((tx as i32, (ty + 1) as i32)),
        piece_at(b, fx, fy)->Some_0.1 == Color::Black ==> spec_apply(
            b,
            fx,
            fy,
            tx,
            ty,
        ).en_passant == Option::Some((tx as i32, (ty - 1) as i32)),
{
}

/// Without a recorded target no pawn may move diagonally onto an empty
/// square: en passant is open only on the move right after the double push.
pub proof fn lemma_no_ep_without_target(b2: Schach, x: int, y: int, a: int, c: int)
    requires
        b2.en_passant is None,
        piece_at(b2, x, y) matches Option::Some((p, _)) && p == Piece::Pawn,
        in_b(a, c),
        piece_at(b2, a, c) is None,
        a != x,
    ensures
        !pseudo_dest(b2, x, y, a, c),
{
}

/// The row each side's king and rooks start on.
pub open spec fn home_row(col: Color) -> int {
    match col {
        Color::White => 7,
        Color::Black => 0,
    }
}

/// A castling move appears in the move list only with the right bit still
/// held, the squares between king and rook empty, the rook's right bit
/// held, and none of the king's start, transit and destination squares
/// attacked.
pub proof fn lemma_castle_requirements(b: Schach, col: Color, a: int)
    requires
        piece_at(b, 4, home_row(col)) == Option::Some((Piece::King, col)),
        col == b.active_player,
        a == 2 || a == 6,
        move_dest(b, 4, home_row(col), a, home_row(col), true),
    ensures
        bit_set(b.castle, sq(4, home_row(col))),
        a == 2 ==> empty_at(b, 1, home_row(col)) && empty_at(b, 2, home_row(col)) && empty_at(
            b,
            3,
            home_row(col),
        ) && !attacked_by(b, col.spec_other(), 2, home_row(col)) && !attacked_by(
            b,
            col.spec_other(),
            3,
            home_row(col),
        ) && !attacked_by(b, col.spec_other(), 4, home_row(col)) && bit_set(
            b.castle,
            sq(0, home_row(col)),
        ),
        a == 6 ==> empty_at(b, 5, home_row(col)) && empty_at(b, 6, home_row(col)) && !attacked_by(
            b,
            col.spec_other(),
            4,
            home_row(col),
        ) && !attacked_by(b, col.spec_other(), 5, home_row(col)) && !attacked_by(
            b,
            col.spec_other(),
            6,
            home_row(col),
        ) && bit_set(b.castle, sq(7, home_row(col))),
{
    let h = home_row(col);
    if pseudo_dest(b, 4, h, a, h) {
        assert(vector_dest(b, 4, h, Piece::King, col, a, h));
        let i0 = choose|i: int|
            0 <= i < dirs_of(Piece::King).len() && #[trigger] ray_dest(
                b,
                4,
                h,
                dirs_of(Piece::King)[i].0 as int,
                dirs_of(Piece::King)[i].1 as int,
                range_of(Piece::King),
                col,
                a,
                h,
            );
        assert(dirs_of(Piece::King)[0] == (-1i32, -1i32));
        assert(dirs_of(Piece::King)[1] == (-1i32, 0i32));
        assert(dirs_of(Piece::King)[2] == (-1i32, 1i32));
        assert(dirs_of(Piece::King)[3] == (0i32, -1i32));
        assert(dirs_of(Piece::King)[4] == (0i32, 1i32));
        assert(dirs_of(Piece::King)[5] == (1i32, -1i32));
        assert(dirs_of(Piece::King)[6] == (1i32, 0i32));
        assert(dirs_of(Piece::King)[7] == (1i32, 1i32));
        let d1 = dirs_of(Piece::King)[i0].0 as int;
        let d2 = dirs_of(Piece::King)[i0].1 as int;
        assert(range_of(Piece::King) == 1);
        reveal_with_fuel(crate::moves::ray_dest, 3);
        assert(ray_dest(b, 4, h, d1, d2, 1nat, col, a, h));
        assert(-1 <= d1 <= 1);
        assert(a == 4 + d1);
        assert(false);
    }
    assert(castle_dest(b, 4, h, col, a, h));
}

/// With no legal move left, a position that is no draw is checkmate for
/// the other side exactly when the king stands attacked, and stalemate
/// otherwise.
pub proof fn lemma_no_moves_outcome(b: Schach)
    requires
        b.fifty_move < 50,
        !crate::eval::bare_material(b),
        !crate::eval::exists_legal_move(b),
    ensures
        in_check(b, b.active_player) ==> crate::eval::spec_outcome(b)
            == crate::board::Outcome::Checkmate(b.active_player.spec_other()),
        !in_check(b, b.active_player) ==> crate::eval::spec_outcome(b)
            == crate::board::Outcome::Stalemate,
{
}

impl Schach {
    /// Whether the king of color `c` stands on an attacked square.
    pub fn in_check_of(&self, c: &Color) -> (r: bool)
        requires
            kings_ok(*self),
        ensures
            r == in_check(*self, *c),
    {
        let (kx, ky) = self.get_king_pos(c);
        let opp = c.other();
        let chk = self.square_attacked(&opp, kx as u64, ky as u64);
        proof {
            lemma_sq(kx as int, ky as int);
            lemma_bmask_bits(sq(kx as int, ky as int), sq(kx as int, ky as int));
            assert(bit_set(board_of(*self, *c, Piece::King), sq(kx as int, ky as int)));
            if in_check(*self, *c) {
                let (zx, zy) = choose|zx: int, zy: int|
                    in_b(zx, zy) && #[trigger] bit_set(
                        board_of(*self, *c, Piece::King),
                        sq(zx, zy),
                    ) && attacked_by(*self, c.spec_other(), zx, zy);
                lemma_sq(zx, zy);
                lemma_bmask_bits(sq(kx as int, ky as int), sq(zx, zy));
                lemma_sq_inj(zx, zy, kx as int, ky as int);
                assert(chk);
            }
        }
        chk
    }
}

} // verus!

verus! {

/// The half-move clock falls to zero exactly on a pawn move or a capture,
/// and otherwise counts one more (up to the counter's machine limit).
pub proof fn lemma_halfmove_clock(b: Schach, fx: int, fy: int, tx: int, ty: int)
    requires
        in_b(fx, fy),
        in_b(tx, ty),
        piece_at(b, fx, fy) is Some,
        b.fifty_move < 0xffff_ffffu32,
    ensures
        (piece_at(b, fx, fy)->Some_0.0 == Piece::Pawn || piece_at(b, tx, ty) is Some)
            ==> spec_apply(b, fx, fy, tx, ty).fifty_move == 0,
        !(piece_at(b, fx, fy)->Some_0.0 == Piece::Pawn || piece_at(b, tx, ty) is Some)
            ==> spec_apply(b, fx, fy, tx, ty).fifty_move == b.fifty_move + 1,
{
}

} // verus!
