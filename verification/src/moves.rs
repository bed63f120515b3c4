//! Move generation: pseudo-legal destinations per piece, the attacked-square
//! sweep, check-legality filtering, and the legal-move lists.
use vstd::prelude::*;

use crate::bits::{bit_set, bmask, lemma_bmask_bits, one_bit, test_bit};
use crate::board::{
    board_of, color_at, empty_at, in_b, kings_ok, piece_at, spec_apply, sq, wf, Color, Piece,
    Schach,
};

verus! {

/// Destination `(a, c)` can be reached from `(cx, cy)` walking in direction
/// `(dx, dy)` for up to `range` steps: the walk stops at the board edge and
/// at the first occupied square, which is a destination only for a capture.
pub open spec fn ray_dest(
    b: Schach,
    cx: int,
    cy: int,
    dx: int,
    dy: int,
    range: nat,
    mover: Color,
    a: int,
    c: int,
) -> bool
    decreases range,
{
    if range == 0 {
        false
    } else {
        let nx = cx + dx;
        let ny = cy + dy;
        if !in_b(nx, ny) {
            false
        } else if piece_at(b, nx, ny) is Some {
            a == nx && c == ny && color_at(b, nx, ny) != Option::Some(mover)
        } else {
            (a == nx && c == ny) || ray_dest(b, nx, ny, dx, dy, (range - 1) as nat, mover, a, c)
        }
    }
}

/// The movement directions of each piece kind; pawns are handled apart.
pub open spec fn dirs_of(p: Piece) -> Seq<(i32, i32)> {
    match p {
        Piece::Queen => seq![
            (-1i32, -1i32),
            (-1i32, 0i32),
            (-1i32, 1i32),
            (0i32, -1i32),
            (0i32, 1i32),
            (1i32, -1i32),
            (1i32, 0i32),
            (1i32, 1i32),
        ],
        Piece::King => seq![
            (-1i32, -1i32),
            (-1i32, 0i32),
            (-1i32, 1i32),
            (0i32, -1i32),
            (0i32, 1i32),
            (1i32, -1i32),
            (1i32, 0i32),
            (1i32, 1i32),
        ],
        Piece::Bishop => seq![(-1i32, -1i32), (-1i32, 1i32), (1i32, -1i32), (1i32, 1i32)],
        Piece::Rook => seq![(-1i32, 0i32), (0i32, -1i32), (0i32, 1i32), (1i32, 0i32)],
        Piece::Knight => seq![
            (-1i32, -2i32),
            (-1i32, 2i32),
            (1i32, -2i32),
            (1i32, 2i32),
            (2i32, 1i32),
            (2i32, -1i32),
            (-2i32, 1i32),
            (-2i32, -1i32),
        ],
        Piece::Pawn => seq![],
    }
}

/// How far each piece kind may walk along one of its directions.
pub open spec fn range_of(p: Piece) -> nat {
    match p {
        Piece::Queen => 7,
        Piece::Rook => 7,
        Piece::Bishop => 7,
        Piece::King => 1,
        Piece::Knight => 1,
        Piece::Pawn => 0,
    }
}

/// A destination of a non-pawn piece of kind `p` standing on `(x, y)`.
pub open spec fn vector_dest(
    b: Schach,
    x: int,
    y: int,
    p: Piece,
    mover: Color,
    a: int,
    c: int,
) -> bool {
    exists|i: int|
        0 <= i < dirs_of(p).len() && #[trigger] ray_dest(
            b,
            x,
            y,
            dirs_of(p)[i].0 as int,
            dirs_of(p)[i].1 as int,
            range_of(p),
            mover,
            a,
            c,
        )
}

/// The row a pawn of color `col` starts on, where a two-square push is open.
pub open spec fn pawn_start(col: Color, y: int) -> bool {
    match col {
        Color::White => y == 6,
        Color::Black => y == 1,
    }
}

/// A destination of a pawn of color `col` standing on `(x, y)`: a single or
/// double forward push to empty squares, a diagonal capture of an enemy
/// piece, or a diagonal move onto the current en-passant target.
pub open spec fn pawn_dest(b: Schach, x: int, y: int, col: Color, a: int, c: int) -> bool {
    let d: int = match col {
        Color::White => -1,
        Color::Black => 1,
    };
    ||| (a == x && c == y + d && in_b(x, y + d) && piece_at(b, x, y + d) is None)
    ||| (a == x && c == y + 2 * d && pawn_start(col, y) && in_b(x, y + d) && piece_at(b, x, y + d)
        is None && in_b(x, y + 2 * d) && piece_at(b, x, y + 2 * d) is None)
    ||| ((a == x + 1 || a == x - 1) && c == y + d && in_b(a, c) && (match color_at(b, a, c) {
        Option::Some(cc) => cc != col,
        Option::None => false,
    }))
    ||| ((a == x + 1 || a == x - 1) && c == y + d && b.en_passant == Option::Some(
        (a as i32, c as i32),
    ))
}

/// A pseudo-legal destination of the piece standing on `(x, y)`: movement
/// geometry and blockers only, no check legality and no castling.
pub open spec fn pseudo_dest(b: Schach, x: int, y: int, a: int, c: int) -> bool {
    match piece_at(b, x, y) {
        Option::Some((p, col)) => if p == Piece::Pawn {
            pawn_dest(b, x, y, col, a, c)
        } else {
            vector_dest(b, x, y, p, col, a, c)
        },
        Option::None => false,
    }
}

/// The piece on `(px, py)` is of color `atk` and pseudo-attacks `(a, c)`.
pub open spec fn attacks_from(b: Schach, px: int, py: int, atk: Color, a: int, c: int) -> bool {
    color_at(b, px, py) == Option::Some(atk) && pseudo_dest(b, px, py, a, c)
}

/// Some piece of color `atk` pseudo-attacks square `(a, c)`.
pub open spec fn attacked_by(b: Schach, atk: Color, a: int, c: int) -> bool {
    exists|px: int, py: int| in_b(px, py) && #[trigger] attacks_from(b, px, py, atk, a, c)
}

/// A king of color `col` stands on a square attacked by the other side.
pub open spec fn in_check(b: Schach, col: Color) -> bool {
    exists|kx: int, ky: int|
        in_b(kx, ky) && #[trigger] bit_set(board_of(b, col, Piece::King), sq(kx, ky))
            && attacked_by(b, col.spec_other(), kx, ky)
}

/// Applying the move leaves no king of the mover's color in check.
pub open spec fn king_safe(b: Schach, col: Color, fx: int, fy: int, tx: int, ty: int) -> bool {
    !in_check(spec_apply(b, fx, fy, tx, ty), col)
}

/// A castling destination of the king on `(x, y)`: the king stands on its
/// home square with the right still held, the squares between king and rook
/// are empty, none of the king's start, transit and destination squares is
/// attacked, and the rook's right bit is still held.
pub open spec fn castle_dest(b: Schach, x: int, y: int, col: Color, a: int, c: int) -> bool {
    let home: int = match col {
        Color::White => 7,
        Color::Black => 0,
    };
    &&& x == 4 && y == home && c == home
    &&& bit_set(b.castle, sq(4, home))
    &&& {
        ||| (a == 2 && empty_at(b, 1, home) && empty_at(b, 2, home) && empty_at(b, 3, home)
            && !attacked_by(b, col.spec_other(), 2, home) && !attacked_by(
            b,
            col.spec_other(),
            3,
            home,
        ) && !attacked_by(b, col.spec_other(), 4, home) && bit_set(b.castle, sq(0, home)))
        ||| (a == 6 && empty_at(b, 5, home) && empty_at(b, 6, home) && !attacked_by(
            b,
            col.spec_other(),
            4,
            home,
        ) && !attacked_by(b, col.spec_other(), 5, home) && !attacked_by(
            b,
            col.spec_other(),
            6,
            home,
        ) && bit_set(b.castle, sq(7, home)))
    }
}

/// A destination the move generator reports for the piece on `(x, y)`:
/// the piece belongs to the side to move and the destination is pseudo-legal
/// (in filtered mode: also check-legal, with castling added for the king).
pub open spec fn move_dest(b: Schach, x: int, y: int, a: int, c: int, filtered: bool) -> bool {
    match piece_at(b, x, y) {
        Option::Some((p, col)) => {
            &&& col == b.active_player
            &&& {
                ||| (pseudo_dest(b, x, y, a, c) && (!filtered || king_safe(b, col, x, y, a, c)))
                ||| (filtered && p == Piece::King && castle_dest(b, x, y, col, a, c) && king_safe(
                    b,
                    col,
                    x,
                    y,
                    a,
                    c,
                ))
            }
        },
        Option::None => false,
    }
}

impl Schach {
    /// The square the king of color `c` stands on.
    pub fn get_king_pos(&self, c: &Color) -> (r: (i32, i32))
        requires
            one_bit(board_of(*self, *c, Piece::King)),
        ensures
            in_b(r.0 as int, r.1 as int),
            board_of(*self, *c, Piece::King) == bmask(sq(r.0 as int, r.1 as int)),
    {
        let bb = match c {
            Color::White => self.white_king,
            Color::Black => self.black_king,
        };
        let idx = crate::bits::bit_index(bb);
        ((idx % 8) as i32, (idx / 8) as i32)
    }
}

} // verus!

verus! {

use crate::board::{
    bb_index, disjoint_boards, ep_ok, lemma_board_of_remove, lemma_board_of_set,
    lemma_piece_at_remove_other, lemma_sq, lemma_sq_inj, spec_move_boards, spec_remove_at,
    spec_remove_piece, spec_set_piece,
};

/// The shape of a move that `spec_apply` treats as an en-passant capture.
pub open spec fn ep_shape(b: Schach, fx: int, fy: int, tx: int, ty: int) -> bool {
    &&& piece_at(b, fx, fy) matches Option::Some((p, _)) && p == Piece::Pawn
    &&& (tx == fx + 1 || fx == tx + 1)
    &&& piece_at(b, tx, ty) is None
    &&& ty != 0 && ty != 7
}

/// Moving one's own piece to a square not held by one's own side keeps
/// exactly one king of the mover's color on the board.
pub proof fn lemma_apply_king(b: Schach, fx: int, fy: int, tx: int, ty: int, c: Color)
    requires
        kings_ok(b),
        c == b.active_player,
        in_b(fx, fy),
        in_b(tx, ty),
        color_at(b, fx, fy) == Option::Some(c),
        color_at(b, tx, ty) != Option::Some(c),
        ep_shape(b, fx, fy, tx, ty) ==> b.en_passant == Option::Some((tx as i32, ty as i32)),
    ensures
        one_bit(board_of(spec_apply(b, fx, fy, tx, ty), c, Piece::King)),
{
    let p = piece_at(b, fx, fy)->Some_0.0;
    let sf = sq(fx, fy);
    let st = sq(tx, ty);
    lemma_sq(fx, fy);
    lemma_sq(tx, ty);
    if fx == tx && fy == ty {
        assert(false);
    }
    if sf == st {
        lemma_sq_inj(fx, fy, tx, ty);
    }
    assert(sf != st);
    let b1 = spec_move_boards(b, p, c, fx, fy, tx, ty);
    let after = spec_apply(b, fx, fy, tx, ty);
    assert(board_of(after, c, Piece::King) == board_of(b1, c, Piece::King));
    if p == Piece::King {
        // The king's own board holds exactly the source bit and the move
        // carries it to the destination bit.
        let kb = board_of(b, c, Piece::King);
        assert(bit_set(kb, sf));
        let w = choose|s: u64| s < 64 && kb == (1u64 << s);
        lemma_bmask_bits(w, sf);
        assert(kb == bmask(sf));
        crate::bits::lemma_move_bit(kb, sf, st);
        match piece_at(b, tx, ty) {
            Option::Some((pt, ct)) => {
                let c1 = spec_remove_piece(b, pt, ct, st);
                lemma_board_of_remove(b, pt, ct, st, Piece::King, c);
                lemma_board_of_set(c1, Piece::King, c, st, Piece::King, c);
                lemma_board_of_remove(
                    spec_set_piece(c1, Piece::King, c, st),
                    Piece::King,
                    c,
                    sf,
                    Piece::King,
                    c,
                );
                assert(board_of(b1, c, Piece::King) == bmask(st));
            },
            Option::None => {
                let c1 = spec_set_piece(b, Piece::King, c, st);
                lemma_board_of_set(b, Piece::King, c, st, Piece::King, c);
                lemma_board_of_remove(c1, Piece::King, c, sf, Piece::King, c);
                let c2 = spec_remove_piece(c1, Piece::King, c, sf);
                assert(board_of(c2, c, Piece::King) == bmask(st));
                if (tx == fx + 2 || fx == tx + 2) && fx == 4 {
                    // Castling also relocates a rook; rook boards do not
                    // touch the king's.
                    if tx == fx + 2 {
                        lemma_board_of_set(c2, Piece::Rook, c, sq(tx - 1, ty), Piece::King, c);
                        lemma_board_of_remove(
                            spec_set_piece(c2, Piece::Rook, c, sq(tx - 1, ty)),
                            Piece::Rook,
                            c,
                            sq(fx + 3, fy),
                            Piece::King,
                            c,
                        );
                    } else {
                        lemma_board_of_set(c2, Piece::Rook, c, sq(tx + 1, ty), Piece::King, c);
                        lemma_board_of_remove(
                            spec_set_piece(c2, Piece::Rook, c, sq(tx + 1, ty)),
                            Piece::Rook,
                            c,
                            sq(fx - 4, fy),
                            Piece::King,
                            c,
                        );
                    }
                }
                assert(board_of(b1, c, Piece::King) == bmask(st));
            },
        }
        assert(one_bit(board_of(b1, c, Piece::King)));
    } else {
        // No operation of the move touches the mover's king board.
        match piece_at(b, tx, ty) {
            Option::Some((pt, ct)) => {
                assert(ct != c);
                let c1 = spec_remove_piece(b, pt, ct, st);
                lemma_board_of_remove(b, pt, ct, st, Piece::King, c);
                if p == Piece::Pawn && (ty == 7 || ty == 0) {
                    lemma_board_of_set(c1, Piece::Queen, c, st, Piece::King, c);
                    lemma_board_of_remove(
                        spec_set_piece(c1, Piece::Queen, c, st),
                        Piece::Pawn,
                        c,
                        sf,
                        Piece::King,
                        c,
                    );
                } else {
                    lemma_board_of_set(c1, p, c, st, Piece::King, c);
                    lemma_board_of_remove(
                        spec_set_piece(c1, p, c, st),
                        p,
                        c,
                        sf,
                        Piece::King,
                        c,
                    );
                }
            },
            Option::None => {
                if p == Piece::Pawn && (ty == 7 || ty == 0) {
                    lemma_board_of_set(b, Piece::Queen, c, st, Piece::King, c);
                    lemma_board_of_remove(
                        spec_set_piece(b, Piece::Queen, c, st),
                        Piece::Pawn,
                        c,
                        sf,
                        Piece::King,
                        c,
                    );
                } else if p == Piece::Pawn && (tx == fx + 1 || fx == tx + 1) {
                    // En passant: by the en-passant record, the square behind
                    // the target holds the enemy pawn, never the king.
                    assert(ep_shape(b, fx, fy, tx, ty));
                    let c1 = spec_remove_piece(b, Piece::Pawn, c, sf);
                    lemma_board_of_remove(b, Piece::Pawn, c, sf, Piece::King, c);
                    let by = if c == Color::White {
                        ty + 1
                    } else {
                        ty - 1
                    };
                    assert(in_b(tx, by));
                    lemma_sq(tx, by);
                    if sq(tx, by) == sf {
                        lemma_sq_inj(fx, fy, tx, by);
                    }
                    lemma_piece_at_remove_other(b, Piece::Pawn, c, sf, tx, by);
                    assert(piece_at(c1, tx, by) == Option::Some(
                        (Piece::Pawn, c.spec_other()),
                    ));
                    let c2 = if c == Color::White {
                        spec_remove_at(c1, tx, ty + 1)
                    } else {
                        spec_remove_at(c1, tx, ty - 1)
                    };
                    assert(c2 == spec_remove_piece(c1, Piece::Pawn, c.spec_other(), sq(tx, by)));
                    lemma_board_of_remove(
                        c1,
                        Piece::Pawn,
                        c.spec_other(),
                        sq(tx, by),
                        Piece::King,
                        c,
                    );
                    lemma_board_of_set(c2, Piece::Pawn, c, st, Piece::King, c);
                } else {
                    lemma_board_of_set(b, p, c, st, Piece::King, c);
                    lemma_board_of_remove(
                        spec_set_piece(b, p, c, st),
                        p,
                        c,
                        sf,
                        Piece::King,
                        c,
                    );
                }
            },
        }
        assert(board_of(b1, c, Piece::King) == board_of(b, c, Piece::King));
    }
}

} // verus!

verus! {

/// Square `(a, c)` lies on the walk from `(cx, cy)` in direction `(dx, dy)`
/// within `range` steps, every square up to it lying on the board.
pub open spec fn on_ray(cx: int, cy: int, dx: int, dy: int, a: int, c: int, range: nat) -> bool
    decreases range,
{
    if range == 0 {
        false
    } else {
        let nx = cx + dx;
        let ny = cy + dy;
        in_b(nx, ny) && ((a == nx && c == ny) || on_ray(nx, ny, dx, dy, a, c, (range - 1) as nat))
    }
}

/// A reachable movement destination lies on the walk itself.
pub proof fn lemma_ray_dest_on_ray(
    b: Schach,
    cx: int,
    cy: int,
    dx: int,
    dy: int,
    range: nat,
    m: Color,
    a: int,
    c: int,
)
    requires
        ray_dest(b, cx, cy, dx, dy, range, m, a, c),
    ensures
        on_ray(cx, cy, dx, dy, a, c, range),
    decreases range,
{
    let nx = cx + dx;
    let ny = cy + dy;
    if range > 0 && in_b(nx, ny) && piece_at(b, nx, ny) is None && !(a == nx && c == ny) {
        lemma_ray_dest_on_ray(b, nx, ny, dx, dy, (range - 1) as nat, m, a, c);
    }
}

/// A walk that is on the board may be lengthened by one step.
pub proof fn lemma_on_ray_extend(cx: int, cy: int, dx: int, dy: int, p: int, q: int, k: nat)
    requires
        on_ray(cx, cy, dx, dy, p, q, k),
        in_b(p + dx, q + dy),
    ensures
        on_ray(cx, cy, dx, dy, p + dx, q + dy, (k + 1) as nat),
    decreases k,
{
    let nx = cx + dx;
    let ny = cy + dy;
    if p == nx && q == ny {
        assert(on_ray(nx, ny, dx, dy, p + dx, q + dy, k));
    } else {
        lemma_on_ray_extend(nx, ny, dx, dy, p, q, (k - 1) as nat);
    }
}

/// A longer range reaches every square a shorter one does.
pub proof fn lemma_on_ray_widen(
    cx: int,
    cy: int,
    dx: int,
    dy: int,
    a: int,
    c: int,
    r1: nat,
    r2: nat,
)
    requires
        on_ray(cx, cy, dx, dy, a, c, r1),
        r1 <= r2,
    ensures
        on_ray(cx, cy, dx, dy, a, c, r2),
    decreases r1,
{
    if !(a == cx + dx && c == cy + dy) {
        lemma_on_ray_widen(cx + dx, cy + dy, dx, dy, a, c, (r1 - 1) as nat, (r2 - 1) as nat);
    }
}

/// Walks reverse: if `(a, c)` is reached from `(cx, cy)` going `(dx, dy)`,
/// then `(cx, cy)` is reached from `(a, c)` going the opposite way.
pub proof fn lemma_on_ray_rev(cx: int, cy: int, dx: int, dy: int, a: int, c: int, r: nat)
    requires
        on_ray(cx, cy, dx, dy, a, c, r),
        in_b(cx, cy),
    ensures
        on_ray(a, c, -dx, -dy, cx, cy, r),
    decreases r,
{
    let nx = cx + dx;
    let ny = cy + dy;
    if a == nx && c == ny {
        assert(a + -dx == cx && c + -dy == cy);
    } else {
        lemma_on_ray_rev(nx, ny, dx, dy, a, c, (r - 1) as nat);
        lemma_on_ray_extend(a, c, -dx, -dy, nx, ny, (r - 1) as nat);
    }
}

/// The sixteen directions the king-safety scan walks: the eight unit
/// directions and the eight knight offsets.
pub open spec fn scan_dirs() -> Seq<(i32, i32)> {
    dirs_of(Piece::Queen) + dirs_of(Piece::Knight)
}

/// Every piece that pseudo-attacks an occupied square stands on one of the
/// sixteen scan walks out of that square.
pub proof fn lemma_scan_covers(b: Schach, px: int, py: int, atk: Color, kx: int, ky: int)
    requires
        in_b(px, py),
        in_b(kx, ky),
        piece_at(b, kx, ky) is Some,
        attacks_from(b, px, py, atk, kx, ky),
    ensures
        exists|i: int|
            0 <= i < scan_dirs().len() && #[trigger] on_ray(
                kx,
                ky,
                scan_dirs()[i].0 as int,
                scan_dirs()[i].1 as int,
                px,
                py,
                7,
            ),
{
    assert(scan_dirs().len() == 16);
    assert(scan_dirs()[0] == (-1i32, -1i32));
    assert(scan_dirs()[1] == (-1i32, 0i32));
    assert(scan_dirs()[2] == (-1i32, 1i32));
    assert(scan_dirs()[3] == (0i32, -1i32));
    assert(scan_dirs()[4] == (0i32, 1i32));
    assert(scan_dirs()[5] == (1i32, -1i32));
    assert(scan_dirs()[6] == (1i32, 0i32));
    assert(scan_dirs()[7] == (1i32, 1i32));
    assert(scan_dirs()[8] == (-1i32, -2i32));
    assert(scan_dirs()[9] == (-1i32, 2i32));
    assert(scan_dirs()[10] == (1i32, -2i32));
    assert(scan_dirs()[11] == (1i32, 2i32));
    assert(scan_dirs()[12] == (2i32, 1i32));
    assert(scan_dirs()[13] == (2i32, -1i32));
    assert(scan_dirs()[14] == (-2i32, 1i32));
    assert(scan_dirs()[15] == (-2i32, -1i32));
    let (p, col) = piece_at(b, px, py)->Some_0;
    let e1 = px - kx;
    let e2 = py - ky;
    if p == Piece::Pawn {
        let d: int = match col {
            Color::White => -1,
            Color::Black => 1,
        };
        // Forward pushes need the destination empty, and the destination is
        // occupied here; so the attack is a diagonal capture or en passant.
        assert(kx == px + 1 || kx == px - 1);
        assert(ky == py + d);
        assert(e1 == 1 || e1 == -1);
        assert(e2 == 1 || e2 == -1);
    } else {
        let i0 = choose|i: int|
            0 <= i < dirs_of(p).len() && #[trigger] ray_dest(
                b,
                px,
                py,
                dirs_of(p)[i].0 as int,
                dirs_of(p)[i].1 as int,
                range_of(p),
                col,
                kx,
                ky,
            );
        let d1 = dirs_of(p)[i0].0 as int;
        let d2 = dirs_of(p)[i0].1 as int;
        lemma_ray_dest_on_ray(b, px, py, d1, d2, range_of(p), col, kx, ky);
        lemma_on_ray_rev(px, py, d1, d2, kx, ky, range_of(p));
        lemma_on_ray_widen(kx, ky, -d1, -d2, px, py, range_of(p), 7);
        match p {
            Piece::Queen | Piece::King => {
                assert(dirs_of(p)[0] == (-1i32, -1i32));
                assert(dirs_of(p)[1] == (-1i32, 0i32));
                assert(dirs_of(p)[2] == (-1i32, 1i32));
                assert(dirs_of(p)[3] == (0i32, -1i32));
                assert(dirs_of(p)[4] == (0i32, 1i32));
                assert(dirs_of(p)[5] == (1i32, -1i32));
                assert(dirs_of(p)[6] == (1i32, 0i32));
                assert(dirs_of(p)[7] == (1i32, 1i32));
            },
            Piece::Bishop => {
                assert(dirs_of(p)[0] == (-1i32, -1i32));
                assert(dirs_of(p)[1] == (-1i32, 1i32));
                assert(dirs_of(p)[2] == (1i32, -1i32));
                assert(dirs_of(p)[3] == (1i32, 1i32));
            },
            Piece::Rook => {
                assert(dirs_of(p)[0] == (-1i32, 0i32));
                assert(dirs_of(p)[1] == (0i32, -1i32));
                assert(dirs_of(p)[2] == (0i32, 1i32));
                assert(dirs_of(p)[3] == (1i32, 0i32));
            },
            Piece::Knight => {
                assert(dirs_of(p)[0] == (-1i32, -2i32));
                assert(dirs_of(p)[1] == (-1i32, 2i32));
                assert(dirs_of(p)[2] == (1i32, -2i32));
                assert(dirs_of(p)[3] == (1i32, 2i32));
                assert(dirs_of(p)[4] == (2i32, 1i32));
                assert(dirs_of(p)[5] == (2i32, -1i32));
                assert(dirs_of(p)[6] == (-2i32, 1i32));
                assert(dirs_of(p)[7] == (-2i32, -1i32));
            },
            Piece::Pawn => {
                assert(false);
            },
        }
        assert(on_ray(kx, ky, -d1, -d2, px, py, 7));
        assert(e1 == -(-(e1)));
    }
    // In either case the attacker lies one walk away; name the matching
    // scan direction explicitly.
    if p == Piece::Pawn {
        assert(on_ray(kx, ky, e1, e2, px, py, 7));
        if e1 == -1 && e2 == -1 {
            assert(on_ray(kx, ky, scan_dirs()[0].0 as int, scan_dirs()[0].1 as int, px, py, 7));
        } else if e1 == -1 && e2 == 1 {
            assert(on_ray(kx, ky, scan_dirs()[2].0 as int, scan_dirs()[2].1 as int, px, py, 7));
        } else if e1 == 1 && e2 == -1 {
            assert(on_ray(kx, ky, scan_dirs()[5].0 as int, scan_dirs()[5].1 as int, px, py, 7));
        } else {
            assert(on_ray(kx, ky, scan_dirs()[7].0 as int, scan_dirs()[7].1 as int, px, py, 7));
        }
    } else {
        let d1 = dirs_of(p)[choose|i: int|
            0 <= i < dirs_of(p).len() && #[trigger] ray_dest(
                b,
                px,
                py,
                dirs_of(p)[i].0 as int,
                dirs_of(p)[i].1 as int,
                range_of(p),
                col,
                kx,
                ky,
            )].0 as int;
        let d2 = dirs_of(p)[choose|i: int|
            0 <= i < dirs_of(p).len() && #[trigger] ray_dest(
                b,
                px,
                py,
                dirs_of(p)[i].0 as int,
                dirs_of(p)[i].1 as int,
                range_of(p),
                col,
                kx,
                ky,
            )].1 as int;
        let f1 = -d1;
        let f2 = -d2;
        assert(on_ray(kx, ky, f1, f2, px, py, 7));
        if f1 == -1 && f2 == -1 {
            assert(on_ray(kx, ky, scan_dirs()[0].0 as int, scan_dirs()[0].1 as int, px, py, 7));
        } else if f1 == -1 && f2 == 0 {
            assert(on_ray(kx, ky, scan_dirs()[1].0 as int, scan_dirs()[1].1 as int, px, py, 7));
        } else if f1 == -1 && f2 == 1 {
            assert(on_ray(kx, ky, scan_dirs()[2].0 as int, scan_dirs()[2].1 as int, px, py, 7));
        } else if f1 == 0 && f2 == -1 {
            assert(on_ray(kx, ky, scan_dirs()[3].0 as int, scan_dirs()[3].1 as int, px, py, 7));
        } else if f1 == 0 && f2 == 1 {
            assert(on_ray(kx, ky, scan_dirs()[4].0 as int, scan_dirs()[4].1 as int, px, py, 7));
        } else if f1 == 1 && f2 == -1 {
            assert(on_ray(kx, ky, scan_dirs()[5].0 as int, scan_dirs()[5].1 as int, px, py, 7));
        } else if f1 == 1 && f2 == 0 {
            assert(on_ray(kx, ky, scan_dirs()[6].0 as int, scan_dirs()[6].1 as int, px, py, 7));
        } else if f1 == 1 && f2 == 1 {
            assert(on_ray(kx, ky, scan_dirs()[7].0 as int, scan_dirs()[7].1 as int, px, py, 7));
        } else if f1 == 1 && f2 == 2 {
            assert(on_ray(kx, ky, scan_dirs()[11].0 as int, scan_dirs()[11].1 as int, px, py, 7));
        } else if f1 == 1 && f2 == -2 {
            assert(on_ray(kx, ky, scan_dirs()[10].0 as int, scan_dirs()[10].1 as int, px, py, 7));
        } else if f1 == -1 && f2 == 2 {
            assert(on_ray(kx, ky, scan_dirs()[9].0 as int, scan_dirs()[9].1 as int, px, py, 7));
        } else if f1 == -1 && f2 == -2 {
            assert(on_ray(kx, ky, scan_dirs()[8].0 as int, scan_dirs()[8].1 as int, px, py, 7));
        } else if f1 == 2 && f2 == 1 {
            assert(on_ray(kx, ky, scan_dirs()[12].0 as int, scan_dirs()[12].1 as int, px, py, 7));
        } else if f1 == 2 && f2 == -1 {
            assert(on_ray(kx, ky, scan_dirs()[13].0 as int, scan_dirs()[13].1 as int, px, py, 7));
        } else if f1 == -2 && f2 == 1 {
            assert(on_ray(kx, ky, scan_dirs()[14].0 as int, scan_dirs()[14].1 as int, px, py, 7));
        } else {
            assert(f1 == -2 && f2 == -1);
            assert(on_ray(kx, ky, scan_dirs()[15].0 as int, scan_dirs()[15].1 as int, px, py, 7));
        }
    }
}

} // verus!

verus! {

/// Append one destination to a move list.
fn push_move(v: &mut Vec<(i32, i32)>, m: (i32, i32))
    ensures
        forall|w: (i32, i32)| #[trigger] final(v)@.contains(w) <==> (old(v)@.contains(w) || w == m),
{
    v.push(m);
    proof {
        assert forall|w: (i32, i32)| #[trigger] v@.contains(w) implies (old(v)@.contains(w) || w
            == m) by {
            let i = choose|i: int| 0 <= i < v@.len() && v@[i] == w;
            if i < old(v)@.len() {
                assert(old(v)@[i] == w);
            }
        }
        assert forall|w: (i32, i32)| (old(v)@.contains(w) || w == m) implies #[trigger] v@.contains(
            w,
        ) by {
            if old(v)@.contains(w) {
                let i = choose|i: int| 0 <= i < old(v)@.len() && old(v)@[i] == w;
                assert(v@[i] == w);
            } else {
                assert(v@[old(v)@.len() as int] == w);
            }
        }
    }
}

/// Whether a move list holds a destination.
fn vec_contains(v: &Vec<(i32, i32)>, m: (i32, i32)) -> (r: bool)
    ensures
        r == v@.contains(m),
{
    let mut i: usize = 0;
    while i < v.len()
        invariant
            i <= v@.len(),
            forall|j: int| 0 <= j < i ==> v@[j] != m,
        decreases v@.len() - i,
    {
        if v[i].0 == m.0 && v[i].1 == m.1 {
            assert(v@[i as int] == m);
            return true;
        }
        i = i + 1;
    }
    assert(!v@.contains(m));
    false
}

/// A walk in a real direction never names its own starting square.
pub proof fn lemma_ray_dest_beyond(
    b: Schach,
    cx: int,
    cy: int,
    dx: int,
    dy: int,
    range: nat,
    m: Color,
    a: int,
    c: int,
)
    requires
        ray_dest(b, cx, cy, dx, dy, range, m, a, c),
    ensures
        dx > 0 ==> a > cx,
        dx < 0 ==> a < cx,
        dx == 0 ==> a == cx,
        dy > 0 ==> c > cy,
        dy < 0 ==> c < cy,
        dy == 0 ==> c == cy,
    decreases range,
{
    let nx = cx + dx;
    let ny = cy + dy;
    if range > 0 && in_b(nx, ny) && piece_at(b, nx, ny) is None && !(a == nx && c == ny) {
        lemma_ray_dest_beyond(b, nx, ny, dx, dy, (range - 1) as nat, m, a, c);
    }
}

/// Likewise for the plain walk relation.
pub proof fn lemma_on_ray_beyond(cx: int, cy: int, dx: int, dy: int, a: int, c: int, range: nat)
    requires
        on_ray(cx, cy, dx, dy, a, c, range),
    ensures
        dx > 0 ==> a > cx,
        dx < 0 ==> a < cx,
        dx == 0 ==> a == cx,
        dy > 0 ==> c > cy,
        dy < 0 ==> c < cy,
        dy == 0 ==> c == cy,
    decreases range,
{
    let nx = cx + dx;
    let ny = cy + dy;
    if range > 0 && in_b(nx, ny) && !(a == nx && c == ny) {
        lemma_on_ray_beyond(nx, ny, dx, dy, a, c, (range - 1) as nat);
    }
}

} // verus!

verus! {

impl Schach {
    /// Walk each direction in `moves` from `(x, y)` for up to `range` steps,
    /// collecting the reachable destinations; with `tiefe` nonzero only the
    /// check-legal ones are kept.
    pub(crate) fn generate_moves(
        &self,
        c: &Color,
        x: u64,
        y: u64,
        range: u8,
        tiefe: u8,
        moves: Vec<(i32, i32)>,
    ) -> (r: Vec<(i32, i32)>)
        requires
            x < 8,
            y < 8,
            forall|i: int|
                0 <= i < moves@.len() ==> !((#[trigger] moves@[i]).0 == 0 && moves@[i].1 == 0),
            forall|i: int|
                0 <= i < moves@.len() ==> -2 <= (#[trigger] moves@[i]).0 <= 2 && -2 <= moves@[i].1
                    <= 2,
            tiefe != 0 ==> kings_ok(*self) && *c == self.active_player && (piece_at(
                *self,
                x as int,
                y as int,
            ) matches Option::Some((pp, cc)) && cc == *c && pp != Piece::Pawn),
        ensures
            forall|p: i32, q: i32|
                #[trigger] r@.contains((p, q)) <==> ((exists|i: int|
                    0 <= i < moves@.len() && #[trigger] ray_dest(
                        *self,
                        x as int,
                        y as int,
                        moves@[i].0 as int,
                        moves@[i].1 as int,
                        range as nat,
                        *c,
                        p as int,
                        q as int,
                    )) && (tiefe == 0 || king_safe(
                    *self,
                    *c,
                    x as int,
                    y as int,
                    p as int,
                    q as int,
                ))),
        decreases tiefe as int, 1int,
    {
        let mut result: Vec<(i32, i32)> = Vec::new();
        let mut k: usize = 0;
        while k < moves.len()
            invariant
                x < 8,
                y < 8,
                k <= moves@.len(),
                forall|i: int|
                    0 <= i < moves@.len() ==> !((#[trigger] moves@[i]).0 == 0 && moves@[i].1
                        == 0),
                forall|i: int|
                    0 <= i < moves@.len() ==> -2 <= (#[trigger] moves@[i]).0 <= 2 && -2
                        <= moves@[i].1 <= 2,
                tiefe != 0 ==> kings_ok(*self) && *c == self.active_player && (piece_at(
                    *self,
                    x as int,
                    y as int,
                ) matches Option::Some((pp, cc)) && cc == *c && pp != Piece::Pawn),
                forall|p: i32, q: i32|
                    #[trigger] result@.contains((p, q)) <==> ((exists|i: int|
                        0 <= i < k && #[trigger] ray_dest(
                            *self,
                            x as int,
                            y as int,
                            moves@[i].0 as int,
                            moves@[i].1 as int,
                            range as nat,
                            *c,
                            p as int,
                            q as int,
                        )) && (tiefe == 0 || king_safe(
                        *self,
                        *c,
                        x as int,
                        y as int,
                        p as int,
                        q as int,
                    ))),
            decreases moves@.len() - k,
        {
            let dx = moves[k].0;
            let dy = moves[k].1;
            let mut a: i32 = x as i32;
            let mut b2: i32 = y as i32;
            let mut j: u8 = 0;
            while j < range
                invariant_except_break
                    x < 8,
                    y < 8,
                    j <= range,
                    0 <= a < 8,
                    0 <= b2 < 8,
                    k < moves@.len(),
                    dx == moves@[k as int].0,
                    dy == moves@[k as int].1,
                    !(dx == 0 && dy == 0),
                    -2 <= dx <= 2,
                    -2 <= dy <= 2,
                    tiefe != 0 ==> kings_ok(*self) && *c == self.active_player && (piece_at(
                        *self,
                        x as int,
                        y as int,
                    ) matches Option::Some((pp, cc)) && cc == *c && pp != Piece::Pawn),
                    forall|p: int, q: int|
                        #[trigger] ray_dest(
                            *self,
                            a as int,
                            b2 as int,
                            dx as int,
                            dy as int,
                            (range - j) as nat,
                            *c,
                            p,
                            q,
                        ) ==> ray_dest(
                            *self,
                            x as int,
                            y as int,
                            dx as int,
                            dy as int,
                            range as nat,
                            *c,
                            p,
                            q,
                        ),
                    forall|p: i32, q: i32|
                        #[trigger] result@.contains((p, q)) <==> (((exists|i: int|
                            0 <= i < k && #[trigger] ray_dest(
                                *self,
                                x as int,
                                y as int,
                                moves@[i].0 as int,
                                moves@[i].1 as int,
                                range as nat,
                                *c,
                                p as int,
                                q as int,
                            )) || (ray_dest(
                            *self,
                            x as int,
                            y as int,
                            dx as int,
                            dy as int,
                            range as nat,
                            *c,
                            p as int,
                            q as int,
                        ) && !ray_dest(
                            *self,
                            a as int,
                            b2 as int,
                            dx as int,
                            dy as int,
                            (range - j) as nat,
                            *c,
                            p as int,
                            q as int,
                        ))) && (tiefe == 0 || king_safe(
                            *self,
                            *c,
                            x as int,
                            y as int,
                            p as int,
                            q as int,
                        ))),
                ensures
                    forall|p: i32, q: i32|
                        #[trigger] result@.contains((p, q)) <==> (((exists|i: int|
                            0 <= i < k && #[trigger] ray_dest(
                                *self,
                                x as int,
                                y as int,
                                moves@[i].0 as int,
                                moves@[i].1 as int,
                                range as nat,
                                *c,
                                p as int,
                                q as int,
                            )) || ray_dest(
                            *self,
                            x as int,
                            y as int,
                            dx as int,
                            dy as int,
                            range as nat,
                            *c,
                            p as int,
                            q as int,
                        )) && (tiefe == 0 || king_safe(
                            *self,
                            *c,
                            x as int,
                            y as int,
                            p as int,
                            q as int,
                        ))),
                decreases range - j,
            {
                let na = a + dx;
                let nb = b2 + dy;
                if na >= 8 || nb >= 8 || na < 0 || nb < 0 {
                    proof {
                        assert forall|p: int, q: int|
                            !#[trigger] ray_dest(
                                *self,
                                a as int,
                                b2 as int,
                                dx as int,
                                dy as int,
                                (range - j) as nat,
                                *c,
                                p,
                                q,
                            ) by {}
                    }
                    break ;
                }
                let occ = self.get_piece_at(na as u64, nb as u64);
                if let Option::Some((_, p_c)) = occ {
                    proof {
                        assert forall|p: int, q: int|
                            #[trigger] ray_dest(
                                *self,
                                a as int,
                                b2 as int,
                                dx as int,
                                dy as int,
                                (range - j) as nat,
                                *c,
                                p,
                                q,
                            ) <==> (p == na as int && q == nb as int && color_at(
                                *self,
                                na as int,
                                nb as int,
                            ) != Option::Some(*c)) by {}
                    }
                    if p_c != *c {
                        proof {
                            assert(ray_dest(
                                *self,
                                a as int,
                                b2 as int,
                                dx as int,
                                dy as int,
                                (range - j) as nat,
                                *c,
                                na as int,
                                nb as int,
                            ));
                        }
                        if tiefe == 0 || self.is_valid_move(c, x, y, na as u64, nb as u64) {
                            push_move(&mut result, (na, nb));
                        }
                    }
                    break ;
                }
                if tiefe == 0 || self.is_valid_move(c, x, y, na as u64, nb as u64) {
                    push_move(&mut result, (na, nb));
                }
                proof {
                    assert forall|p: int, q: int|
                        #![trigger ray_dest(*self, a as int, b2 as int, dx as int, dy as int, (range - j) as nat, *c, p, q)]
                        #![trigger ray_dest(*self, na as int, nb as int, dx as int, dy as int, (range - j - 1) as nat, *c, p, q)]
                        (ray_dest(
                            *self,
                            a as int,
                            b2 as int,
                            dx as int,
                            dy as int,
                            (range - j) as nat,
                            *c,
                            p,
                            q,
                        ) <==> ((p == na as int && q == nb as int) || ray_dest(
                            *self,
                            na as int,
                            nb as int,
                            dx as int,
                            dy as int,
                            (range - j - 1) as nat,
                            *c,
                            p,
                            q,
                        ))) by {}
                    assert(ray_dest(
                        *self,
                        a as int,
                        b2 as int,
                        dx as int,
                        dy as int,
                        (range - j) as nat,
                        *c,
                        na as int,
                        nb as int,
                    ));
                }
                proof {
                    assert(!ray_dest(
                        *self,
                        na as int,
                        nb as int,
                        dx as int,
                        dy as int,
                        (range - j - 1) as nat,
                        *c,
                        na as int,
                        nb as int,
                    )) by {
                        if ray_dest(
                            *self,
                            na as int,
                            nb as int,
                            dx as int,
                            dy as int,
                            (range - j - 1) as nat,
                            *c,
                            na as int,
                            nb as int,
                        ) {
                            lemma_ray_dest_beyond(
                                *self,
                                na as int,
                                nb as int,
                                dx as int,
                                dy as int,
                                (range - j - 1) as nat,
                                *c,
                                na as int,
                                nb as int,
                            );
                        }
                    }
                }
                a = na;
                b2 = nb;
                j = j + 1;
            }
            k = k + 1;
            proof {
                assert forall|p: i32, q: i32|
                    ((exists|i: int|
                        0 <= i < k && #[trigger] ray_dest(
                            *self,
                            x as int,
                            y as int,
                            moves@[i].0 as int,
                            moves@[i].1 as int,
                            range as nat,
                            *c,
                            p as int,
                            q as int,
                        )) <==> ((exists|i: int|
                        0 <= i < k - 1 && #[trigger] ray_dest(
                            *self,
                            x as int,
                            y as int,
                            moves@[i].0 as int,
                            moves@[i].1 as int,
                            range as nat,
                            *c,
                            p as int,
                            q as int,
                        )) || ray_dest(
                        *self,
                        x as int,
                        y as int,
                        dx as int,
                        dy as int,
                        range as nat,
                        *c,
                        p as int,
                        q as int,
                    ))) by {
                    if exists|i: int|
                        0 <= i < k && #[trigger] ray_dest(
                            *self,
                            x as int,
                            y as int,
                            moves@[i].0 as int,
                            moves@[i].1 as int,
                            range as nat,
                            *c,
                            p as int,
                            q as int,
                        ) {
                        let i0 = choose|i: int|
                            0 <= i < k && #[trigger] ray_dest(
                                *self,
                                x as int,
                                y as int,
                                moves@[i].0 as int,
                                moves@[i].1 as int,
                                range as nat,
                                *c,
                                p as int,
                                q as int,
                            );
                        assert(i0 < k - 1 || i0 == k - 1);
                    }
                    if ray_dest(
                        *self,
                        x as int,
                        y as int,
                        dx as int,
                        dy as int,
                        range as nat,
                        *c,
                        p as int,
                        q as int,
                    ) {
                        assert(ray_dest(
                            *self,
                            x as int,
                            y as int,
                            moves@[k - 1].0 as int,
                            moves@[k - 1].1 as int,
                            range as nat,
                            *c,
                            p as int,
                            q as int,
                        ));
                    }
                }
            }
        }
        result
    }
}

} // verus!

verus! {

impl Schach {
    /// Whether the piece on `(px, py)`, if it is of color `atk`,
    /// pseudo-attacks the square `(tx, ty)`.
    fn attacks_target(&self, px: u64, py: u64, atk: &Color, tx: u64, ty: u64) -> (r: bool)
        requires
            px < 8,
            py < 8,
            tx < 8,
            ty < 8,
        ensures
            r == attacks_from(*self, px as int, py as int, *atk, tx as int, ty as int),
        decreases 0int, 2int,
    {
        let occ = self.get_piece_at(px, py);
        match occ {
            Option::None => false,
            Option::Some((p, col)) => {
                if col != *atk {
                    return false;
                }
                let ta = tx as i32;
                let tb = ty as i32;
                match p {
                    Piece::Pawn => {
                        let d: i32 = match col {
                            Color::White => -1,
                            Color::Black => 1,
                        };
                        let xi = px as i32;
                        let yi = py as i32;
                        let start = match col {
                            Color::White => py == 6,
                            Color::Black => py == 1,
                        };
                        let mut hit = false;
                        if ta == xi && tb == yi + d && 0 <= yi + d && yi + d < 8 {
                            if self.get_piece_at(px, (yi + d) as u64).is_none() {
                                hit = true;
                            }
                        }
                        if !hit && ta == xi && tb == yi + 2 * d && start && 0 <= yi + d && yi + d
                            < 8 && 0 <= yi + 2 * d && yi + 2 * d < 8 {
                            if self.get_piece_at(px, (yi + d) as u64).is_none()
                                && self.get_piece_at(px, (yi + 2 * d) as u64).is_none() {
                                hit = true;
                            }
                        }
                        if !hit && (ta == xi + 1 || ta == xi - 1) && tb == yi + d {
                            if let Option::Some((_, cc)) = self.get_piece_at(tx, ty) {
                                if cc != col {
                                    hit = true;
                                }
                            }
                        }
                        if !hit && (ta == xi + 1 || ta == xi - 1) && tb == yi + d {
                            if let Option::Some((ex, ey)) = self.en_passant {
                                if ex == ta && ey == tb {
                                    hit = true;
                                }
                            }
                        }
                        proof {
                            if hit {
                                assert(pawn_dest(*self, px as int, py as int, col, tx as int, ty as int));
                            }
                            if pawn_dest(*self, px as int, py as int, col, tx as int, ty as int) {
                                assert(hit);
                            }
                        }
                        hit
                    },
                    Piece::Queen | Piece::King => {
                        let range: u8 = match p {
                            Piece::Queen => 7,
                            _ => 1,
                        };
                        let dirs: Vec<(i32, i32)> = vec![
                            (-1, -1),
                            (-1, 0),
                            (-1, 1),
                            (0, -1),
                            (0, 1),
                            (1, -1),
                            (1, 0),
                            (1, 1),
                        ];
                        proof {
                            assert(dirs@ =~= dirs_of(p));
                        }
                        proof {
                            assert(range as nat == range_of(p));
                        }
                        let ghost ds = dirs@;
                        let v = self.generate_moves(&col, px, py, range, 0, dirs);
                        let r2 = vec_contains(&v, (ta, tb));
                        proof {
                            assert(ds == dirs_of(p));
                            assert(r2 == vector_dest(*self, px as int, py as int, p, col, tx as int, ty as int));
                        }
                        r2
                    },
                    Piece::Bishop => {
                        let dirs: Vec<(i32, i32)> = vec![(-1, -1), (-1, 1), (1, -1), (1, 1)];
                        proof {
                            assert(dirs@ =~= dirs_of(p));
                        }
                        proof {
                            assert(7nat == range_of(p));
                        }
                        let ghost ds = dirs@;
                        let v = self.generate_moves(&col, px, py, 7, 0, dirs);
                        let r2 = vec_contains(&v, (ta, tb));
                        proof {
                            assert(ds == dirs_of(p));
                            assert(r2 == vector_dest(*self, px as int, py as int, p, col, tx as int, ty as int));
                        }
                        r2
                    },
                    Piece::Rook => {
                        let dirs: Vec<(i32, i32)> = vec![(-1, 0), (0, -1), (0, 1), (1, 0)];
                        proof {
                            assert(dirs@ =~= dirs_of(p));
                        }
                        proof {
                            assert(7nat == range_of(p));
                        }
                        let ghost ds = dirs@;
                        let v = self.generate_moves(&col, px, py, 7, 0, dirs);
                        let r2 = vec_contains(&v, (ta, tb));
                        proof {
                            assert(ds == dirs_of(p));
                            assert(r2 == vector_dest(*self, px as int, py as int, p, col, tx as int, ty as int));
                        }
                        r2
                    },
                    Piece::Knight => {
                        let dirs: Vec<(i32, i32)> = vec![
                            (-1, -2),
                            (-1, 2),
                            (1, -2),
                            (1, 2),
                            (2, 1),
                            (2, -1),
                            (-2, 1),
                            (-2, -1),
                        ];
                        proof {
                            assert(dirs@ =~= dirs_of(p));
                        }
                        proof {
                            assert(1nat == range_of(p));
                        }
                        let ghost ds = dirs@;
                        let v = self.generate_moves(&col, px, py, 1, 0, dirs);
                        let r2 = vec_contains(&v, (ta, tb));
                        proof {
                            assert(ds == dirs_of(p));
                            assert(r2 == vector_dest(*self, px as int, py as int, p, col, tx as int, ty as int));
                        }
                        r2
                    },
                }
            },
        }
    }

    /// Whether applying the move from `(from_x, from_y)` to `(to_x, to_y)`
    /// leaves the mover's king unattacked. Instead of sweeping the whole
    /// board, the check walks the eight ray directions and the eight knight
    /// offsets out of the king's square; every possible attacker stands on
    /// one of those walks.
    pub(crate) fn is_valid_move(
        &self,
        c: &Color,
        from_x: u64,
        from_y: u64,
        to_x: u64,
        to_y: u64,
    ) -> (r: bool)
        requires
            kings_ok(*self),
            *c == self.active_player,
            from_x < 8,
            from_y < 8,
            to_x < 8,
            to_y < 8,
            color_at(*self, from_x as int, from_y as int) == Option::Some(*c),
            color_at(*self, to_x as int, to_y as int) != Option::Some(*c),
            ep_shape(*self, from_x as int, from_y as int, to_x as int, to_y as int)
                ==> self.en_passant == Option::Some((to_x as i32, to_y as i32)),
        ensures
            r == king_safe(*self, *c, from_x as int, from_y as int, to_x as int, to_y as int),
        decreases 0int, 5int,
    {
        let mut brett = *self;
        brett.move_piece(from_x, from_y, to_x, to_y);
        proof {
            lemma_apply_king(
                *self,
                from_x as int,
                from_y as int,
                to_x as int,
                to_y as int,
                *c,
            );
        }
        let (king_x, king_y) = brett.get_king_pos(c);
        let atk = c.other();
        let dirs: Vec<(i32, i32)> = vec![
            (-1, -1),
            (-1, 0),
            (-1, 1),
            (0, -1),
            (0, 1),
            (1, -1),
            (1, 0),
            (1, 1),
            (-1, -2),
            (-1, 2),
            (1, -2),
            (1, 2),
            (2, 1),
            (2, -1),
            (-2, 1),
            (-2, -1),
        ];
        proof {
            assert(dirs@ =~= scan_dirs());
        }
        let mut k: usize = 0;
        while k < 16
            invariant
            k <= 16,
            dirs@ =~= scan_dirs(),
            brett == spec_apply(*self, from_x as int, from_y as int, to_x as int, to_y as int),
            in_b(king_x as int, king_y as int),
            board_of(brett, *c, Piece::King) == bmask(sq(king_x as int, king_y as int)),
            atk == c.spec_other(),
            forall|i: int, p: int, q: int|
                0 <= i < k && #[trigger] on_ray(
                    king_x as int,
                    king_y as int,
                    dirs@[i].0 as int,
                    dirs@[i].1 as int,
                    p,
                    q,
                    7,
                ) ==> !(in_b(p, q) && attacks_from(brett, p, q, atk, king_x as int, king_y as int)),
            decreases 16 - k,
        {
            let dx = dirs[k].0;
            let dy = dirs[k].1;
            proof {
                lemma_scan_dirs_vals();
                assert(dirs@[k as int] == scan_dirs()[k as int]);
            }
            let mut a: i32 = king_x;
            let mut b2: i32 = king_y;
            let mut j: u8 = 0;
            while j < 7
                invariant_except_break
                    j <= 7,
                    0 <= a < 8,
                    0 <= b2 < 8,
                    k < 16,
                    dx == dirs@[k as int].0,
                    dy == dirs@[k as int].1,
                    -2 <= dx <= 2,
                    -2 <= dy <= 2,
                    !(dx == 0 && dy == 0),
                    brett == spec_apply(
                        *self,
                        from_x as int,
                        from_y as int,
                        to_x as int,
                        to_y as int,
                    ),
                    in_b(king_x as int, king_y as int),
                    board_of(brett, *c, Piece::King) == bmask(sq(king_x as int, king_y as int)),
                    atk == c.spec_other(),
                    forall|p: int, q: int|
                        #[trigger] on_ray(a as int, b2 as int, dx as int, dy as int, p, q, (7 - j) as nat)
                            ==> on_ray(
                            king_x as int,
                            king_y as int,
                            dx as int,
                            dy as int,
                            p,
                            q,
                            7,
                        ),
                    forall|p: int, q: int|
                        (#[trigger] on_ray(
                            king_x as int,
                            king_y as int,
                            dx as int,
                            dy as int,
                            p,
                            q,
                            7,
                        ) && !on_ray(a as int, b2 as int, dx as int, dy as int, p, q, (7 - j) as nat))
                            ==> !(in_b(p, q) && attacks_from(
                            brett,
                            p,
                            q,
                            atk,
                            king_x as int,
                            king_y as int,
                        )),
                ensures
                    forall|p: int, q: int|
                        #[trigger] on_ray(
                            king_x as int,
                            king_y as int,
                            dx as int,
                            dy as int,
                            p,
                            q,
                            7,
                        ) ==> !(in_b(p, q) && attacks_from(
                            brett,
                            p,
                            q,
                            atk,
                            king_x as int,
                            king_y as int,
                        )),
                decreases 7 - j,
            {
                let na = a + dx;
                let nb = b2 + dy;
                if na >= 8 || nb >= 8 || na < 0 || nb < 0 {
                    proof {
                        assert forall|p: int, q: int|
                            !#[trigger] on_ray(
                                a as int,
                                b2 as int,
                                dx as int,
                                dy as int,
                                p,
                                q,
                                (7 - j) as nat,
                            ) by {}
                    }
                    break ;
                }
                if brett.attacks_target(na as u64, nb as u64, &atk, king_x as u64, king_y as u64) {
                    proof {
                        assert(attacks_from(
                            brett,
                            na as int,
                            nb as int,
                            atk,
                            king_x as int,
                            king_y as int,
                        ));
                        assert(attacked_by(brett, atk, king_x as int, king_y as int));
                        crate::board::lemma_sq(king_x as int, king_y as int);
                        lemma_bmask_bits(sq(king_x as int, king_y as int), sq(king_x as int, king_y as int));
                        assert(bit_set(
                            board_of(brett, *c, Piece::King),
                            sq(king_x as int, king_y as int),
                        ));
                        assert(in_check(brett, *c));
                    }
                    return false;
                }
                proof {
                    assert forall|p: int, q: int|
                        #![trigger on_ray(a as int, b2 as int, dx as int, dy as int, p, q, (7 - j) as nat)]
                        #![trigger on_ray(na as int, nb as int, dx as int, dy as int, p, q, (7 - j - 1) as nat)]
                        (on_ray(a as int, b2 as int, dx as int, dy as int, p, q, (7 - j) as nat)
                            <==> ((p == na as int && q == nb as int) || on_ray(
                            na as int,
                            nb as int,
                            dx as int,
                            dy as int,
                            p,
                            q,
                            (7 - j - 1) as nat,
                        ))) by {}
                    assert(on_ray(
                        a as int,
                        b2 as int,
                        dx as int,
                        dy as int,
                        na as int,
                        nb as int,
                        (7 - j) as nat,
                    ));
                }
                proof {
                    assert(!on_ray(
                        na as int,
                        nb as int,
                        dx as int,
                        dy as int,
                        na as int,
                        nb as int,
                        (7 - j - 1) as nat,
                    )) by {
                        if on_ray(
                            na as int,
                            nb as int,
                            dx as int,
                            dy as int,
                            na as int,
                            nb as int,
                            (7 - j - 1) as nat,
                        ) {
                            lemma_on_ray_beyond(
                                na as int,
                                nb as int,
                                dx as int,
                                dy as int,
                                na as int,
                                nb as int,
                                (7 - j - 1) as nat,
                            );
                        }
                    }
                }
                a = na;
                b2 = nb;
                j = j + 1;
            }
            k = k + 1;
        }
        proof {
            if in_check(brett, *c) {
                let (zx, zy) = choose|kx: int, ky: int|
                    in_b(kx, ky) && #[trigger] bit_set(
                        board_of(brett, *c, Piece::King),
                        sq(kx, ky),
                    ) && attacked_by(brett, c.spec_other(), kx, ky);
                crate::board::lemma_sq(zx, zy);
                crate::board::lemma_sq(king_x as int, king_y as int);
                lemma_bmask_bits(sq(king_x as int, king_y as int), sq(zx, zy));
                crate::board::lemma_sq_inj(zx, zy, king_x as int, king_y as int);
                assert(zx == king_x as int && zy == king_y as int);
                let (px, py) = choose|px: int, py: int|
                    in_b(px, py) && #[trigger] attacks_from(
                        brett,
                        px,
                        py,
                        c.spec_other(),
                        king_x as int,
                        king_y as int,
                    );
                assert(piece_at(brett, king_x as int, king_y as int) is Some) by {
                    lemma_bmask_bits(
                        sq(king_x as int, king_y as int),
                        sq(king_x as int, king_y as int),
                    );
                }
                lemma_scan_covers(brett, px, py, c.spec_other(), king_x as int, king_y as int);
                let i0 = choose|i: int|
                    0 <= i < scan_dirs().len() && #[trigger] on_ray(
                        king_x as int,
                        king_y as int,
                        scan_dirs()[i].0 as int,
                        scan_dirs()[i].1 as int,
                        px,
                        py,
                        7,
                    );
                assert(dirs@[i0] == scan_dirs()[i0]);
                assert(on_ray(
                    king_x as int,
                    king_y as int,
                    dirs@[i0].0 as int,
                    dirs@[i0].1 as int,
                    px,
                    py,
                    7,
                ));
                assert(false);
            }
        }
        true
    }
}

} // verus!

verus! {

/// The sixteen scan directions, listed with their bounds.
pub proof fn lemma_scan_dirs_vals()
    ensures
        scan_dirs().len() == 16,
        forall|i: int|
            0 <= i < 16 ==> -2 <= (#[trigger] scan_dirs()[i]).0 <= 2 && -2 <= scan_dirs()[i].1
                <= 2 && !(scan_dirs()[i].0 == 0 && scan_dirs()[i].1 == 0),
{
    assert(scan_dirs()[0] == (-1i32, -1i32));
    assert(scan_dirs()[1] == (-1i32, 0i32));
    assert(scan_dirs()[2] == (-1i32, 1i32));
    assert(scan_dirs()[3] == (0i32, -1i32));
    assert(scan_dirs()[4] == (0i32, 1i32));
    assert(scan_dirs()[5] == (1i32, -1i32));
    assert(scan_dirs()[6] == (1i32, 0i32));
    assert(scan_dirs()[7] == (1i32, 1i32));
    assert(scan_dirs()[8] == (-1i32, -2i32));
    assert(scan_dirs()[9] == (-1i32, 2i32));
    assert(scan_dirs()[10] == (1i32, -2i32));
    assert(scan_dirs()[11] == (1i32, 2i32));
    assert(scan_dirs()[12] == (2i32, 1i32));
    assert(scan_dirs()[13] == (2i32, -1i32));
    assert(scan_dirs()[14] == (-2i32, 1i32));
    assert(scan_dirs()[15] == (-2i32, -1i32));
}

} // verus!

verus! {

impl Schach {
    /// The destinations of the pawn on `(x, y)`; with `tiefe` nonzero only
    /// the check-legal ones.
    #[verifier::rlimit(100)]
    #[verifier::spinoff_prover]
    pub(crate) fn pawn_moves(&self, c: &Color, x: u64, y: u64, tiefe: u8) -> (r: Vec<(i32, i32)>)
        requires
            x < 8,
            y < 8,
            piece_at(*self, x as int, y as int) == Option::Some((Piece::Pawn, *c)),
            tiefe != 0 ==> kings_ok(*self) && *c == self.active_player,
        ensures
            forall|p: i32, q: i32|
                #[trigger] r@.contains((p, q)) <==> (pawn_dest(
                    *self,
                    x as int,
                    y as int,
                    *c,
                    p as int,
                    q as int,
                ) && (tiefe == 0 || king_safe(
                    *self,
                    *c,
                    x as int,
                    y as int,
                    p as int,
                    q as int,
                ))),
        decreases tiefe as int, 1int,
    {
        let mut result: Vec<(i32, i32)> = Vec::new();
        let direction: i32 = match c {
            Color::White => -1,
            Color::Black => 1,
        };
        let a: i32 = x as i32;
        let mut b2: i32 = y as i32 + direction;
        if b2 < 8 && b2 >= 0 && self.get_piece_at(a as u64, b2 as u64).is_none() {
            if tiefe == 0 || self.is_valid_move(c, x, y, a as u64, b2 as u64) {
                push_move(&mut result, (a, b2));
            }
            if (*c == Color::White && y == 6) || (*c == Color::Black && y == 1) {
                b2 = b2 + direction;
                if b2 < 8 && b2 >= 0 && self.get_piece_at(a as u64, b2 as u64).is_none() {
                    if tiefe == 0 || self.is_valid_move(c, x, y, a as u64, b2 as u64) {
                        push_move(&mut result, (a, b2));
                    }
                }
            }
        }
        let cb: i32 = y as i32 + direction;
        let ca1: i32 = x as i32 + direction;
        if ca1 >= 0 && ca1 < 8 && cb >= 0 && cb < 8 {
            if let Option::Some((_, c_d)) = self.get_piece_at(ca1 as u64, cb as u64) {
                if c_d != *c {
                    if tiefe == 0 || self.is_valid_move(c, x, y, ca1 as u64, cb as u64) {
                        push_move(&mut result, (ca1, cb));
                    }
                }
            }
        }
        let ca2: i32 = x as i32 - direction;
        if ca2 >= 0 && ca2 < 8 && cb >= 0 && cb < 8 {
            if let Option::Some((_, c_d)) = self.get_piece_at(ca2 as u64, cb as u64) {
                if c_d != *c {
                    if tiefe == 0 || self.is_valid_move(c, x, y, ca2 as u64, cb as u64) {
                        push_move(&mut result, (ca2, cb));
                    }
                }
            }
        }
        if let Option::Some((ex, ey)) = self.en_passant {
            let ea1: i32 = x as i32 + 1;
            if ea1 == ex && cb == ey {
                if tiefe == 0 {
                    push_move(&mut result, (ea1, cb));
                } else {
                    if self.is_valid_move(c, x, y, ea1 as u64, cb as u64) {
                        push_move(&mut result, (ea1, cb));
                    }
                }
            }
            let ea2: i32 = x as i32 - 1;
            if ea2 == ex && cb == ey {
                if tiefe == 0 {
                    push_move(&mut result, (ea2, cb));
                } else {
                    if self.is_valid_move(c, x, y, ea2 as u64, cb as u64) {
                        push_move(&mut result, (ea2, cb));
                    }
                }
            }
        }
        result
    }

    /// Whether any piece of color `atk` pseudo-attacks `(ax, ay)`, by
    /// sweeping every square of the board.
    pub(crate) fn square_attacked(&self, atk: &Color, ax: u64, ay: u64) -> (r: bool)
        requires
            ax < 8,
            ay < 8,
        ensures
            r == attacked_by(*self, *atk, ax as int, ay as int),
        decreases 0int, 3int,
    {
        let mut px: u64 = 0;
        while px < 8
            invariant
                px <= 8,
                ax < 8,
                ay < 8,
                forall|sx: int, sy: int|
                    0 <= sx < px && 0 <= sy < 8 ==> !#[trigger] attacks_from(
                        *self,
                        sx,
                        sy,
                        *atk,
                        ax as int,
                        ay as int,
                    ),
            decreases 8 - px,
        {
            let mut py: u64 = 0;
            while py < 8
                invariant
                    px < 8,
                    py <= 8,
                    ax < 8,
                    ay < 8,
                    forall|sx: int, sy: int|
                        0 <= sx < px && 0 <= sy < 8 ==> !#[trigger] attacks_from(
                            *self,
                            sx,
                            sy,
                            *atk,
                            ax as int,
                            ay as int,
                        ),
                    forall|sy: int|
                        0 <= sy < py ==> !#[trigger] attacks_from(
                            *self,
                            px as int,
                            sy,
                            *atk,
                            ax as int,
                            ay as int,
                        ),
                decreases 8 - py,
            {
                if self.attacks_target(px, py, atk, ax, ay) {
                    return true;
                }
                py = py + 1;
            }
            px = px + 1;
        }
        proof {
            if attacked_by(*self, *atk, ax as int, ay as int) {
                let (wx, wy) = choose|sx: int, sy: int|
                    in_b(sx, sy) && #[trigger] attacks_from(*self, sx, sy, *atk, ax as int, ay as int);
                assert(!attacks_from(*self, wx, wy, *atk, ax as int, ay as int));
            }
        }
        false
    }

    /// All destinations of the piece on `(x, y)` for the side to move.
    /// With `tiefe` zero the list is the raw pseudo-legal one (used for the
    /// attacked-square sweeps); otherwise every listed move is check-legal
    /// and castling is included for the king.
    pub fn get_legal_moves(&self, x: u64, y: u64, tiefe: u8) -> (r: Vec<(i32, i32)>)
        requires
            x < 8,
            y < 8,
            tiefe != 0 ==> kings_ok(*self),
        ensures
            forall|p: i32, q: i32|
                #[trigger] r@.contains((p, q)) <==> move_dest(
                    *self,
                    x as int,
                    y as int,
                    p as int,
                    q as int,
                    tiefe != 0,
                ),
        decreases tiefe as int, 6int,
    {
        let piece = self.get_piece_at(x, y);
        match piece {
            Option::None => {
                let r: Vec<(i32, i32)> = Vec::new();
                proof {
                    assert(forall|p: i32, q: i32| !#[trigger] r@.contains((p, q)));
                }
                r
            },
            Option::Some((p, c)) => {
                if c != self.active_player {
                    let r: Vec<(i32, i32)> = Vec::new();
                    proof {
                        assert(forall|p2: i32, q2: i32| !#[trigger] r@.contains((p2, q2)));
                    }
                    return r;
                }
                match p {
                    Piece::Queen => {
                        let dirs: Vec<(i32, i32)> = vec![
                            (-1, -1),
                            (-1, 0),
                            (-1, 1),
                            (0, -1),
                            (0, 1),
                            (1, -1),
                            (1, 0),
                            (1, 1),
                        ];
                        proof {
                            assert(dirs@ =~= dirs_of(p));
                            assert(7nat == range_of(p));
                        }
                        self.generate_moves(&c, x, y, 7, tiefe, dirs)
                    },
                    Piece::Bishop => {
                        let dirs: Vec<(i32, i32)> = vec![(-1, -1), (-1, 1), (1, -1), (1, 1)];
                        proof {
                            assert(dirs@ =~= dirs_of(p));
                            assert(7nat == range_of(p));
                        }
                        self.generate_moves(&c, x, y, 7, tiefe, dirs)
                    },
                    Piece::Knight => {
                        let dirs: Vec<(i32, i32)> = vec![
                            (-1, -2),
                            (-1, 2),
                            (1, -2),
                            (1, 2),
                            (2, 1),
                            (2, -1),
                            (-2, 1),
                            (-2, -1),
                        ];
                        proof {
                            assert(dirs@ =~= dirs_of(p));
                            assert(1nat == range_of(p));
                        }
                        self.generate_moves(&c, x, y, 1, tiefe, dirs)
                    },
                    Piece::Rook => {
                        let dirs: Vec<(i32, i32)> = vec![(-1, 0), (0, -1), (0, 1), (1, 0)];
                        proof {
                            assert(dirs@ =~= dirs_of(p));
                            assert(7nat == range_of(p));
                        }
                        self.generate_moves(&c, x, y, 7, tiefe, dirs)
                    },
                    Piece::Pawn => self.pawn_moves(&c, x, y, tiefe),
                    Piece::King => {
                        let dirs: Vec<(i32, i32)> = vec![
                            (-1, -1),
                            (-1, 0),
                            (-1, 1),
                            (0, -1),
                            (0, 1),
                            (1, -1),
                            (1, 0),
                            (1, 1),
                        ];
                        proof {
                            assert(dirs@ =~= dirs_of(p));
                            assert(1nat == range_of(p));
                        }
                        let mut result = self.generate_moves(&c, x, y, 1, tiefe, dirs);
                        let home: u64 = match c {
                            Color::White => 7,
                            Color::Black => 0,
                        };
                        if tiefe > 0 && x == 4 && y == home && crate::bits::test_bit(
                            self.castle,
                            x + 8 * y,
                        ) {
                            let opp = c.other();
                            // Queenside: rook on column 0, the king crosses
                            // columns 3 and 2.
                            if self.get_piece_at(1, home).is_none() && self.get_piece_at(
                                2,
                                home,
                            ).is_none() && self.get_piece_at(3, home).is_none() {
                                if !self.square_attacked(&opp, 2, home) && !self.square_attacked(
                                    &opp,
                                    3,
                                    home,
                                ) && !self.square_attacked(&opp, 4, home) {
                                    if crate::bits::test_bit(self.castle, 8 * home) {
                                        if self.is_valid_move(&c, x, y, x - 2, y) {
                                            push_move(&mut result, (2, home as i32));
                                        }
                                    }
                                }
                            }
                            // Kingside: rook on column 7, the king crosses
                            // columns 5 and 6.
                            if self.get_piece_at(5, home).is_none() && self.get_piece_at(
                                6,
                                home,
                            ).is_none() {
                                if !self.square_attacked(&opp, 4, home) && !self.square_attacked(
                                    &opp,
                                    5,
                                    home,
                                ) && !self.square_attacked(&opp, 6, home) {
                                    if crate::bits::test_bit(self.castle, 7 + 8 * home) {
                                        if self.is_valid_move(&c, x, y, x + 2, y) {
                                            push_move(&mut result, (6, home as i32));
                                        }
                                    }
                                }
                            }
                        }
                        result
                    },
                }
            },
        }
    }
}

} // verus!
