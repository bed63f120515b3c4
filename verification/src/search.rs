//! The search: minimax with alpha-beta pruning over the legal-move lists,
//! and the iterative-deepening driver that picks a move under a time budget.
use vstd::prelude::*;

use rand::seq::SliceRandom;
use rayon::iter::IndexedParallelIterator;
use rayon::iter::IntoParallelRefIterator;
use rayon::iter::ParallelIterator;

use crate::board::{in_b, kings_ok, piece_at, spec_apply, wf, Color, Outcome, Piece, Schach};
use crate::eval::{exists_legal_move, lemma_eval_bounds, lemma_move_dest_in_b, spec_eval,
    spec_outcome};
use crate::laws::{lemma_apply_searchable, searchable};
use crate::moves::move_dest;

verus! {

/// The larger of two values.
pub open spec fn imax(a: int, b: int) -> int {
    if a >= b {
        a
    } else {
        b
    }
}

/// The smaller of two values.
pub open spec fn imin(a: int, b: int) -> int {
    if a <= b {
        a
    } else {
        b
    }
}

/// Moves are numbered by their four coordinates, each below eight.
pub open spec fn move_code(x: int, y: int, a: int, c: int) -> int {
    512 * x + 64 * y + 8 * a + c
}

/// The coordinates behind a move number.
pub open spec fn code_x(i: int) -> int {
    i / 512
}

pub open spec fn code_y(i: int) -> int {
    (i / 64) % 8
}

pub open spec fn code_a(i: int) -> int {
    (i / 8) % 8
}

pub open spec fn code_c(i: int) -> int {
    i % 8
}

/// Whether move number `i` is a legal move of `b`.
#[verifier::opaque]
pub open spec fn code_legal(b: Schach, i: int) -> bool {
    move_dest(b, code_x(i), code_y(i), code_a(i), code_c(i), true)
}

/// Whether any move numbered `i` or higher is legal.
pub open spec fn has_legal_from(b: Schach, i: int) -> bool
    decreases 4096 - i,
{
    if i < 0 || i >= 4096 {
        false
    } else {
        code_legal(b, i) || has_legal_from(b, i + 1)
    }
}

/// The minimax value of a position at the given depth: the static score at
/// depth zero or on a finished game, else the best child value for the
/// maximizing or minimizing side.
#[verifier::opaque]
pub open spec fn node_val(b: Schach, d: nat, maxing: bool) -> int
    decreases d, 4097int,
{
    if d == 0 || spec_outcome(b) != Outcome::InProgress {
        spec_eval(b)
    } else {
        sweep_val(b, d, maxing, 0)
    }
}

/// The best value among the legal moves numbered `i` and higher; the
/// sentinel of the losing side where none is left.
pub open spec fn sweep_val(b: Schach, d: nat, maxing: bool, i: int) -> int
    decreases d, 4096 - i,
{
    if i < 0 || i >= 4096 || d == 0 {
        if maxing {
            -1000000
        } else {
            1000000
        }
    } else {
        let rest = sweep_val(b, d, maxing, i + 1);
        if code_legal(b, i) {
            let v = node_val(
                spec_apply(b, code_x(i), code_y(i), code_a(i), code_c(i)),
                (d - 1) as nat,
                !maxing,
            );
            if maxing {
                imax(v, rest)
            } else {
                imin(v, rest)
            }
        } else {
            rest
        }
    }
}

/// A move number carries exactly its coordinates.
pub proof fn lemma_code_roundtrip(x: int, y: int, a: int, c: int)
    requires
        0 <= x < 8,
        0 <= y < 8,
        0 <= a < 8,
        0 <= c < 8,
    ensures
        0 <= move_code(x, y, a, c) < 4096,
        code_x(move_code(x, y, a, c)) == x,
        code_y(move_code(x, y, a, c)) == y,
        code_a(move_code(x, y, a, c)) == a,
        code_c(move_code(x, y, a, c)) == c,
{
    let i = move_code(x, y, a, c);
    assert(i / 512 == x && (i / 64) % 8 == y && (i / 8) % 8 == a && i % 8 == c) by (nonlinear_arith)
        requires
            0 <= x < 8 && 0 <= y < 8 && 0 <= a < 8 && 0 <= c < 8 && i == 512 * x + 64 * y + 8 * a
                + c,
    ;
}

/// Whether some move is legal at all is what `has_legal_from` starts with.
pub proof fn lemma_has_legal(b: Schach, i: int)
    requires
        0 <= i <= 4096,
    ensures
        has_legal_from(b, i) <==> exists|j: int| i <= j < 4096 && #[trigger] code_legal(b, j),
    decreases 4096 - i,
{
    if i < 4096 {
        lemma_has_legal(b, i + 1);
        if code_legal(b, i) {
            assert(i <= i < 4096 && code_legal(b, i));
        }
        if exists|j: int| i <= j < 4096 && #[trigger] code_legal(b, j) {
            let j0 = choose|j: int| i <= j < 4096 && #[trigger] code_legal(b, j);
            if j0 > i {
                assert(i + 1 <= j0 < 4096 && code_legal(b, j0));
            }
        }
    }
}

/// A position with a legal move has one among the numbered moves.
pub proof fn lemma_exists_to_has_legal(b: Schach)
    requires
        kings_ok(b),
        exists_legal_move(b),
    ensures
        has_legal_from(b, 0),
{
    reveal(crate::search::code_legal);
    let (x, y, a, c) = choose|x: int, y: int, a: int, c: int|
        in_b(x, y) && #[trigger] move_dest(b, x, y, a, c, true);
    lemma_move_dest_in_b(b, x, y, a, c, true);
    lemma_code_roundtrip(x, y, a, c);
    assert(code_legal(b, move_code(x, y, a, c)));
    lemma_has_legal(b, 0);
}

/// The sweep dominates the value of every legal move it covers.
pub proof fn lemma_sweep_ge(b: Schach, d: nat, maxing: bool, i: int, j: int)
    requires
        d > 0,
        0 <= i <= j < 4096,
        code_legal(b, j),
    ensures
        maxing ==> sweep_val(b, d, maxing, i) >= node_val(
            spec_apply(b, code_x(j), code_y(j), code_a(j), code_c(j)),
            (d - 1) as nat,
            !maxing,
        ),
        !maxing ==> sweep_val(b, d, maxing, i) <= node_val(
            spec_apply(b, code_x(j), code_y(j), code_a(j), code_c(j)),
            (d - 1) as nat,
            !maxing,
        ),
    decreases 4096 - i,
{
    reveal(crate::search::node_val);
    if i < j {
        lemma_sweep_ge(b, d, maxing, i + 1, j);
    }
}

/// The sweep's value is the value of one of the legal moves it covers, or
/// the sentinel where none is left.
#[verifier::rlimit(100)]
pub proof fn lemma_sweep_witness(b: Schach, d: nat, maxing: bool, i: int)
    requires
        searchable(b),
        d > 0,
        0 <= i <= 4096,
    ensures
        has_legal_from(b, i) ==> exists|j: int|
            i <= j < 4096 && #[trigger] code_legal(b, j) && sweep_val(b, d, maxing, i) == node_val(
                spec_apply(b, code_x(j), code_y(j), code_a(j), code_c(j)),
                (d - 1) as nat,
                !maxing,
            ),
        !has_legal_from(b, i) ==> sweep_val(b, d, maxing, i) == if maxing {
            -1000000int
        } else {
            1000000int
        },
    decreases d, 4096 - i,
{
    reveal(crate::search::node_val);
    reveal(crate::search::code_legal);
    if i < 4096 {
        lemma_sweep_witness(b, d, maxing, i + 1);
        if has_legal_from(b, i) {
            if code_legal(b, i) {
                let v = node_val(
                    spec_apply(b, code_x(i), code_y(i), code_a(i), code_c(i)),
                    (d - 1) as nat,
                    !maxing,
                );
                lemma_code_bounds(i);
                lemma_apply_searchable(b, code_x(i), code_y(i), code_a(i), code_c(i));
                lemma_node_val_bounds(
                    spec_apply(b, code_x(i), code_y(i), code_a(i), code_c(i)),
                    (d - 1) as nat,
                    !maxing,
                );
                if has_legal_from(b, i + 1) {
                    let j1 = choose|j: int|
                        i + 1 <= j < 4096 && #[trigger] code_legal(b, j) && sweep_val(
                            b,
                            d,
                            maxing,
                            i + 1,
                        ) == node_val(
                            spec_apply(b, code_x(j), code_y(j), code_a(j), code_c(j)),
                            (d - 1) as nat,
                            !maxing,
                        );
                    if sweep_val(b, d, maxing, i) == v {
                        assert(i <= i < 4096 && code_legal(b, i) && sweep_val(b, d, maxing, i)
                            == v);
                    } else {
                        assert(i <= j1 < 4096 && code_legal(b, j1));
                    }
                } else {
                    assert(sweep_val(b, d, maxing, i) == v);
                    assert(i <= i < 4096 && code_legal(b, i));
                }
            } else {
                let j1 = choose|j: int|
                    i + 1 <= j < 4096 && #[trigger] code_legal(b, j) && sweep_val(b, d, maxing, i
                        + 1) == node_val(
                        spec_apply(b, code_x(j), code_y(j), code_a(j), code_c(j)),
                        (d - 1) as nat,
                        !maxing,
                    );
                assert(i <= j1 < 4096 && code_legal(b, j1));
            }
        }
    }
}

/// Every value the search can return lies within the evaluator's range.
pub proof fn lemma_node_val_bounds(b: Schach, d: nat, maxing: bool)
    requires
        searchable(b),
    ensures
        -150000 <= node_val(b, d, maxing) <= 150000,
    decreases d, 4097int,
{
    reveal(crate::search::node_val);
    reveal(crate::search::code_legal);
    if d == 0 || spec_outcome(b) != Outcome::InProgress {
        lemma_eval_bounds(b);
    } else {
        lemma_exists_to_has_legal(b);
        lemma_sweep_witness(b, d, maxing, 0);
        let j = choose|j: int|
            0 <= j < 4096 && #[trigger] code_legal(b, j) && sweep_val(b, d, maxing, 0) == node_val(
                spec_apply(b, code_x(j), code_y(j), code_a(j), code_c(j)),
                (d - 1) as nat,
                !maxing,
            );
        lemma_code_bounds(j);
        lemma_apply_searchable(b, code_x(j), code_y(j), code_a(j), code_c(j));
        lemma_node_val_bounds(
            spec_apply(b, code_x(j), code_y(j), code_a(j), code_c(j)),
            (d - 1) as nat,
            !maxing,
        );
    }
}

/// Decoded coordinates lie on the board.
pub proof fn lemma_code_bounds(i: int)
    requires
        0 <= i < 4096,
    ensures
        0 <= code_x(i) < 8,
        0 <= code_y(i) < 8,
        0 <= code_a(i) < 8,
        0 <= code_c(i) < 8,
{
}

} // verus!

verus! {

/// Append one full move to a move list.
fn push_full_move(v: &mut Vec<(u64, u64, u64, u64)>, m: (u64, u64, u64, u64))
    ensures
        forall|w: (u64, u64, u64, u64)|
            #[trigger] final(v)@.contains(w) <==> (old(v)@.contains(w) || w == m),
{
    v.push(m);
    proof {
        assert forall|w: (u64, u64, u64, u64)| #[trigger] v@.contains(w) implies (old(
            v,
        )@.contains(w) || w == m) by {
            let i = choose|i: int| 0 <= i < v@.len() && v@[i] == w;
            if i < old(v)@.len() {
                assert(old(v)@[i] == w);
            }
        }
        assert forall|w: (u64, u64, u64, u64)| (old(v)@.contains(w) || w == m) implies #[trigger] v@.contains(
            w,
        ) by {
            if old(v)@.contains(w) {
                let i = choose|i: int| 0 <= i < old(v)@.len() && old(v)@[i] == w;
                assert(v@[i] == w);
            } else {
                assert(v@[old(v)@.len() as int] == w);
            }
        }
    }
}

/// Relies on rand's `SliceRandom::shuffle`: the list after the call holds
/// the same moves, in some order.
#[verifier::external_body]
fn shuffle_moves(v: &mut Vec<(u64, u64, u64, u64)>)
    ensures
        final(v)@.to_multiset() == old(v)@.to_multiset(),
{
    v.shuffle(&mut rand::thread_rng());
}

/// Relies on std::time::SystemTime: the wall clock, as milliseconds since
/// the UNIX epoch.
#[verifier::external_body]
pub fn now_millis() -> u64 {
    match std::time::SystemTime::now().duration_since(std::time::UNIX_EPOCH) {
        Ok(d) => d.as_millis() as u64,
        Err(_) => 0,
    }
}

impl Schach {
    /// Every legal move of the side to move, in a randomized order.
    pub(crate) fn get_all_legal_moves(&self) -> (r: Vec<(u64, u64, u64, u64)>)
        requires
            kings_ok(*self),
        ensures
            forall|m: (u64, u64, u64, u64)|
                #[trigger] r@.contains(m) <==> (m.0 < 8 && m.1 < 8 && m.2 < 8 && m.3 < 8
                    && move_dest(*self, m.0 as int, m.1 as int, m.2 as int, m.3 as int, true)),
    {
        let mut result: Vec<(u64, u64, u64, u64)> = Vec::new();
        let mut x: u64 = 0;
        while x < 8
            invariant
                x <= 8,
                kings_ok(*self),
                forall|m: (u64, u64, u64, u64)|
                    #[trigger] result@.contains(m) <==> (m.0 < x && m.1 < 8 && m.2 < 8 && m.3 < 8
                        && move_dest(*self, m.0 as int, m.1 as int, m.2 as int, m.3 as int, true)),
            decreases 8 - x,
        {
            let mut y: u64 = 0;
            while y < 8
                invariant
                    x < 8,
                    y <= 8,
                    kings_ok(*self),
                    forall|m: (u64, u64, u64, u64)|
                        #[trigger] result@.contains(m) <==> ((m.0 < x || (m.0 == x && m.1 < y))
                            && m.1 < 8 && m.2 < 8 && m.3 < 8 && move_dest(
                            *self,
                            m.0 as int,
                            m.1 as int,
                            m.2 as int,
                            m.3 as int,
                            true,
                        )),
                decreases 8 - y,
            {
                let v = self.get_legal_moves(x, y, 1);
                let mut k: usize = 0;
                while k < v.len()
                    invariant
                        x < 8,
                        y < 8,
                        kings_ok(*self),
                        k <= v@.len(),
                        forall|p: i32, q: i32|
                            #[trigger] v@.contains((p, q)) <==> move_dest(
                                *self,
                                x as int,
                                y as int,
                                p as int,
                                q as int,
                                true,
                            ),
                        forall|m: (u64, u64, u64, u64)|
                            #[trigger] result@.contains(m) <==> (((m.0 < x || (m.0 == x && m.1
                                < y)) && m.1 < 8 && m.2 < 8 && m.3 < 8 && move_dest(
                                *self,
                                m.0 as int,
                                m.1 as int,
                                m.2 as int,
                                m.3 as int,
                                true,
                            )) || (m.0 == x && m.1 == y && m.2 < 8 && m.3 < 8 && (exists|j: int|
                                0 <= j < k && v@[j] == (m.2 as i32, m.3 as i32)))),
                    decreases v@.len() - k,
                {
                    let (p, q) = v[k];
                    proof {
                        assert(v@.contains(v@[k as int]));
                        assert(move_dest(*self, x as int, y as int, p as int, q as int, true));
                        crate::eval::lemma_move_dest_in_b(
                            *self,
                            x as int,
                            y as int,
                            p as int,
                            q as int,
                            true,
                        );
                    }
                    push_full_move(&mut result, (x, y, p as u64, q as u64));
                    proof {
                        assert(v@[k as int] == (p, q));
                    }
                    k = k + 1;
                }
                proof {
                    assert forall|m: (u64, u64, u64, u64)|
                        #[trigger] result@.contains(m) <==> ((m.0 < x || (m.0 == x && m.1 < y
                            + 1)) && m.1 < 8 && m.2 < 8 && m.3 < 8 && move_dest(
                        *self,
                        m.0 as int,
                        m.1 as int,
                        m.2 as int,
                        m.3 as int,
                        true,
                    )) by {
                        if m.0 == x && m.1 == y && m.2 < 8 && m.3 < 8 {
                            if move_dest(*self, m.0 as int, m.1 as int, m.2 as int, m.3 as int, true) {
                                assert(v@.contains((m.2 as i32, m.3 as i32)));
                                let j = choose|j: int|
                                    0 <= j < v@.len() && v@[j] == (m.2 as i32, m.3 as i32);
                            }
                            if exists|j: int| 0 <= j < k && v@[j] == (m.2 as i32, m.3 as i32) {
                                let j = choose|j: int|
                                    0 <= j < k && v@[j] == (m.2 as i32, m.3 as i32);
                                assert(v@.contains(v@[j]));
                            }
                        }
                    }
                }
                y = y + 1;
            }
            x = x + 1;
        }
        let ghost pre = result@;
        shuffle_moves(&mut result);
        proof {
            assert forall|m: (u64, u64, u64, u64)| #[trigger] result@.contains(m)
                <==> pre.contains(m) by {
                vstd::seq_lib::to_multiset_contains(pre, m);
                vstd::seq_lib::to_multiset_contains(result@, m);
            }
        }
        result
    }
}

} // verus!

verus! {

impl Schach {
    /// Minimax with alpha-beta pruning. The result `r` brackets the true
    /// minimax value `v` of the position: `r <= max(alpha, v)` and
    /// `r >= min(beta, v)`; inside an open window the result is exact.
    #[verifier::rlimit(100)]
    pub fn minmax(&self, depth: u64, alpha: i64, beta: i64, maximizing_player: bool) -> (r: i64)
        requires
            crate::laws::searchable(*self),
            alpha < beta,
            -1000000 <= alpha,
            beta <= 1000000,
        ensures
            r as int <= imax(alpha as int, node_val(*self, depth as nat, maximizing_player)),
            r as int >= imin(beta as int, node_val(*self, depth as nat, maximizing_player)),
        decreases depth,
    {
        let outcome = self.get_outcome();
        if depth == 0 || outcome != Outcome::InProgress {
            let e = self.eval_position();
            proof {
                reveal(crate::search::node_val);
                lemma_eval_bounds(*self);
            }
            return e;
        }
        let ghost vstar = node_val(*self, depth as nat, maximizing_player);
        proof {
            reveal(crate::search::node_val);
            lemma_node_val_bounds(*self, depth as nat, maximizing_player);
        }
        let moves = self.get_all_legal_moves();
        if maximizing_player {
            let mut max_eval: i64 = -1000000;
            let mut al = alpha;
            let mut idx: usize = 0;
            while idx < moves.len()
                invariant_except_break
                    crate::laws::searchable(*self),
                    depth >= 1,
                    spec_outcome(*self) == Outcome::InProgress,
                    vstar == node_val(*self, depth as nat, true),
                    vstar == sweep_val(*self, depth as nat, true, 0),
                    -150000 <= vstar <= 150000,
                    -1000000 <= alpha < beta <= 1000000,
                    idx <= moves@.len(),
                    forall|m: (u64, u64, u64, u64)|
                        #[trigger] moves@.contains(m) <==> (m.0 < 8 && m.1 < 8 && m.2 < 8 && m.3
                            < 8 && move_dest(
                            *self,
                            m.0 as int,
                            m.1 as int,
                            m.2 as int,
                            m.3 as int,
                            true,
                        )),
                    -1000000 <= max_eval <= 1000000,
                    max_eval as int <= imax(alpha as int, vstar),
                    al as int == imax(alpha as int, max_eval as int),
                    al < beta,
                    forall|j: int|
                        0 <= j < idx ==> max_eval as int >= imin(
                            beta as int,
                            node_val(
                                spec_apply(
                                    *self,
                                    (#[trigger] moves@[j]).0 as int,
                                    moves@[j].1 as int,
                                    moves@[j].2 as int,
                                    moves@[j].3 as int,
                                ),
                                (depth - 1) as nat,
                                false,
                            ),
                        ),
                ensures
                    -1000000 <= max_eval <= 1000000,
                    max_eval as int <= imax(alpha as int, vstar),
                    max_eval as int >= beta as int || (idx == moves@.len() && forall|j: int|
                        0 <= j < idx ==> max_eval as int >= imin(
                            beta as int,
                            node_val(
                                spec_apply(
                                    *self,
                                    (#[trigger] moves@[j]).0 as int,
                                    moves@[j].1 as int,
                                    moves@[j].2 as int,
                                    moves@[j].3 as int,
                                ),
                                (depth - 1) as nat,
                                false,
                            ),
                        )),
                decreases moves@.len() - idx,
            {
                let m = moves[idx];
                proof {
                    assert(moves@.contains(moves@[idx as int]));
                    crate::laws::lemma_apply_searchable(
                        *self,
                        m.0 as int,
                        m.1 as int,
                        m.2 as int,
                        m.3 as int,
                    );
                }
                let mut brett = *self;
                brett.move_piece(m.0, m.1, m.2, m.3);
                let ev = brett.minmax(depth - 1, al, beta, false);
                proof {
                    reveal(crate::search::code_legal);
                    lemma_code_roundtrip(m.0 as int, m.1 as int, m.2 as int, m.3 as int);
                    lemma_sweep_ge(
                        *self,
                        depth as nat,
                        true,
                        0,
                        move_code(m.0 as int, m.1 as int, m.2 as int, m.3 as int),
                    );
                    lemma_node_val_bounds(brett, (depth - 1) as nat, false);
                }
                if ev > max_eval {
                    max_eval = ev;
                }
                if ev > al {
                    al = ev;
                }
                if beta <= al {
                    break ;
                }
                idx = idx + 1;
            }
            proof {
                if max_eval as int >= beta as int {
                    assert(max_eval as int >= imin(beta as int, vstar));
                } else {
                    crate::eval::lemma_outcome_legal(*self);
                    lemma_exists_to_has_legal(*self);
                    lemma_sweep_witness(*self, depth as nat, true, 0);
                    let j0 = choose|j: int|
                        0 <= j < 4096 && #[trigger] code_legal(*self, j) && sweep_val(
                            *self,
                            depth as nat,
                            true,
                            0,
                        ) == node_val(
                            spec_apply(*self, code_x(j), code_y(j), code_a(j), code_c(j)),
                            (depth - 1) as nat,
                            false,
                        );
                    lemma_code_bounds(j0);
                    reveal(crate::search::code_legal);
                    let mt = (
                        code_x(j0) as u64,
                        code_y(j0) as u64,
                        code_a(j0) as u64,
                        code_c(j0) as u64,
                    );
                    assert(moves@.contains(mt));
                    let k = choose|k: int| 0 <= k < moves@.len() && moves@[k] == mt;
                    assert(max_eval as int >= imin(
                        beta as int,
                        node_val(
                            spec_apply(
                                *self,
                                moves@[k].0 as int,
                                moves@[k].1 as int,
                                moves@[k].2 as int,
                                moves@[k].3 as int,
                            ),
                            (depth - 1) as nat,
                            false,
                        ),
                    ));
                }
            }
            max_eval
        } else {
            let mut min_eval: i64 = 1000000;
            let mut be = beta;
            let mut idx: usize = 0;
            while idx < moves.len()
                invariant_except_break
                    crate::laws::searchable(*self),
                    depth >= 1,
                    spec_outcome(*self) == Outcome::InProgress,
                    vstar == node_val(*self, depth as nat, false),
                    vstar == sweep_val(*self, depth as nat, false, 0),
                    -150000 <= vstar <= 150000,
                    -1000000 <= alpha < beta <= 1000000,
                    idx <= moves@.len(),
                    forall|m: (u64, u64, u64, u64)|
                        #[trigger] moves@.contains(m) <==> (m.0 < 8 && m.1 < 8 && m.2 < 8 && m.3
                            < 8 && move_dest(
                            *self,
                            m.0 as int,
                            m.1 as int,
                            m.2 as int,
                            m.3 as int,
                            true,
                        )),
                    -1000000 <= min_eval <= 1000000,
                    min_eval as int >= imin(beta as int, vstar),
                    be as int == imin(beta as int, min_eval as int),
                    alpha < be,
                    forall|j: int|
                        0 <= j < idx ==> min_eval as int <= imax(
                            alpha as int,
                            node_val(
                                spec_apply(
                                    *self,
                                    (#[trigger] moves@[j]).0 as int,
                                    moves@[j].1 as int,
                                    moves@[j].2 as int,
                                    moves@[j].3 as int,
                                ),
                                (depth - 1) as nat,
                                true,
                            ),
                        ),
                ensures
                    -1000000 <= min_eval <= 1000000,
                    min_eval as int >= imin(beta as int, vstar),
                    min_eval as int <= alpha as int || (idx == moves@.len() && forall|j: int|
                        0 <= j < idx ==> min_eval as int <= imax(
                            alpha as int,
                            node_val(
                                spec_apply(
                                    *self,
                                    (#[trigger] moves@[j]).0 as int,
                                    moves@[j].1 as int,
                                    moves@[j].2 as int,
                                    moves@[j].3 as int,
                                ),
                                (depth - 1) as nat,
                                true,
                            ),
                        )),
                decreases moves@.len() - idx,
            {
                let m = moves[idx];
                proof {
                    assert(moves@.contains(moves@[idx as int]));
                    crate::laws::lemma_apply_searchable(
                        *self,
                        m.0 as int,
                        m.1 as int,
                        m.2 as int,
                        m.3 as int,
                    );
                }
                let mut brett = *self;
                brett.move_piece(m.0, m.1, m.2, m.3);
                let ev = brett.minmax(depth - 1, alpha, be, true);
                proof {
                    reveal(crate::search::code_legal);
                    lemma_code_roundtrip(m.0 as int, m.1 as int, m.2 as int, m.3 as int);
                    lemma_sweep_ge(
                        *self,
                        depth as nat,
                        false,
                        0,
                        move_code(m.0 as int, m.1 as int, m.2 as int, m.3 as int),
                    );
                    lemma_node_val_bounds(brett, (depth - 1) as nat, true);
                }
                if ev < min_eval {
                    min_eval = ev;
                }
                if ev < be {
                    be = ev;
                }
                if be <= alpha {
                    break ;
                }
                idx = idx + 1;
            }
            proof {
                if min_eval as int <= alpha as int {
                    assert(min_eval as int <= imax(alpha as int, vstar));
                } else {
                    crate::eval::lemma_outcome_legal(*self);
                    lemma_exists_to_has_legal(*self);
                    lemma_sweep_witness(*self, depth as nat, false, 0);
                    let j0 = choose|j: int|
                        0 <= j < 4096 && #[trigger] code_legal(*self, j) && sweep_val(
                            *self,
                            depth as nat,
                            false,
                            0,
                        ) == node_val(
                            spec_apply(*self, code_x(j), code_y(j), code_a(j), code_c(j)),
                            (depth - 1) as nat,
                            true,
                        );
                    lemma_code_bounds(j0);
                    reveal(crate::search::code_legal);
                    let mt = (
                        code_x(j0) as u64,
                        code_y(j0) as u64,
                        code_a(j0) as u64,
                        code_c(j0) as u64,
                    );
                    assert(moves@.contains(mt));
                    let k = choose|k: int| 0 <= k < moves@.len() && moves@[k] == mt;
                    assert(min_eval as int <= imax(
                        alpha as int,
                        node_val(
                            spec_apply(
                                *self,
                                moves@[k].0 as int,
                                moves@[k].1 as int,
                                moves@[k].2 as int,
                                moves@[k].3 as int,
                            ),
                            (depth - 1) as nat,
                            true,
                        ),
                    ));
                }
            }
            min_eval
        }
    }
}

} // verus!

verus! {

/// The exact minimax value of the position after one move, from a search
/// with a fully open window.
pub(crate) fn score_after(b: &Schach, m: (u64, u64, u64, u64), depth: u64, maxing: bool) -> (r:
    i64)
    requires
        crate::laws::searchable(*b),
        m.0 < 8,
        m.1 < 8,
        m.2 < 8,
        m.3 < 8,
        move_dest(*b, m.0 as int, m.1 as int, m.2 as int, m.3 as int, true),
    ensures
        r as int == node_val(
            spec_apply(*b, m.0 as int, m.1 as int, m.2 as int, m.3 as int),
            depth as nat,
            maxing,
        ),
{
    proof {
        crate::laws::lemma_apply_searchable(*b, m.0 as int, m.1 as int, m.2 as int, m.3 as int);
        lemma_node_val_bounds(
            spec_apply(*b, m.0 as int, m.1 as int, m.2 as int, m.3 as int),
            depth as nat,
            maxing,
        );
    }
    let mut brett = *b;
    brett.move_piece(m.0, m.1, m.2, m.3);
    brett.minmax(depth, -1000000, 1000000, maxing)
}

/// Relies on rayon's parallel iterators: each move of the list is scored by
/// one independent task, and the scores come back in the list's order.
#[verifier::external_body]
fn par_scores(b: &Schach, moves: &Vec<(u64, u64, u64, u64)>, depth: u64, maxing: bool) -> (r: Vec<
    i64,
>)
    requires
        crate::laws::searchable(*b),
        forall|i: int|
            0 <= i < moves@.len() ==> (#[trigger] moves@[i]).0 < 8 && moves@[i].1 < 8
                && moves@[i].2 < 8 && moves@[i].3 < 8 && move_dest(
                *b,
                moves@[i].0 as int,
                moves@[i].1 as int,
                moves@[i].2 as int,
                moves@[i].3 as int,
                true,
            ),
    ensures
        r@.len() == moves@.len(),
        forall|i: int|
            0 <= i < moves@.len() ==> (#[trigger] r@[i]) as int == node_val(
                spec_apply(
                    *b,
                    moves@[i].0 as int,
                    moves@[i].1 as int,
                    moves@[i].2 as int,
                    moves@[i].3 as int,
                ),
                depth as nat,
                maxing,
            ),
{
    moves.par_iter().map(|m| score_after(b, *m, depth, maxing)).collect()
}

impl Schach {
    /// The move the search selects: every legal root move is scored in
    /// parallel by a fully sequential minimax of the current depth, and
    /// while the wall clock is under `start_ms + budget_ms` the whole sweep
    /// is redone one level deeper. The budget is checked only between
    /// sweeps, so the last sweep may run past it; the move returned is the
    /// best of the last completed sweep. With no legal move there is no
    /// move to return.
    pub fn best_move(&self, depth: u64, start_ms: u64, budget_ms: u64) -> (r: Option<
        (u64, u64, u64, u64),
    >)
        requires
            crate::laws::searchable(*self),
        ensures
            r is Some <==> crate::eval::exists_legal_move(*self),
            r matches Option::Some(m) ==> m.0 < 8 && m.1 < 8 && m.2 < 8 && m.3 < 8 && move_dest(
                *self,
                m.0 as int,
                m.1 as int,
                m.2 as int,
                m.3 as int,
                true,
            ),
    {
        let moves = self.get_all_legal_moves();
        if moves.len() == 0 {
            proof {
                if crate::eval::exists_legal_move(*self) {
                    let (x, y, a, c) = choose|x: int, y: int, a: int, c: int|
                        in_b(x, y) && #[trigger] move_dest(*self, x, y, a, c, true);
                    crate::eval::lemma_move_dest_in_b(*self, x, y, a, c, true);
                    assert(moves@.contains((x as u64, y as u64, a as u64, c as u64)));
                }
            }
            return Option::None;
        }
        proof {
            assert(moves@.contains(moves@[0]));
        }
        let maxing = match self.active_player {
            Color::Black => true,
            Color::White => false,
        };
        let white_to_move = match self.active_player {
            Color::White => true,
            Color::Black => false,
        };
        let deadline: u64 = if budget_ms > 0xffff_ffff_ffff_ffffu64 - start_ms {
            0xffff_ffff_ffff_ffffu64
        } else {
            start_ms + budget_ms
        };
        let mut best: (u64, u64, u64, u64) = moves[0];
        let mut d = depth;
        let mut rounds: u64 = 0;
        while rounds < 30
            invariant
                crate::laws::searchable(*self),
                moves@.len() > 0,
                forall|m: (u64, u64, u64, u64)|
                    #[trigger] moves@.contains(m) <==> (m.0 < 8 && m.1 < 8 && m.2 < 8 && m.3 < 8
                        && move_dest(
                        *self,
                        m.0 as int,
                        m.1 as int,
                        m.2 as int,
                        m.3 as int,
                        true,
                    )),
                moves@.contains(best),
            decreases 30 - rounds,
        {
            proof {
                assert forall|i: int| 0 <= i < moves@.len() implies (#[trigger] moves@[i]).0 < 8
                    && moves@[i].1 < 8 && moves@[i].2 < 8 && moves@[i].3 < 8 && move_dest(
                    *self,
                    moves@[i].0 as int,
                    moves@[i].1 as int,
                    moves@[i].2 as int,
                    moves@[i].3 as int,
                    true,
                ) by {
                    assert(moves@.contains(moves@[i]));
                }
            }
            let scores = par_scores(self, &moves, d, maxing);
            proof {
                assert forall|i: int| 0 <= i < scores@.len() implies -150000
                    <= (#[trigger] scores@[i]) as int <= 150000 by {
                    assert(moves@.contains(moves@[i]));
                    crate::laws::lemma_apply_searchable(
                        *self,
                        moves@[i].0 as int,
                        moves@[i].1 as int,
                        moves@[i].2 as int,
                        moves@[i].3 as int,
                    );
                    lemma_node_val_bounds(
                        spec_apply(
                            *self,
                            moves@[i].0 as int,
                            moves@[i].1 as int,
                            moves@[i].2 as int,
                            moves@[i].3 as int,
                        ),
                        d as nat,
                        maxing,
                    );
                }
            }
            let mut bi: usize = 0;
            let mut bs: i64 = if white_to_move {
                scores[0]
            } else {
                -scores[0]
            };
            let mut j: usize = 1;
            while j < scores.len()
                invariant
                    scores@.len() == moves@.len(),
                    moves@.len() > 0,
                    j <= scores@.len(),
                    bi < moves@.len(),
                    forall|i: int|
                        0 <= i < scores@.len() ==> -150000 <= (#[trigger] scores@[i]) as int
                            <= 150000,
                decreases scores@.len() - j,
            {
                let f = if white_to_move {
                    scores[j]
                } else {
                    -scores[j]
                };
                if f > bs {
                    bs = f;
                    bi = j;
                }
                j = j + 1;
            }
            best = moves[bi];
            proof {
                assert(moves@.contains(moves@[bi as int]));
            }
            if d < 0xffff_ffff_ffff_ffffu64 {
                d = d + 1;
            }
            rounds = rounds + 1;
            if now_millis() >= deadline {
                break ;
            }
        }
        Option::Some(best)
    }
}

} // verus!
