use schach::{Color, Outcome, Piece, Schach};

fn sq(x: u64, y: u64) -> u64 {
    1u64 << (x + 8 * y)
}

fn empty_with_kings(wk: (u64, u64), bk: (u64, u64)) -> Schach {
    let mut b = Schach::empty();
    b.white_king = sq(wk.0, wk.1);
    b.black_king = sq(bk.0, bk.1);
    b
}

#[test]
fn start_position_is_well_formed() {
    let b = Schach::new();
    assert!(b.is_well_formed());
    assert_eq!(b.active_player, Color::White);
    assert_eq!(b.fifty_move, 0);
    assert!(b.en_passant.is_none());
}

#[test]
fn start_positions_list() {
    let b = Schach::new();
    let ps = b.get_positions();
    assert_eq!(ps.len(), 32);
    assert!(ps.contains(&(Color::White, Piece::King, 4, 7)));
    assert!(ps.contains(&(Color::Black, Piece::Queen, 3, 0)));
    assert!(ps.contains(&(Color::White, Piece::Pawn, 0, 6)));
}

#[test]
fn evaluate_start_is_zero() {
    let b = Schach::new();
    assert_eq!(b.eval_position(), 0);
}

#[test]
fn material_counts_extra_rook() {
    let mut b = empty_with_kings((4, 7), (4, 0));
    b.white_rooks = sq(0, 4);
    assert!(b.is_well_formed());
    assert_eq!(b.eval_position(), 563);
}

#[test]
fn halfmove_clock_increments_and_resets() {
    let mut b = Schach::new();
    // A knight move neither captures nor moves a pawn.
    b.move_piece(1, 7, 2, 5);
    assert_eq!(b.fifty_move, 1);
    // A knight move for Black as well.
    b.move_piece(1, 0, 2, 2);
    assert_eq!(b.fifty_move, 2);
    // A pawn move resets the clock.
    b.move_piece(4, 6, 4, 4);
    assert_eq!(b.fifty_move, 0);
}

#[test]
fn halfmove_clock_resets_on_capture() {
    let mut b = empty_with_kings((4, 7), (4, 0));
    b.white_rooks = sq(0, 4);
    b.black_rooks = sq(0, 2);
    b.fifty_move = 7;
    b.move_piece(0, 4, 0, 2);
    assert_eq!(b.fifty_move, 0);
}

#[test]
fn pawn_moves_from_start() {
    let b = Schach::new();
    let m = b.get_legal_moves(4, 6, 1);
    assert!(m.contains(&(4, 5)));
    assert!(m.contains(&(4, 4)));
    assert_eq!(m.len(), 2);
}

#[test]
fn en_passant_only_immediately_after_double_push() {
    let mut b = Schach::new();
    b.move_piece(4, 6, 4, 4); // white pawn two squares
    b.move_piece(0, 1, 0, 2); // black pawn one square
    b.move_piece(4, 4, 4, 3); // white pawn on
    b.move_piece(3, 1, 3, 3); // black double push beside it
    assert_eq!(b.en_passant, Some((3, 2)));
    let m = b.get_legal_moves(4, 3, 1);
    assert!(m.contains(&(3, 2)), "en passant open right after the push");
    // Play something else; the chance is gone for good.
    b.move_piece(7, 6, 7, 5);
    b.move_piece(7, 1, 7, 2);
    assert!(b.en_passant.is_none());
    let m2 = b.get_legal_moves(4, 3, 1);
    assert!(!m2.contains(&(3, 2)), "en passant closed one move later");
}

#[test]
fn en_passant_capture_removes_the_passed_pawn() {
    let mut b = Schach::new();
    b.move_piece(4, 6, 4, 4);
    b.move_piece(0, 1, 0, 2);
    b.move_piece(4, 4, 4, 3);
    b.move_piece(3, 1, 3, 3);
    b.move_piece(4, 3, 3, 2); // capture en passant
    assert_eq!(b.get_piece_at(3, 2), Some((Piece::Pawn, Color::White)));
    assert_eq!(b.get_piece_at(3, 3), None, "the passed pawn is gone");
}

#[test]
fn promotion_places_a_queen() {
    let mut b = empty_with_kings((4, 7), (4, 0));
    b.white_pawns = sq(0, 1);
    assert!(b.is_well_formed());
    b.move_piece(0, 1, 0, 0);
    assert_eq!(b.get_piece_at(0, 0), Some((Piece::Queen, Color::White)));
    assert_eq!(b.white_pawns, 0);
}

fn castling_board() -> Schach {
    let mut b = empty_with_kings((4, 7), (4, 0));
    b.white_rooks = sq(0, 7) | sq(7, 7);
    b.castle = sq(4, 7) | sq(0, 7) | sq(7, 7);
    b
}

#[test]
fn castling_both_sides_when_allowed() {
    let b = castling_board();
    assert!(b.is_well_formed());
    let m = b.get_legal_moves(4, 7, 1);
    assert!(m.contains(&(6, 7)), "kingside castle");
    assert!(m.contains(&(2, 7)), "queenside castle");
}

#[test]
fn castling_refused_without_the_right_bit() {
    let mut b = castling_board();
    b.castle = sq(4, 7) | sq(0, 7); // kingside right gone
    let m = b.get_legal_moves(4, 7, 1);
    assert!(!m.contains(&(6, 7)));
    assert!(m.contains(&(2, 7)));
}

#[test]
fn castling_refused_with_the_path_occupied() {
    let mut b = castling_board();
    b.white_knights = sq(5, 7);
    let m = b.get_legal_moves(4, 7, 1);
    assert!(!m.contains(&(6, 7)));
    assert!(m.contains(&(2, 7)));
}

#[test]
fn castling_refused_with_a_transit_square_attacked() {
    let mut b = castling_board();
    b.black_rooks = sq(5, 0); // attacks the whole fifth column
    let m = b.get_legal_moves(4, 7, 1);
    assert!(!m.contains(&(6, 7)), "king would pass an attacked square");
}

#[test]
fn castling_moves_the_rook_too() {
    let mut b = castling_board();
    b.move_piece(4, 7, 6, 7);
    assert_eq!(b.get_piece_at(6, 7), Some((Piece::King, Color::White)));
    assert_eq!(b.get_piece_at(5, 7), Some((Piece::Rook, Color::White)));
    assert_eq!(b.get_piece_at(7, 7), None);
}

#[test]
fn legal_moves_never_leave_own_king_in_check() {
    let b = Schach::new();
    for x in 0..8u64 {
        for y in 0..8u64 {
            for (a, c) in b.get_legal_moves(x, y, 1) {
                let mut child = b;
                child.move_piece(x, y, a as u64, c as u64);
                assert!(!child.in_check_of(&Color::White));
            }
        }
    }
}

#[test]
fn checkmate_reported_for_the_winner() {
    let mut b = empty_with_kings((5, 2), (7, 0));
    b.white_queen = sq(6, 1);
    b.active_player = Color::Black;
    assert!(b.is_well_formed());
    assert_eq!(b.get_outcome(), Outcome::Checkmate(Color::White));
}

#[test]
fn stalemate_reported_without_check() {
    let mut b = empty_with_kings((0, 7), (7, 0));
    b.white_queen = sq(5, 1);
    b.active_player = Color::Black;
    assert!(b.is_well_formed());
    assert_eq!(b.get_outcome(), Outcome::Stalemate);
}

#[test]
fn bare_kings_are_a_draw() {
    let b = empty_with_kings((4, 7), (4, 0));
    assert_eq!(b.get_outcome(), Outcome::Stalemate);
}

#[test]
fn fifty_move_rule_draws() {
    let mut b = Schach::new();
    b.fifty_move = 50;
    assert_eq!(b.get_outcome(), Outcome::Stalemate);
}

#[test]
fn game_in_progress_at_start() {
    let b = Schach::new();
    assert_eq!(b.get_outcome(), Outcome::InProgress);
}

#[test]
fn no_op_when_source_square_is_empty() {
    let mut b = Schach::new();
    let before = b.get_positions();
    b.move_piece(4, 4, 4, 3);
    assert_eq!(b.get_positions(), before);
    assert_eq!(b.fifty_move, 0);
    assert_eq!(b.active_player, Color::White);
}
