use schach::{Color, Schach};

fn sq(x: u64, y: u64) -> u64 {
    1u64 << (x + 8 * y)
}

#[test]
fn best_move_from_start_is_legal() {
    let b = Schach::new();
    assert!(b.is_well_formed());
    assert!(!b.in_check_of(&Color::Black));
    let m = b.best_move(1, schach::search::now_millis(), 0).expect("moves exist");
    assert!(b.get_legal_moves(m.0, m.1, 1).contains(&(m.2 as i32, m.3 as i32)));
}

#[test]
fn best_move_takes_the_hanging_queen() {
    let mut b = Schach::empty();
    b.white_king = sq(0, 7);
    b.black_king = sq(7, 1);
    b.white_queen = sq(3, 4);
    b.black_queen = sq(3, 2);
    assert!(b.is_well_formed());
    assert!(!b.in_check_of(&Color::Black));
    let m = b.best_move(1, schach::search::now_millis(), 0).expect("moves exist");
    assert_eq!(m, (3, 4, 3, 2), "the queen capture is best");
}

#[test]
fn minmax_scores_a_mate_for_white() {
    // Black is already checkmated; the evaluation is a win for White.
    let mut b = Schach::empty();
    b.white_king = sq(5, 2);
    b.black_king = sq(7, 0);
    b.white_queen = sq(6, 1);
    b.active_player = Color::Black;
    assert!(b.is_well_formed());
    assert!(!b.in_check_of(&Color::White));
    assert_eq!(b.minmax(2, -1000000, 1000000, true), 100000);
    assert_eq!(b.eval_position(), 100000);
}
