use schach::Schach;

fn perft(b: &Schach, depth: u32) -> u64 {
    if depth == 0 {
        return 1;
    }
    let mut nodes = 0;
    for x in 0..8u64 {
        for y in 0..8u64 {
            for (a, c) in b.get_legal_moves(x, y, 1) {
                if depth == 1 {
                    nodes += 1;
                } else {
                    let mut child = *b;
                    child.move_piece(x, y, a as u64, c as u64);
                    nodes += perft(&child, depth - 1);
                }
            }
        }
    }
    nodes
}

#[test]
fn perft_depth_one() {
    assert_eq!(perft(&Schach::new(), 1), 20);
}

#[test]
fn perft_depth_two() {
    assert_eq!(perft(&Schach::new(), 2), 400);
}

#[test]
fn perft_depth_three() {
    assert_eq!(perft(&Schach::new(), 3), 8902);
}

#[test]
fn perft_depth_four() {
    assert_eq!(perft(&Schach::new(), 4), 197281);
}
