use schach::LookupTable;

/// Rook attacks by direct ray casting, written independently of the crate.
fn brute_force_rook(square: u64, occ: u64) -> u64 {
    let x = (square % 8) as i64;
    let y = (square / 8) as i64;
    let mut acc = 0u64;
    for (dx, dy) in [(1i64, 0i64), (-1, 0), (0, 1), (0, -1)] {
        let (mut cx, mut cy) = (x + dx, y + dy);
        while (0..8).contains(&cx) && (0..8).contains(&cy) {
            let bit = 1u64 << (cx + 8 * cy);
            acc |= bit;
            if occ & bit != 0 {
                break;
            }
            cx += dx;
            cy += dy;
        }
    }
    acc
}

#[test]
fn lookups_match_ray_casting_on_random_occupancies() {
    let t = LookupTable::new().expect("collision-free parameters");
    let mut state = 0x9e37_79b9_7f4a_7c15u64;
    for square in 0..64u64 {
        for _ in 0..40 {
            state = state.wrapping_mul(6364136223846793005).wrapping_add(1442695040888963407);
            let occ = state & state.rotate_left(17);
            assert_eq!(
                t.get_rook_moves(1u64 << square, occ),
                brute_force_rook(square, occ),
                "square {square}"
            );
        }
    }
}

#[test]
fn mask_excludes_the_board_edges() {
    let t = LookupTable::new().expect("collision-free parameters");
    // Corner square: the relevant squares run along its two lines, the
    // final square of each line left out.
    let mut expected = 0u64;
    for k in 1..7u64 {
        expected |= 1u64 << k; // (k, 0)
        expected |= 1u64 << (8 * k); // (0, k)
    }
    assert_eq!(t.get_rook_move_mask(0), expected);
}

#[test]
fn lookup_on_empty_board() {
    let t = LookupTable::new().expect("collision-free parameters");
    // Rook in a corner on an empty board sweeps both lines fully.
    let mut expected = 0u64;
    for k in 1..8u64 {
        expected |= 1u64 << k;
        expected |= 1u64 << (8 * k);
    }
    assert_eq!(t.get_rook_moves(1, 0), expected);
}
