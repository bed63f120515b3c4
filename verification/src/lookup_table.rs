//! A perfect-hash ("magic") lookup table for rook attacks: for each square,
//! the occupancy of the relevant squares is hashed by a multiply-then-shift
//! transform to an index into a per-square table of attack bitboards. The
//! multipliers are searched at construction and validated collision-free by
//! brute-force enumeration of every relevant occupancy.
use vstd::prelude::*;

use crate::bits::{
    bit_set, bmask, count_bits, lemma_mask_bit, lemma_or_basic, lemma_or_parts_zero,
    lemma_shift_bound, lemma_subset_or4, one_bit, test_bit,
};
use crate::board::{in_b, lemma_sq, sq};

verus! {

/// The squares a rook walk from `(cx, cy)` in direction `(dx, dy)` covers:
/// every square up to and including the first occupied one, the board edge
/// ending the walk.
pub open spec fn ray_bits(cx: int, cy: int, dx: int, dy: int, occ: u64, fuel: nat) -> u64
    decreases fuel,
{
    if fuel == 0 {
        0
    } else {
        let nx = cx + dx;
        let ny = cy + dy;
        if !in_b(nx, ny) {
            0
        } else if bit_set(occ, sq(nx, ny)) {
            bmask(sq(nx, ny))
        } else {
            bmask(sq(nx, ny)) | ray_bits(nx, ny, dx, dy, occ, (fuel - 1) as nat)
        }
    }
}

/// The full rook attack set of `(x, y)` under the occupancy `occ`.
pub open spec fn rook_rays(x: int, y: int, occ: u64) -> u64 {
    ray_bits(x, y, 1, 0, occ, 7) | ray_bits(x, y, -1, 0, occ, 7) | ray_bits(x, y, 0, 1, occ, 7)
        | ray_bits(x, y, 0, -1, occ, 7)
}

/// The relevant squares of one walk: the walk's squares with the final
/// square of the line left out — a piece there blocks nothing further.
pub open spec fn mask_bits(cx: int, cy: int, dx: int, dy: int, fuel: nat) -> u64
    decreases fuel,
{
    if fuel == 0 {
        0
    } else {
        let nx = cx + dx;
        let ny = cy + dy;
        if !in_b(nx, ny) || !in_b(nx + dx, ny + dy) {
            0
        } else {
            bmask(sq(nx, ny)) | mask_bits(nx, ny, dx, dy, (fuel - 1) as nat)
        }
    }
}

/// The relevant-occupancy mask of square `(x, y)`.
pub open spec fn rook_mask(x: int, y: int) -> u64 {
    mask_bits(x, y, 1, 0, 7) | mask_bits(x, y, -1, 0, 7) | mask_bits(x, y, 0, 1, 7) | mask_bits(
        x,
        y,
        0,
        -1,
        7,
    )
}

/// Masking the occupancy to one walk's relevant squares does not change
/// that walk: off-line squares never matter, and the final square of the
/// line blocks nothing beyond the edge.
pub proof fn lemma_ray_masked(cx: int, cy: int, dx: int, dy: int, occ: u64, m: u64, fuel: nat)
    requires
        mask_bits(cx, cy, dx, dy, fuel) & !m == 0,
    ensures
        ray_bits(cx, cy, dx, dy, occ & m, fuel) == ray_bits(cx, cy, dx, dy, occ, fuel),
    decreases fuel,
{
    if fuel > 0 {
        let nx = cx + dx;
        let ny = cy + dy;
        if in_b(nx, ny) {
            lemma_sq(nx, ny);
            if !in_b(nx + dx, ny + dy) {
                // Final square of the line: the walk ends here either way.
                assert(ray_bits(nx, ny, dx, dy, occ & m, (fuel - 1) as nat) == 0);
                assert(ray_bits(nx, ny, dx, dy, occ, (fuel - 1) as nat) == 0);
                crate::bits::lemma_or_basic(bmask(sq(nx, ny)), 0, 0);
            } else {
                let s = sq(nx, ny);
                assert((bmask(s) | mask_bits(nx, ny, dx, dy, (fuel - 1) as nat)) & !m == 0);
                lemma_or_parts_zero(bmask(s), mask_bits(nx, ny, dx, dy, (fuel - 1) as nat), !m);
                assert(bmask(s) & !m == 0);
                assert(m & (1u64 << s) != 0) by (bit_vector)
                    requires
                        s < 64,
                        (1u64 << s) & !m == 0,
                ;
                lemma_mask_bit(occ, m, s);
                lemma_ray_masked(nx, ny, dx, dy, occ, m, (fuel - 1) as nat);
            }
        }
    }
}

/// Masking the occupancy to the rook's relevant squares does not change
/// its attack set.
pub proof fn lemma_rook_rays_masked(x: int, y: int, occ: u64)
    ensures
        rook_rays(x, y, occ & rook_mask(x, y)) == rook_rays(x, y, occ),
{
    let m = rook_mask(x, y);
    lemma_subset_or4(
        mask_bits(x, y, 1, 0, 7),
        mask_bits(x, y, -1, 0, 7),
        mask_bits(x, y, 0, 1, 7),
        mask_bits(x, y, 0, -1, 7),
    );
    lemma_ray_masked(x, y, 1, 0, occ, m, 7);
    lemma_ray_masked(x, y, -1, 0, occ, m, 7);
    lemma_ray_masked(x, y, 0, 1, occ, m, 7);
    lemma_ray_masked(x, y, 0, -1, occ, m, 7);
}

/// One walk of the board, collecting attacked squares.
fn ray_scan(x: u64, y: u64, dx: i64, dy: i64, occ: u64) -> (r: u64)
    requires
        x < 8,
        y < 8,
        -1 <= dx <= 1,
        -1 <= dy <= 1,
        !(dx == 0 && dy == 0),
    ensures
        r == ray_bits(x as int, y as int, dx as int, dy as int, occ, 7),
{
    let mut acc: u64 = 0;
    let mut cx: i64 = x as i64;
    let mut cy: i64 = y as i64;
    let mut j: u64 = 0;
    proof {
        lemma_or_basic(ray_bits(x as int, y as int, dx as int, dy as int, occ, 7), 0, 0);
        lemma_or_basic(0, 0, 0);
    }
    while j < 7
        invariant_except_break
            j <= 7,
            0 <= cx < 8,
            0 <= cy < 8,
            -1 <= dx <= 1,
            -1 <= dy <= 1,
            acc | 0 == acc,
            ray_bits(x as int, y as int, dx as int, dy as int, occ, 7) == acc | ray_bits(
                cx as int,
                cy as int,
                dx as int,
                dy as int,
                occ,
                (7 - j) as nat,
            ),
        ensures
            ray_bits(x as int, y as int, dx as int, dy as int, occ, 7) == acc,
        decreases 7 - j,
    {
        let nx = cx + dx;
        let ny = cy + dy;
        if nx >= 8 || ny >= 8 || nx < 0 || ny < 0 {
            proof {
                lemma_or_basic(acc, 0, 0);
            }
            break ;
        }
        proof {
            lemma_sq(nx as int, ny as int);
        }
        let s: u64 = (nx + 8 * ny) as u64;
        if test_bit(occ, s) {
            acc = acc | (1u64 << s);
            proof {
                lemma_or_basic(acc, 0, 0);
            }
            break ;
        }
        proof {
            lemma_or_basic(
                acc,
                bmask(sq(nx as int, ny as int)),
                ray_bits(nx as int, ny as int, dx as int, dy as int, occ, (7 - j - 1) as nat),
            );
        }
        acc = acc | (1u64 << s);
        proof {
            lemma_or_basic(acc, 0, 0);
        }
        cx = nx;
        cy = ny;
        j = j + 1;
    }
    acc
}

/// The rook attack set of `(x, y)` under `occ`, by walking the four lines.
fn rook_attacks_scan(x: u64, y: u64, occ: u64) -> (r: u64)
    requires
        x < 8,
        y < 8,
    ensures
        r == rook_rays(x as int, y as int, occ),
{
    let r1 = ray_scan(x, y, 1, 0, occ);
    let r2 = ray_scan(x, y, -1, 0, occ);
    let r3 = ray_scan(x, y, 0, 1, occ);
    let r4 = ray_scan(x, y, 0, -1, occ);
    proof {
        lemma_or_basic(r1 | r2, r3, r4);
        lemma_or_basic(r1, r2, r3);
    }
    (r1 | r2) | (r3 | r4)
}

/// One walk of the board, collecting the relevant squares.
fn mask_scan(x: u64, y: u64, dx: i64, dy: i64) -> (r: u64)
    requires
        x < 8,
        y < 8,
        -1 <= dx <= 1,
        -1 <= dy <= 1,
        !(dx == 0 && dy == 0),
    ensures
        r == mask_bits(x as int, y as int, dx as int, dy as int, 7),
{
    let mut acc: u64 = 0;
    let mut cx: i64 = x as i64;
    let mut cy: i64 = y as i64;
    let mut j: u64 = 0;
    proof {
        lemma_or_basic(mask_bits(x as int, y as int, dx as int, dy as int, 7), 0, 0);
        lemma_or_basic(0, 0, 0);
    }
    while j < 7
        invariant_except_break
            j <= 7,
            0 <= cx < 8,
            0 <= cy < 8,
            -1 <= dx <= 1,
            -1 <= dy <= 1,
            acc | 0 == acc,
            mask_bits(x as int, y as int, dx as int, dy as int, 7) == acc | mask_bits(
                cx as int,
                cy as int,
                dx as int,
                dy as int,
                (7 - j) as nat,
            ),
        ensures
            mask_bits(x as int, y as int, dx as int, dy as int, 7) == acc,
        decreases 7 - j,
    {
        let nx = cx + dx;
        let ny = cy + dy;
        let fx = nx + dx;
        let fy = ny + dy;
        if nx >= 8 || ny >= 8 || nx < 0 || ny < 0 || fx >= 8 || fy >= 8 || fx < 0 || fy < 0 {
            proof {
                lemma_or_basic(acc, 0, 0);
            }
            break ;
        }
        proof {
            lemma_sq(nx as int, ny as int);
            lemma_or_basic(
                acc,
                bmask(sq(nx as int, ny as int)),
                mask_bits(nx as int, ny as int, dx as int, dy as int, (7 - j - 1) as nat),
            );
        }
        let s: u64 = (nx + 8 * ny) as u64;
        acc = acc | (1u64 << s);
        proof {
            lemma_or_basic(acc, 0, 0);
        }
        cx = nx;
        cy = ny;
        j = j + 1;
    }
    acc
}

/// The relevant-occupancy mask of the square with index `s`.
fn rook_mask_of(s: u64) -> (r: u64)
    requires
        s < 64,
    ensures
        r == rook_mask((s % 8) as int, (s / 8) as int),
{
    let x = s % 8;
    let y = s / 8;
    let m1 = mask_scan(x, y, 1, 0);
    let m2 = mask_scan(x, y, -1, 0);
    let m3 = mask_scan(x, y, 0, 1);
    let m4 = mask_scan(x, y, 0, -1);
    proof {
        lemma_or_basic(m1 | m2, m3, m4);
        lemma_or_basic(m1, m2, m3);
    }
    (m1 | m2) | (m3 | m4)
}

} // verus!

verus! {

/// Relies on rand::random: a fresh pseudo-random value each call.
#[verifier::external_body]
fn random_u64() -> u64 {
    rand::random::<u64>()
}

/// A vector of `n` copies of one boolean.
fn filled_bool(n: usize, v: bool) -> (r: Vec<bool>)
    ensures
        r@.len() == n,
        forall|i: int| 0 <= i < n ==> #[trigger] r@[i] == v,
{
    let mut r: Vec<bool> = Vec::new();
    let mut i: usize = 0;
    while i < n
        invariant
            i <= n,
            r@.len() == i,
            forall|j: int| 0 <= j < i ==> #[trigger] r@[j] == v,
        decreases n - i,
    {
        r.push(v);
        i = i + 1;
    }
    r
}

/// A vector of `n` copies of one value.
fn filled_u64(n: usize, v: u64) -> (r: Vec<u64>)
    ensures
        r@.len() == n,
        forall|i: int| 0 <= i < n ==> #[trigger] r@[i] == v,
{
    let mut r: Vec<u64> = Vec::new();
    let mut i: usize = 0;
    while i < n
        invariant
            i <= n,
            r@.len() == i,
            forall|j: int| 0 <= j < i ==> #[trigger] r@[j] == v,
        decreases n - i,
    {
        r.push(v);
        i = i + 1;
    }
    r
}

/// The rook lookup table: for each square its relevant-occupancy mask, a
/// multiplier and shift, and a table of attack bitboards indexed by the
/// multiply-then-shift hash of the relevant occupancy. Beside each slot the
/// occupancy that filled it is kept, so a lookup can check its slot.
pub struct LookupTable {
    pub masks: Vec<u64>,
    pub magics: Vec<u64>,
    pub shifts: Vec<u64>,
    pub used: Vec<Vec<bool>>,
    pub keys: Vec<Vec<u64>>,
    pub tables: Vec<Vec<u64>>,
}

/// The table's invariant: sixty-four squares, each with its true relevant
/// mask, a shift that fits its table, and every filled slot holding the
/// true attack set of the occupancy that filled it.
pub open spec fn table_ok(t: LookupTable) -> bool {
    &&& t.masks@.len() == 64
    &&& t.magics@.len() == 64
    &&& t.shifts@.len() == 64
    &&& t.used@.len() == 64
    &&& t.keys@.len() == 64
    &&& t.tables@.len() == 64
    &&& forall|s: int| 0 <= s < 64 ==> #[trigger] t.masks@[s] == rook_mask(s % 8, s / 8)
    &&& forall|s: int| 0 <= s < 64 ==> 48 < #[trigger] t.shifts@[s] < 64
    &&& forall|s: int|
        0 <= s < 64 ==> (#[trigger] t.tables@[s])@.len() == (1u64 << ((64 - t.shifts@[s]) as u64))
    &&& forall|s: int| 0 <= s < 64 ==> (#[trigger] t.keys@[s])@.len() == t.tables@[s]@.len()
    &&& forall|s: int| 0 <= s < 64 ==> (#[trigger] t.used@[s])@.len() == t.tables@[s]@.len()
    &&& forall|s: int, h: int|
        0 <= s < 64 && 0 <= h < t.tables@[s]@.len() && (#[trigger] t.used@[s]@[h])
            ==> t.tables@[s]@[h] == rook_rays(s % 8, s / 8, t.keys@[s]@[h])
}

/// The square index a one-hot bitboard stands for.
pub open spec fn square_of(pm: u64) -> int {
    choose|s: int| 0 <= s < 64 && pm == #[trigger] (1u64 << (s as u64))
}

impl LookupTable {
    /// Build the table: for every square, random multipliers are tried
    /// until one maps every relevant occupancy to its own slot without a
    /// harmful collision — validated by enumerating all of them. With no
    /// collision-free multiplier found the construction reports failure.
    pub fn new() -> (r: Option<LookupTable>)
        ensures
            r matches Option::Some(t) ==> table_ok(t),
    {
        let mut masks: Vec<u64> = Vec::new();
        let mut magics: Vec<u64> = Vec::new();
        let mut shifts: Vec<u64> = Vec::new();
        let mut used: Vec<Vec<bool>> = Vec::new();
        let mut keys: Vec<Vec<u64>> = Vec::new();
        let mut tables: Vec<Vec<u64>> = Vec::new();
        let mut s: u64 = 0;
        while s < 64
            invariant
                s <= 64,
                masks@.len() == s,
                magics@.len() == s,
                shifts@.len() == s,
                used@.len() == s,
                keys@.len() == s,
                tables@.len() == s,
                forall|i: int| 0 <= i < s ==> #[trigger] masks@[i] == rook_mask(i % 8, i / 8),
                forall|i: int| 0 <= i < s ==> 48 < #[trigger] shifts@[i] < 64,
                forall|i: int|
                    0 <= i < s ==> (#[trigger] tables@[i])@.len() == (1u64 << ((64
                        - shifts@[i]) as u64)),
                forall|i: int| 0 <= i < s ==> (#[trigger] keys@[i])@.len() == tables@[i]@.len(),
                forall|i: int| 0 <= i < s ==> (#[trigger] used@[i])@.len() == tables@[i]@.len(),
                forall|i: int, h: int|
                    0 <= i < s && 0 <= h < tables@[i]@.len() && (#[trigger] used@[i]@[h])
                        ==> tables@[i]@[h] == rook_rays(i % 8, i / 8, keys@[i]@[h]),
            decreases 64 - s,
        {
            let x = s % 8;
            let y = s / 8;
            let mask = rook_mask_of(s);
            let n = count_bits(mask) as u64;
            if n > 13 {
                return Option::None;
            }
            let sh: u64 = 64 - (n + 2);
            proof {
                assert((1u64 << ((64 - sh) as u64)) <= 0x8000u64) by (bit_vector)
                    requires
                        48 < sh < 64,
                ;
            }
            let tlen: usize = (1u64 << (64 - sh)) as usize;
            // The positions of the mask's bits, for subset enumeration.
            let mut positions: Vec<u64> = Vec::new();
            let mut b: u64 = 0;
            while b < 64
                invariant
                    b <= 64,
                    forall|j: int| 0 <= j < positions@.len() ==> #[trigger] positions@[j] < 64,
                decreases 64 - b,
            {
                if test_bit(mask, b) {
                    positions.push(b);
                }
                b = b + 1;
            }
            if positions.len() > 13 {
                return Option::None;
            }
            let mut tries: u64 = 0;
            let mut done = false;
            let mut used_v: Vec<bool> = Vec::new();
            let mut keys_v: Vec<u64> = Vec::new();
            let mut tables_v: Vec<u64> = Vec::new();
            let mut magic: u64 = 0;
            while tries < 100000 && !done
                invariant
                    x == s % 8,
                    y == s / 8,
                    s < 64,
                    x < 8,
                    y < 8,
                    48 < sh < 64,
                    tlen == (1u64 << ((64 - sh) as u64)),
                    positions@.len() <= 13,
                    forall|j: int| 0 <= j < positions@.len() ==> #[trigger] positions@[j] < 64,
                    done ==> used_v@.len() == tlen && keys_v@.len() == tlen && tables_v@.len()
                        == tlen && forall|h: int|
                        0 <= h < tlen && (#[trigger] used_v@[h]) ==> tables_v@[h] == rook_rays(
                            x as int,
                            y as int,
                            keys_v@[h],
                        ),
                decreases 100000 - tries, 1int,
            {
                magic = random_u64() & random_u64() & random_u64();
                if magic == 0 {
                    tries = tries + 1;
                    continue ;
                }
                let mut uv = filled_bool(tlen, false);
                let mut kv = filled_u64(tlen, 0);
                let mut tv = filled_u64(tlen, 0);
                let total: u64 = 1u64 << (positions.len() as u64);
                let mut cnt: u64 = 0;
                let mut failed = false;
                while cnt < total && !failed
                    invariant
                        x < 8,
                        y < 8,
                        48 < sh < 64,
                        tlen == (1u64 << ((64 - sh) as u64)),
                        positions@.len() <= 13,
                        forall|j: int| 0 <= j < positions@.len() ==> #[trigger] positions@[j]
                            < 64,
                        uv@.len() == tlen,
                        kv@.len() == tlen,
                        tv@.len() == tlen,
                        forall|h: int|
                            0 <= h < tlen && (#[trigger] uv@[h]) ==> tv@[h] == rook_rays(
                                x as int,
                                y as int,
                                kv@[h],
                            ),
                    decreases total - cnt,
                {
                    let mut subset: u64 = 0;
                    let mut j: usize = 0;
                    while j < positions.len()
                        invariant
                            forall|jj: int|
                                0 <= jj < positions@.len() ==> #[trigger] positions@[jj] < 64,
                            j <= positions@.len(),
                            positions@.len() <= 13,
                        decreases positions@.len() - j,
                    {
                        if (cnt >> (j as u64)) & 1 == 1 {
                            subset = subset | (1u64 << positions[j]);
                        }
                        j = j + 1;
                    }
                    let attack = rook_attacks_scan(x, y, subset);
                    let hv = subset.wrapping_mul(magic);
                    proof {
                        lemma_shift_bound(hv, sh);
                    }
                    let h = (hv >> sh) as usize;
                    if used_slot(&uv, h) {
                        if keys_at(&kv, h) != subset {
                            failed = true;
                        }
                    } else {
                        uv.set(h, true);
                        kv.set(h, subset);
                        tv.set(h, attack);
                    }
                    cnt = cnt + 1;
                }
                if !failed {
                    done = true;
                    used_v = uv;
                    keys_v = kv;
                    tables_v = tv;
                }
                tries = tries + 1;
            }
            if !done {
                return Option::None;
            }
            masks.push(mask);
            magics.push(magic);
            shifts.push(sh);
            used.push(used_v);
            keys.push(keys_v);
            tables.push(tables_v);
            s = s + 1;
        }
        Option::Some(
            LookupTable { masks, magics, shifts, used, keys, tables },
        )
    }

    /// The attack bitboard of the rook standing on the square of
    /// `position_map`, under the occupancy `all_pieces`: the relevant
    /// occupancy is hashed into the square's table; a slot filled by a
    /// different occupancy falls back to walking the four lines.
    pub fn get_rook_moves(&self, position_map: u64, all_pieces: u64) -> (r: u64)
        requires
            table_ok(*self),
            one_bit(position_map),
        ensures
            r == rook_rays(square_of(position_map) % 8, square_of(position_map) / 8, all_pieces),
    {
        let idx = crate::bits::bit_index(position_map);
        proof {
            assert(0 <= idx < 64 && position_map == (1u64 << ((idx as int) as u64)));
            let w = square_of(position_map);
            crate::bits::lemma_bmask_bits(idx, idx);
            crate::bits::lemma_bmask_bits(w as u64, idx);
            assert(w == idx as int);
        }
        let x = idx % 8;
        let y = idx / 8;
        let mask = self.get_rook_move_mask(idx);
        let rel = all_pieces & mask;
        let magic = self.magics[idx as usize];
        let sh = self.shifts[idx as usize];
        let hv = rel.wrapping_mul(magic);
        proof {
            lemma_shift_bound(hv, sh);
        }
        let h = (hv >> sh) as usize;
        let r = if used_slot(&self.used[idx as usize], h) && keys_at(&self.keys[idx as usize], h)
            == rel {
            self.tables[idx as usize][h]
        } else {
            rook_attacks_scan(x, y, rel)
        };
        proof {
            lemma_rook_rays_masked(idx as int % 8, idx as int / 8, all_pieces);
        }
        r
    }

    /// The relevant-occupancy mask of the square with index `square`.
    pub fn get_rook_move_mask(&self, square: u64) -> (r: u64)
        requires
            table_ok(*self),
            square < 64,
        ensures
            r == rook_mask((square % 8) as int, (square / 8) as int),
    {
        self.masks[square as usize]
    }
}

/// Whether the slot at `h` has been filled.
fn used_slot(uv: &Vec<bool>, h: usize) -> (r: bool)
    requires
        h < uv@.len(),
    ensures
        r == uv@[h as int],
{
    uv[h]
}

/// The occupancy stored at slot `h`.
fn keys_at(kv: &Vec<u64>, h: usize) -> (r: u64)
    requires
        h < kv@.len(),
    ensures
        r == kv@[h as int],
{
    kv[h]
}

} // verus!
