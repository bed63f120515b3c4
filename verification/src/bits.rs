//! Bitboard primitives: single-bit tests, masks, and population count,
//! with the bit-level lemmas the rest of the crate builds on.
use vstd::prelude::*;

verus! {

/// The 64-bit mask with exactly bit `s` set.
pub open spec fn bmask(s: u64) -> u64 {
    1u64 << s
}

/// Whether bit `s` of the bitboard `bb` is set.
pub open spec fn bit_set(bb: u64, s: u64) -> bool {
    bb & (1u64 << s) != 0
}

/// A bitboard with exactly one set bit.
pub open spec fn one_bit(bb: u64) -> bool {
    exists|s: u64| s < 64 && bb == (1u64 << s)
}

/// Number of set bits among the low `n` bits of `bb`.
pub open spec fn pop_below(bb: u64, n: nat) -> nat
    decreases n,
{
    if n == 0 {
        0
    } else if n > 64 {
        pop_below(bb, 64)
    } else {
        pop_below(bb, (n - 1) as nat) + if bit_set(bb, (n - 1) as u64) {
            1nat
        } else {
            0nat
        }
    }
}

/// Number of set bits of `bb`.
pub open spec fn popcount(bb: u64) -> nat {
    pop_below(bb, 64)
}

pub proof fn lemma_pop_below_bound(bb: u64, n: nat)
    ensures
        pop_below(bb, n) <= n,
    decreases n,
{
    if n > 0 && n <= 64 {
        lemma_pop_below_bound(bb, (n - 1) as nat);
    } else if n > 64 {
        lemma_pop_below_bound(bb, 64);
    }
}

/// Setting bit `s` sets exactly that bit.
pub proof fn lemma_bit_or(bb: u64, s: u64, t: u64)
    by (bit_vector)
    requires
        s < 64,
        t < 64,
    ensures
        ((bb | (1u64 << s)) & (1u64 << t) != 0) <==> (t == s || bb & (1u64 << t) != 0),
{
}

/// Clearing bit `s` clears exactly that bit.
pub proof fn lemma_bit_clear(bb: u64, s: u64, t: u64)
    by (bit_vector)
    requires
        s < 64,
        t < 64,
    ensures
        ((bb & !(1u64 << s)) & (1u64 << t) != 0) <==> (t != s && bb & (1u64 << t) != 0),
{
}

/// Disjoint bitboards share no set bit.
pub proof fn lemma_disjoint_bit(a: u64, b: u64, s: u64)
    by (bit_vector)
    requires
        s < 64,
        a & b == 0,
        a & (1u64 << s) != 0,
    ensures
        b & (1u64 << s) == 0,
{
}

/// A one-hot mask has its own bit and no other.
pub proof fn lemma_bmask_bits(s: u64, t: u64)
    by (bit_vector)
    requires
        s < 64,
        t < 64,
    ensures
        ((1u64 << s) & (1u64 << t) != 0) <==> s == t,
{
}

/// The zero bitboard has no set bit.
pub proof fn lemma_zero_bits(t: u64)
    by (bit_vector)
    requires
        t < 64,
    ensures
        0u64 & (1u64 << t) == 0,
{
}


/// Test bit `s` of `bb`.
pub fn test_bit(bb: u64, s: u64) -> (r: bool)
    requires
        s < 64,
    ensures
        r == bit_set(bb, s),
{
    bb & (1u64 << s) != 0
}

/// Count the set bits of `bb`.
pub fn count_bits(bb: u64) -> (r: u32)
    ensures
        r == popcount(bb),
{
    let mut r: u32 = 0;
    let mut i: u64 = 0;
    while i < 64
        invariant
            i <= 64,
            r == pop_below(bb, i as nat),
        decreases 64 - i,
    {
        proof {
            lemma_pop_below_bound(bb, i as nat);
        }
        if test_bit(bb, i) {
            r = r + 1;
        }
        i = i + 1;
    }
    r
}

/// Index of the single set bit of a one-hot bitboard.
pub fn bit_index(bb: u64) -> (r: u64)
    requires
        one_bit(bb),
    ensures
        r < 64,
        bb == (1u64 << r),
{
    let mut i: u64 = 0;
    while i < 64
        invariant
            i <= 64,
            one_bit(bb),
            forall|s: u64| s < i ==> bb != (1u64 << s),
        decreases 64 - i,
    {
        if test_bit(bb, i) {
            proof {
                let w = choose|s: u64| s < 64 && bb == (1u64 << s);
                lemma_bmask_bits(w, i);
            }
            return i;
        }
        proof {
            assert(bb & (1u64 << i) == 0 ==> bb != (1u64 << i)) by (bit_vector)
                requires
                    i < 64,
            ;
        }
        i = i + 1;
    }
    proof {
        let w = choose|s: u64| s < 64 && bb == (1u64 << s);
        assert(false);
    }
    0
}

} // verus!

verus! {

/// Moving a set bit from `s` to `t` leaves exactly bit `t`.
pub proof fn lemma_move_bit(bb: u64, s: u64, t: u64)
    by (bit_vector)
    requires
        s < 64,
        t < 64,
        s != t,
        bb == (1u64 << s),
    ensures
        ((bb | (1u64 << t)) & !(1u64 << s)) == (1u64 << t),
{
}

} // verus!

verus! {

/// Whether `bb` has exactly one set bit.
pub fn is_one_bit(bb: u64) -> (r: bool)
    ensures
        r == one_bit(bb),
{
    if bb == 0 {
        proof {
            if one_bit(0u64) {
                let w = choose|s: u64| s < 64 && 0u64 == (1u64 << s);
                lemma_bmask_bits(w, w);
                lemma_zero_bits(w);
            }
        }
        return false;
    }
    let mut i: u64 = 0;
    while i < 64
        invariant
            i <= 64,
            bb != 0,
            forall|s: u64| s < i ==> bb != (1u64 << s),
        decreases 64 - i,
    {
        if test_bit(bb, i) {
            proof {
                if one_bit(bb) {
                    let w = choose|s: u64| s < 64 && bb == (1u64 << s);
                    lemma_bmask_bits(w, i);
                }
            }
            return bb == (1u64 << i);
        }
        proof {
            assert(bb & (1u64 << i) == 0 ==> bb != (1u64 << i)) by (bit_vector)
                requires
                    i < 64,
            ;
        }
        i = i + 1;
    }
    proof {
        if one_bit(bb) {
            let w = choose|s: u64| s < 64 && bb == (1u64 << s);
            assert(false);
        }
    }
    false
}

} // verus!

verus! {

/// Intersection does not depend on the order of its arguments.
pub proof fn lemma_and_comm(a: u64, b: u64)
    by (bit_vector)
    ensures
        a & b == b & a,
{
}

} // verus!

verus! {

/// A union covers each of its parts.
pub proof fn lemma_or_parts_zero(x: u64, y: u64, z: u64)
    by (bit_vector)
    requires
        (x | y) & z == 0,
    ensures
        x & z == 0,
        y & z == 0,
{
}

/// Each part of a four-way union is inside it.
pub proof fn lemma_subset_or4(a: u64, b: u64, c: u64, d: u64)
    by (bit_vector)
    ensures
        a & !(a | b | c | d) == 0,
        b & !(a | b | c | d) == 0,
        c & !(a | b | c | d) == 0,
        d & !(a | b | c | d) == 0,
{
}

/// Union is associative and ignores zero.
pub proof fn lemma_or_basic(a: u64, b: u64, c: u64)
    by (bit_vector)
    ensures
        (a | b) | c == a | (b | c),
        a | 0 == a,
        0 | a == a,
{
}

/// A bit outside a mask is cleared by it; a bit inside it is kept.
pub proof fn lemma_mask_bit(occ: u64, m: u64, s: u64)
    by (bit_vector)
    requires
        s < 64,
        m & (1u64 << s) != 0,
    ensures
        ((occ & m) & (1u64 << s) != 0) == (occ & (1u64 << s) != 0),
{
}

/// A shifted value stays below the corresponding power of two.
pub proof fn lemma_shift_bound(v: u64, sh: u64)
    by (bit_vector)
    requires
        48 < sh < 64,
    ensures
        (v >> sh) < (1u64 << ((64 - sh) as u64)),
{
}

} // verus!
