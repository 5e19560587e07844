//! Counting the bits of a 64-bit mask.

use vstd::prelude::*;

verus! {

/// The number of bits set in `x`.
pub open spec fn popcount(x: u64) -> nat
    decreases x,
{
    if x == 0 {
        0
    } else {
        (x % 2) as nat + popcount(x / 2)
    }
}

/// `b` has exactly one bit set.
pub open spec fn is_single_bit(b: u64) -> bool {
    b != 0 && b & ((b - 1) as u64) == 0
}

/// A mask below `2^k` has at most `k` bits set.
proof fn lemma_popcount_below(x: u64, k: nat)
    requires
        x < vstd::arithmetic::power2::pow2(k),
    ensures
        popcount(x) <= k,
    decreases k,
{
    if x != 0 {
        if k == 0 {
            assert(vstd::arithmetic::power2::pow2(0) == 1) by {
                vstd::arithmetic::power2::lemma2_to64();
            }
        } else {
            vstd::arithmetic::power2::lemma_pow2_unfold(k);
            lemma_popcount_below(x / 2, (k - 1) as nat);
        }
    }
}

/// No mask has more than 64 bits set.
pub proof fn lemma_popcount_at_most_64(x: u64)
    ensures
        popcount(x) <= 64,
{
    vstd::arithmetic::power2::lemma2_to64();
    lemma_popcount_below(x, 64);
}

/// Only the empty mask has no bit set.
pub proof fn lemma_popcount_zero(x: u64)
    requires
        popcount(x) == 0,
    ensures
        x == 0,
    decreases x,
{
    if x != 0 {
        lemma_popcount_zero(x / 2);
    }
}

/// Clearing the lowest set bit of a mask lowers its count by one.
pub proof fn lemma_popcount_clear_lowest(x: u64)
    requires
        x != 0,
    ensures
        x & ((x - 1) as u64) < x,
        popcount(x) == 1 + popcount(x & ((x - 1) as u64)),
    decreases x,
{
    let y = x & ((x - 1) as u64);
    let h = x / 2;
    assert(y < x && (x % 2 == 1 ==> y == x - 1) && (x % 2 == 0 ==> h != 0 && y % 2 == 0 && y / 2
        == h & ((h - 1) as u64))) by (bit_vector)
        requires
            x != 0,
            y == x & ((x - 1) as u64),
            h == x / 2,
    ;
    if x % 2 == 1 {
        assert(y / 2 == x / 2);
        if y == 0 {
            assert(popcount(h) == 0);
        }
    } else {
        lemma_popcount_clear_lowest(h);
    }
}

/// Setting one bit that was clear raises the count by one.
pub proof fn lemma_popcount_set_bit(x: u64, b: u64)
    requires
        is_single_bit(b),
        x & b == 0,
    ensures
        popcount(x | b) == popcount(x) + 1,
    decreases b,
{
    let z = x | b;
    let (hx, hb) = (x / 2, b / 2);
    assert(z != 0 && (b == 1 ==> x % 2 == 0 && z % 2 == 1 && z / 2 == x / 2) && (b != 1 ==> hb
        != 0 && hb & ((hb - 1) as u64) == 0 && hx & hb == 0 && z % 2 == x % 2 && z / 2 == hx | hb
        && hb < b)) by (bit_vector)
        requires
            b != 0 && b & ((b - 1) as u64) == 0,
            x & b == 0,
            z == x | b,
            hx == x / 2,
            hb == b / 2,
    ;
    if b != 1 {
        lemma_popcount_set_bit(hx, hb);
    }
}

/// A mask splits into a part of it and the rest, and so does its count.
pub proof fn lemma_popcount_split(x: u64, part: u64)
    requires
        part & !x == 0,
    ensures
        popcount(x) == popcount(part) + popcount(x ^ part),
    decreases x,
{
    let r = x ^ part;
    let (hx, hp) = (x / 2, part / 2);
    assert((x == 0 ==> part == 0 && r == 0) && hp & !hx == 0 && r / 2 == hx ^ hp && x % 2 == part
        % 2 + r % 2) by (bit_vector)
        requires
            part & !x == 0,
            r == x ^ part,
            hx == x / 2,
            hp == part / 2,
    ;
    if x != 0 {
        lemma_popcount_split(hx, hp);
    }
}

} // verus!
