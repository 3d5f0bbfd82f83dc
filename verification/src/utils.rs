//! Rotations of an 8x8 board held in a 64-bit mask.
use crate::bits::{
    bit_set, group_bits, lemma_and_square_bit, lemma_popcount_below_set, mask_where, popcount,
    set_bits, square_bit,
};
use vstd::prelude::*;

verus! {

/// The square whose stone lands on square `t` when the board turns a quarter
/// clockwise (row `r`, column `c` goes to row `c`, column `7 - r`).
pub open spec fn cw_source(t: int) -> int {
    (7 - t % 8) * 8 + t / 8
}

/// The square whose stone lands on square `t` when the board turns a quarter
/// counterclockwise (row `r`, column `c` goes to row `7 - c`, column `r`).
pub open spec fn ccw_source(t: int) -> int {
    (t % 8) * 8 + (7 - t / 8)
}

/// The mask `mask` turned a quarter clockwise.
pub open spec fn rotated_cw(mask: u64) -> u64 {
    mask_where(|t: int| bit_set(mask, cw_source(t) as u64))
}

/// The mask `mask` turned a quarter counterclockwise.
pub open spec fn rotated_ccw(mask: u64) -> u64 {
    mask_where(|t: int| bit_set(mask, ccw_source(t) as u64))
}

/// Turning clockwise undoes turning counterclockwise, square by square.
pub proof fn lemma_sources_inverse(t: int)
    requires
        0 <= t < 64,
    ensures
        0 <= cw_source(t) < 64,
        0 <= ccw_source(t) < 64,
        cw_source(ccw_source(t)) == t,
        ccw_source(cw_source(t)) == t,
{
}

/// Bit `t` of a clockwise turn is bit `cw_source(t)` of the mask.
pub proof fn lemma_rotated_cw_bit(mask: u64, t: u64)
    requires
        t < 64,
    ensures
        bit_set(rotated_cw(mask), t) == bit_set(mask, cw_source(t as int) as u64),
{
    crate::bits::lemma_mask_where_bit(|t: int| bit_set(mask, cw_source(t) as u64), t);
}

/// Bit `t` of a counterclockwise turn is bit `ccw_source(t)` of the mask.
pub proof fn lemma_rotated_ccw_bit(mask: u64, t: u64)
    requires
        t < 64,
    ensures
        bit_set(rotated_ccw(mask), t) == bit_set(mask, ccw_source(t as int) as u64),
{
    crate::bits::lemma_mask_where_bit(|t: int| bit_set(mask, ccw_source(t) as u64), t);
}

/// Rotates a 64-bit bitmask representing an 8x8 board 90 degrees clockwise.
pub fn rotate_mask_90_cw(mask: u64) -> (r: u64)
    ensures
        r == rotated_cw(mask),
{
    broadcast use group_bits;

    let mut rotated = 0u64;
    for row in 0..8u64
        invariant
            forall|t: u64|
                t < 64 ==> #[trigger] bit_set(rotated, t) == (cw_source(t as int) < row * 8 && bit_set(
                    mask,
                    cw_source(t as int) as u64,
                )),
    {
        for col in 0..8u64
            invariant
                row < 8,
                forall|t: u64|
                    t < 64 ==> #[trigger] bit_set(rotated, t) == (cw_source(t as int) < row * 8 + col
                        && bit_set(mask, cw_source(t as int) as u64)),
        {
            // Calculate the bit position in the original mask
            let square = row * 8 + col;
            let original_bit = 1u64 << square;
            proof {
                lemma_and_square_bit(mask, square);
            }
            // If the bit is set, calculate its new position in the rotated board
            if mask & original_bit != 0 {
                let target = (7 - row) + col * 8;
                let rotated_bit = 1u64 << target;
                let ghost old_rotated = rotated;
                rotated |= rotated_bit;
                proof {
                    assert(cw_source(target as int) == row * 8 + col);
                    assert forall|t: u64| t < 64 implies #[trigger] bit_set(rotated, t) == (cw_source(
                        t as int,
                    ) < row * 8 + col + 1 && bit_set(mask, cw_source(t as int) as u64)) by {
                        assert(target < 64);
                        crate::bits::lemma_square_bit(target, t);
                        crate::bits::lemma_bit_or(old_rotated, rotated_bit, t);
                        lemma_sources_inverse(t as int);
                        lemma_sources_inverse(target as int);
                    }
                }
            } else {
                proof {
                    assert forall|t: u64| t < 64 implies #[trigger] bit_set(rotated, t) == (cw_source(
                        t as int,
                    ) < row * 8 + col + 1 && bit_set(mask, cw_source(t as int) as u64)) by {
                        lemma_sources_inverse(t as int);
                    }
                }
            }
        }
    }
    proof {
        assert forall|t: u64| t < 64 implies #[trigger] bit_set(rotated, t) == bit_set(
            mask,
            cw_source(t as int) as u64,
        ) by {
            lemma_sources_inverse(t as int);
        }
        crate::bits::lemma_mask_where_ext(|t: int| bit_set(mask, cw_source(t) as u64), rotated);
    }
    rotated
}

/// Rotates a 64-bit bitmask representing an 8x8 board 90 degrees counterclockwise.
pub fn rotate_mask_90_ccw(mask: u64) -> (r: u64)
    ensures
        r == rotated_ccw(mask),
{
    broadcast use group_bits;

    let mut rotated = 0u64;
    for row in 0..8u64
        invariant
            forall|t: u64|
                t < 64 ==> #[trigger] bit_set(rotated, t) == (ccw_source(t as int) < row * 8
                    && bit_set(mask, ccw_source(t as int) as u64)),
    {
        for col in 0..8u64
            invariant
                row < 8,
                forall|t: u64|
                    t < 64 ==> #[trigger] bit_set(rotated, t) == (ccw_source(t as int) < row * 8
                        + col && bit_set(mask, ccw_source(t as int) as u64)),
        {
            // Calculate the bit position in the original mask
            let square = row * 8 + col;
            let original_bit = 1u64 << square;
            proof {
                lemma_and_square_bit(mask, square);
            }
            // If the bit is set, calculate its new position in the rotated board
            if mask & original_bit != 0 {
                let target = (7 - col) * 8 + row;
                let rotated_bit = 1u64 << target;
                let ghost old_rotated = rotated;
                rotated |= rotated_bit;
                proof {
                    assert(ccw_source(target as int) == row * 8 + col);
                    assert forall|t: u64| t < 64 implies #[trigger] bit_set(rotated, t) == (ccw_source(
                        t as int,
                    ) < row * 8 + col + 1 && bit_set(mask, ccw_source(t as int) as u64)) by {
                        assert(target < 64);
                        crate::bits::lemma_square_bit(target, t);
                        crate::bits::lemma_bit_or(old_rotated, rotated_bit, t);
                        lemma_sources_inverse(t as int);
                        lemma_sources_inverse(target as int);
                    }
                }
            } else {
                proof {
                    assert forall|t: u64| t < 64 implies #[trigger] bit_set(rotated, t) == (ccw_source(
                        t as int,
                    ) < row * 8 + col + 1 && bit_set(mask, ccw_source(t as int) as u64)) by {
                        lemma_sources_inverse(t as int);
                    }
                }
            }
        }
    }
    proof {
        assert forall|t: u64| t < 64 implies #[trigger] bit_set(rotated, t) == bit_set(
            mask,
            ccw_source(t as int) as u64,
        ) by {
            lemma_sources_inverse(t as int);
        }
        crate::bits::lemma_mask_where_ext(|t: int| bit_set(mask, ccw_source(t) as u64), rotated);
    }
    rotated
}

/// Rotates a 64-bit bitmask representing an 8x8 board 180 degrees.
pub fn rotate_mask_180(mask: u64) -> (r: u64)
    ensures
        r == rotated_cw(rotated_cw(mask)),
{
    rotate_mask_90_cw(rotate_mask_90_cw(mask))
}

/// Rotates a 64-bit bitmask representing an 8x8 board 270 degrees clockwise.
pub fn rotate_mask_270_cw(mask: u64) -> (r: u64)
    ensures
        r == rotated_ccw(mask),
{
    rotate_mask_90_ccw(mask)
}

/// Rotates a 64-bit bitmask representing an 8x8 board 270 degrees counterclockwise.
pub fn rotate_mask_270_ccw(mask: u64) -> (r: u64)
    ensures
        r == rotated_cw(mask),
{
    rotate_mask_90_cw(mask)
}

/// Turning the board a quarter clockwise keeps the number of stones.
pub proof fn lemma_rotated_cw_popcount(mask: u64)
    ensures
        popcount(rotated_cw(mask)) == popcount(mask),
{
    let from = set_bits(mask, 64);
    let to = set_bits(rotated_cw(mask), 64);
    let f = |s: int| ccw_source(s);
    lemma_popcount_below_set(mask, 64);
    lemma_popcount_below_set(rotated_cw(mask), 64);
    assert forall|t: int| #[trigger] to.contains(t) <==> from.map(f).contains(t) by {
        if to.contains(t) {
            lemma_sources_inverse(t);
            lemma_rotated_cw_bit(mask, t as u64);
            let s = cw_source(t);
            assert(from.contains(s) && f(s) == t);
        }
        if from.map(f).contains(t) {
            let s = choose|s: int| from.contains(s) && f(s) == t;
            lemma_sources_inverse(s);
            lemma_rotated_cw_bit(mask, t as u64);
        }
    }
    assert(from.map(f) =~= to);
    assert forall|a: int, b: int|
        from.contains(a) && from.contains(b) && #[trigger] f(a) == #[trigger] f(b) implies a
        == b by {
        lemma_sources_inverse(a);
        lemma_sources_inverse(b);
    }
    assert(vstd::relations::injective_on(f, from));
    vstd::set_lib::lemma_map_size(from, to, f);
}

/// Turning a quarter clockwise and then a quarter counterclockwise (in
/// either order) gives the mask back.
pub proof fn lemma_rotations_inverse(mask: u64)
    ensures
        rotated_ccw(rotated_cw(mask)) == mask,
        rotated_cw(rotated_ccw(mask)) == mask,
{
    assert forall|t: u64| t < 64 implies #[trigger] bit_set(rotated_ccw(rotated_cw(mask)), t)
        == bit_set(mask, t) by {
        lemma_sources_inverse(t as int);
        lemma_rotated_ccw_bit(rotated_cw(mask), t);
        lemma_rotated_cw_bit(mask, ccw_source(t as int) as u64);
    }
    crate::bits::lemma_bits_ext(rotated_ccw(rotated_cw(mask)), mask);
    assert forall|t: u64| t < 64 implies #[trigger] bit_set(rotated_cw(rotated_ccw(mask)), t)
        == bit_set(mask, t) by {
        lemma_sources_inverse(t as int);
        lemma_rotated_cw_bit(rotated_ccw(mask), t);
        lemma_rotated_ccw_bit(mask, cw_source(t as int) as u64);
    }
    crate::bits::lemma_bits_ext(rotated_cw(rotated_ccw(mask)), mask);
}

/// Four quarter turns clockwise give the mask back, and so do two half turns.
pub proof fn lemma_four_quarter_turns(mask: u64)
    ensures
        rotated_cw(rotated_cw(rotated_cw(rotated_cw(mask)))) == mask,
{
    let h = rotated_cw(rotated_cw(mask));
    assert forall|t: u64| t < 64 implies #[trigger] bit_set(h, t) == bit_set(
        mask,
        cw_source(cw_source(t as int)) as u64,
    ) by {
        lemma_sources_inverse(t as int);
        lemma_rotated_cw_bit(rotated_cw(mask), t);
        lemma_rotated_cw_bit(mask, cw_source(t as int) as u64);
    }
    assert forall|t: u64| t < 64 implies #[trigger] bit_set(rotated_cw(rotated_cw(h)), t)
        == bit_set(mask, t) by {
        let u = cw_source(t as int);
        lemma_sources_inverse(t as int);
        lemma_sources_inverse(u);
        lemma_sources_inverse(cw_source(u));
        lemma_rotated_cw_bit(rotated_cw(h), t);
        lemma_rotated_cw_bit(h, u as u64);
        assert(bit_set(h, cw_source(u) as u64) == bit_set(
            mask,
            cw_source(cw_source(cw_source(u))) as u64,
        ));
    }
    crate::bits::lemma_bits_ext(rotated_cw(rotated_cw(h)), mask);
}

} // verus!
