//! Where each base pattern's digits start when the digits of all base
//! patterns are laid out one after another.
use crate::patterns::{base_pattern, lemma_base_pattern_shape, pattern, pattern_squares, NUM_PATTERNS};
use vstd::prelude::*;

verus! {

/// The number of digits of base patterns `0..b`.
pub open spec fn base_offset(b: int) -> int
    decreases b,
{
    if b <= 0 {
        0
    } else {
        base_offset(b - 1) + base_pattern(b - 1).len()
    }
}

proof fn lemma_base_offset_bound(b: int)
    requires
        0 <= b <= 16,
    ensures
        0 <= base_offset(b) <= 10 * b,
    decreases b,
{
    if b > 0 {
        lemma_base_offset_bound(b - 1);
        lemma_base_pattern_shape(b - 1);
    }
}

/// For each pattern, the number of digits of the base patterns before its
/// own base pattern; the four orientations of a base pattern share it.
pub fn make_feature_offsets() -> (r: [u16; 64])
    ensures
        forall|p: int| 0 <= p < 64 ==> #[trigger] r@[p] as int == base_offset(p / 4),
{
    let mut offsets = [0u16; 64];
    let mut offset: u16 = 0;
    let mut i: usize = 0;
    while i < NUM_PATTERNS
        invariant
            i <= 64,
            i % 4 == 0,
            offsets@.len() == 64,
            offset as int == base_offset(i as int / 4),
            base_offset(i as int / 4) <= 10 * (i as int / 4),
            forall|p: int| 0 <= p < i ==> #[trigger] offsets@[p] as int == base_offset(p / 4),
        decreases 64 - i,
    {
        offsets[i + 0] = offset;
        offsets[i + 1] = offset;
        offsets[i + 2] = offset;
        offsets[i + 3] = offset;
        let len = pattern(i).len();
        proof {
            lemma_base_pattern_shape(i as int / 4);
            crate::patterns::lemma_pattern_shape(i as int);
            assert((i as int + 4) / 4 == i as int / 4 + 1);
        }
        offset = offset + len as u16;
        i += 4;
    }
    offsets
}

} // verus!
