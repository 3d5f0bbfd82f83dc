//! Training samples: a board and the final stone difference of the game it
//! was taken from.
use crate::bitboard::Bitboard;
use crate::bits::popcount;
use crate::feature::{extract_feature, lemma_pattern_value_range, pattern_value};
use crate::feature_packer::{
    base_size, lemma_packed_value_range, packed_value, packer_offset, packer_size, FeaturePacker,
};
use crate::patterns::{lemma_base_pattern_shape, lemma_pattern_shape, NUM_PATTERNS};
use vstd::prelude::*;

verus! {

/// A training sample: the stones on the board, and the final score
/// difference (black minus white) of the game.
#[derive(Debug, Clone, Copy)]
pub struct ReversiSample {
    /// The black stones.
    pub black_bits: u64,
    /// The white stones.
    pub white_bits: u64,
    /// The final stone difference, black minus white.
    pub stone_diff: i8,
}

impl Default for ReversiSample {
    /// The empty board with a difference of 0.
    fn default() -> (r: Self)
        ensures
            r.black_bits == 0,
            r.white_bits == 0,
            r.stone_diff == 0,
    {
        ReversiSample { black_bits: 0, white_bits: 0, stone_diff: 0 }
    }
}

/// The absolute index of pattern `i` in the packed vector on a board with
/// masks `v`: the offset of its base pattern plus its packed index.
pub open spec fn absolute_index(v: (u64, u64), i: int) -> int {
    (packer_offset((i / 4) as nat) + packed_value(i / 4, pattern_value(v, i))) as int
}

/// All base patterns together have at most `59049` configurations each.
proof fn lemma_packer_size_bound(b: nat)
    requires
        b <= 16,
    ensures
        packer_size(b) <= b * 59049,
    decreases b,
{
    if b > 0 {
        lemma_packer_size_bound((b - 1) as nat);
        lemma_base_pattern_shape(b - 1);
        crate::feature::lemma_pow3_values();
        crate::feature::lemma_pow3_monotone(crate::feature_packer::base_len(b - 1), 10);
    }
}

impl ReversiSample {
    /// The game phase of the sample: the number of stones on the board.
    pub fn phase(&self) -> (r: i32)
        ensures
            r == popcount(self.black_bits) + popcount(self.white_bits),
    {
        let board = Bitboard::new(self.black_bits, self.white_bits);
        let (black, white) = board.count_stones();
        proof {
            crate::bits::lemma_popcount_below_bound(self.black_bits, 64);
            crate::bits::lemma_popcount_below_bound(self.white_bits, 64);
        }
        (black + white) as i32
    }

    /// The positions in the packed vector that the sample's board sets: for
    /// each pattern, the offset of its base pattern plus the packed index of
    /// the pattern's configuration.
    pub fn feature_indices(&self, packer: &FeaturePacker) -> (r: Vec<i32>)
        requires
            packer.wf(),
        ensures
            r@.len() == 64,
            forall|i: int|
                0 <= i < 64 ==> #[trigger] r@[i] as int == absolute_index(
                    (self.black_bits, self.white_bits),
                    i,
                ),
            forall|i: int| 0 <= i < 64 ==> 0 <= #[trigger] r@[i] < packer.packed_feature_size,
    {
        let board = Bitboard::new(self.black_bits, self.white_bits);
        let feature = extract_feature(&board);
        let ghost v = (self.black_bits, self.white_bits);
        proof {
            assert forall|i: int| 0 <= i < 64 implies #[trigger] packer.index_map@[i
                / 4]@.contains_key(feature.indices@[i]) by {
                lemma_pattern_value_range(v, i);
                lemma_pattern_shape(i);
                assert(packer.index_map@[i / 4]@ == crate::feature_packer::packer_map(i / 4));
            }
            lemma_packer_size_bound(16);
        }
        let packed_feature = packer.pack(&feature);
        let mut indices: Vec<i32> = Vec::new();
        let mut i: usize = 0;
        while i < NUM_PATTERNS
            invariant
                i <= 64,
                packer.wf(),
                v == (self.black_bits, self.white_bits),
                packed_feature.indices@.len() == 64,
                forall|k: int|
                    0 <= k < 64 ==> #[trigger] packed_feature.indices@[k] as int == packed_value(
                        k / 4,
                        feature.indices@[k] as int,
                    ),
                forall|k: int|
                    0 <= k < 64 ==> #[trigger] feature.indices@[k] as int == pattern_value(v, k),
                packer.packed_feature_size <= 16 * 59049,
                indices@.len() == i,
                forall|k: int| 0 <= k < i ==> #[trigger] indices@[k] as int == absolute_index(v, k),
                forall|k: int|
                    0 <= k < i ==> 0 <= #[trigger] indices@[k] < packer.packed_feature_size,
            decreases 64 - i,
        {
            let base_pattern_index = i / 4;
            let index_offset = packer.index_offsets[base_pattern_index];
            proof {
                lemma_pattern_value_range(v, i as int);
                lemma_pattern_shape(i as int);
                lemma_packed_value_range(i as int / 4, pattern_value(v, i as int));
                assert(index_offset == packer_offset((i as int / 4) as nat));
                assert(feature.indices@[i as int] as nat == pattern_value(v, i as int));
                assert((pattern_value(v, i as int) as nat) < base_size(i as int / 4));
            }
            let absolute = index_offset as usize + packed_feature.indices[i] as usize;
            indices.push(absolute as i32);
            i += 1;
        }
        indices
    }

    /// The positions of the sample in the weight table of all phases: the
    /// table holds one packed vector per phase, so each position of
    /// `feature_indices` moves by the phase times the packed vector's size.
    pub fn phase_feature_indices(&self, packer: &FeaturePacker) -> (r: Vec<i32>)
        requires
            packer.wf(),
        ensures
            r@.len() == 64,
            forall|i: int|
                0 <= i < 64 ==> #[trigger] r@[i] as int == (popcount(self.black_bits) + popcount(
                    self.white_bits,
                )) * packer.packed_feature_size + absolute_index(
                    (self.black_bits, self.white_bits),
                    i,
                ),
    {
        let idxs = self.feature_indices(packer);
        let phase = self.phase();
        proof {
            lemma_packer_size_bound(16);
            crate::bits::lemma_popcount_below_bound(self.black_bits, 64);
            crate::bits::lemma_popcount_below_bound(self.white_bits, 64);
        }
        let size = packer.packed_feature_size as i32;
        let mut combined: Vec<i32> = Vec::new();
        let mut i: usize = 0;
        while i < idxs.len()
            invariant
                i <= idxs@.len() == 64,
                0 <= phase <= 128,
                phase == popcount(self.black_bits) + popcount(self.white_bits),
                size as int == packer.packed_feature_size,
                packer.packed_feature_size <= 16 * 59049,
                forall|k: int| 0 <= k < 64 ==> 0 <= #[trigger] idxs@[k] < packer.packed_feature_size,
                forall|k: int|
                    0 <= k < 64 ==> #[trigger] idxs@[k] as int == absolute_index(
                        (self.black_bits, self.white_bits),
                        k,
                    ),
                combined@.len() == i,
                forall|k: int|
                    0 <= k < i ==> #[trigger] combined@[k] as int == phase * size + idxs@[k],
            decreases 64 - i,
        {
            assert(phase * size <= 128 * (16 * 59049)) by (nonlinear_arith)
                requires
                    0 <= phase <= 128,
                    0 <= size <= 16 * 59049,
            ;
            assert(phase * size >= 0) by (nonlinear_arith)
                requires
                    0 <= phase,
                    0 <= size,
            ;
            combined.push(phase * size + idxs[i]);
            i += 1;
        }
        combined
    }
}

/// A list of training samples.
pub struct ReversiDataset {
    samples: Vec<ReversiSample>,
}

impl ReversiDataset {
    /// The samples of the dataset, in order.
    pub closed spec fn samples(&self) -> Seq<ReversiSample> {
        self.samples@
    }

    /// A dataset of the given samples.
    pub fn new(samples: Vec<ReversiSample>) -> (r: Self)
        ensures
            r.samples() == samples@,
    {
        ReversiDataset { samples }
    }

    /// The number of samples.
    pub fn len(&self) -> (r: usize)
        ensures
            r == self.samples().len(),
    {
        self.samples.len()
    }

    /// The sample at `index`, or `None` past the end.
    pub fn get(&self, index: usize) -> (r: Option<ReversiSample>)
        ensures
            r == (if index < self.samples().len() {
                Some(self.samples()[index as int])
            } else {
                None
            }),
    {
        if index < self.samples.len() {
            Some(self.samples[index])
        } else {
            None
        }
    }
}

} // verus!
