//! Packing of feature indices: the configurations of a pattern that are
//! mirror images of each other share one packed index, so that a weight
//! table needs one entry per configuration up to symmetry.
use crate::feature::{
    canonical_value, canonicalize_pattern_feature, lemma_canonical_value, lemma_pow3_values,
    lemma_pow3_monotone, mirror_value, pow3, pow3_u32, Feature,
};
use crate::patterns::{
    base_pattern, lemma_base_pattern_shape, lemma_pattern_shape, pattern, pattern_squares,
    pattern_symmetry, NUM_PATTERNS,
};
use std::collections::HashMap;
use vstd::prelude::*;

verus! {

broadcast use vstd::std_specs::hash::group_hash_axioms;

/// The number of squares of base pattern `b`.
pub open spec fn base_len(b: int) -> nat {
    base_pattern(b).len()
}

/// The number of configurations of base pattern `b`.
pub open spec fn base_size(b: int) -> nat {
    pow3(base_len(b))
}

/// The number of configurations `x < k` of pattern `p` that are their own
/// canonical form.
pub open spec fn canonical_count(p: int, k: nat) -> nat
    decreases k,
{
    if k == 0 {
        0
    } else {
        canonical_count(p, (k - 1) as nat) + if canonical_value(p, k - 1) == k - 1 {
            1nat
        } else {
            0nat
        }
    }
}

/// The packed index of configuration `x` of base pattern `b`: the rank of
/// its canonical form among the canonical configurations.
pub open spec fn packed_value(b: int, x: int) -> nat {
    canonical_count(4 * b, canonical_value(4 * b, x) as nat)
}

/// The packing table of base pattern `b`: each configuration to its packed
/// index.
pub open spec fn packer_map(b: int) -> Map<u16, u16> {
    Map::new(|f: u16| (f as nat) < base_size(b), |f: u16| packed_value(b, f as int) as u16)
}

/// Where the packed indices of base pattern `b` start in the packed vector:
/// the number of packed indices of the base patterns before it.
pub open spec fn packer_offset(b: nat) -> nat
    decreases b,
{
    if b == 0 {
        0
    } else {
        packer_offset((b - 1) as nat) + canonical_count(4 * (b - 1), base_size(b - 1))
    }
}

/// The number of configurations of the base patterns before `b`.
pub open spec fn packer_size(b: nat) -> nat
    decreases b,
{
    if b == 0 {
        0
    } else {
        packer_size((b - 1) as nat) + base_size(b - 1)
    }
}

/// At most `k` configurations below `k` are canonical.
pub proof fn lemma_canonical_count_bound(p: int, k: nat)
    ensures
        canonical_count(p, k) <= k,
    decreases k,
{
    if k > 0 {
        lemma_canonical_count_bound(p, (k - 1) as nat);
    }
}

/// The counts of canonical configurations grow with the bound.
pub proof fn lemma_canonical_count_monotone(p: int, j: nat, k: nat)
    requires
        j <= k,
    ensures
        canonical_count(p, j) <= canonical_count(p, k),
    decreases k - j,
{
    if j < k {
        lemma_canonical_count_monotone(p, j, (k - 1) as nat);
    }
}

/// The canonical configurations are numbered in increasing order without
/// gaps: a canonical configuration below another gets a smaller number.
pub proof fn lemma_canonical_count_strict(p: int, c: nat, d: nat)
    requires
        c < d,
        canonical_value(p, c as int) == c,
    ensures
        canonical_count(p, c) < canonical_count(p, d),
{
    lemma_canonical_count_monotone(p, c + 1, d);
}

/// Two configurations of a base pattern get the same packed index exactly
/// when they have the same canonical form; in particular a configuration
/// and its mirror image share their packed index.
pub proof fn lemma_packed_value_classes(b: int, x: int, y: int)
    requires
        0 <= b < 16,
        0 <= x < base_size(b),
        0 <= y < base_size(b),
    ensures
        packed_value(b, x) == packed_value(b, y) <==> canonical_value(4 * b, x) == canonical_value(
            4 * b,
            y,
        ),
        packed_value(b, mirror_value(4 * b, x)) == packed_value(b, x),
        0 <= mirror_value(4 * b, x) < base_size(b),
{
    lemma_pattern_shape(4 * b);
    assert((4 * b) / 4 == b);
    lemma_canonical_value(4 * b, x);
    lemma_canonical_value(4 * b, y);
    crate::feature::lemma_mirror_involution(4 * b, x);
    let cx = canonical_value(4 * b, x);
    let cy = canonical_value(4 * b, y);
    if cx < cy {
        lemma_canonical_count_strict(4 * b, cx as nat, cy as nat);
    } else if cy < cx {
        lemma_canonical_count_strict(4 * b, cy as nat, cx as nat);
    }
}

/// Each packed index of base pattern `b` lies below the number of its
/// canonical configurations, so that offset plus packed index stays inside
/// the packed vector and below the next base pattern's offset.
pub proof fn lemma_packed_value_range(b: int, x: int)
    requires
        0 <= b < 16,
        0 <= x < base_size(b),
    ensures
        packed_value(b, x) < canonical_count(4 * b, base_size(b)),
        packer_offset(b as nat) + packed_value(b, x) < packer_offset((b + 1) as nat),
        packer_offset((b + 1) as nat) <= packer_offset(16),
        packer_offset(16) <= packer_size(16),
{
    lemma_pattern_shape(4 * b);
    assert((4 * b) / 4 == b);
    lemma_canonical_value(4 * b, x);
    let c = canonical_value(4 * b, x);
    lemma_canonical_count_strict(4 * b, c as nat, base_size(b));
    lemma_offset_monotone((b + 1) as nat, 16);
    lemma_offset_below_size(16);
}

proof fn lemma_offset_monotone(a: nat, c: nat)
    requires
        a <= c,
    ensures
        packer_offset(a) <= packer_offset(c),
    decreases c - a,
{
    if a < c {
        lemma_offset_monotone(a, (c - 1) as nat);
    }
}

proof fn lemma_offset_below_size(b: nat)
    ensures
        packer_offset(b) <= packer_size(b),
    decreases b,
{
    if b > 0 {
        lemma_offset_below_size((b - 1) as nat);
        lemma_canonical_count_bound(4 * (b - 1), base_size(b - 1));
    }
}

/// The number of configurations `x < k` of pattern `p` that are their own
/// mirror image.
pub open spec fn mirror_fixed_count(p: int, k: nat) -> nat
    decreases k,
{
    if k == 0 {
        0
    } else {
        mirror_fixed_count(p, (k - 1) as nat) + if mirror_value(p, k - 1) == k - 1 {
            1nat
        } else {
            0nat
        }
    }
}

/// The configurations below `k` that are their own canonical form.
spec fn canonical_set(p: int, k: nat) -> Set<int> {
    Set::new(|x: int| 0 <= x < k && canonical_value(p, x) == x)
}

/// The configurations below `k` that are their own mirror image.
spec fn fixed_set(p: int, k: nat) -> Set<int> {
    Set::new(|x: int| 0 <= x < k && mirror_value(p, x) == x)
}

proof fn lemma_canonical_set_len(p: int, k: nat)
    ensures
        canonical_set(p, k).finite(),
        canonical_set(p, k).len() == canonical_count(p, k),
    decreases k,
{
    if k == 0 {
        assert(canonical_set(p, k) =~= Set::<int>::empty());
    } else {
        let j = (k - 1) as nat;
        lemma_canonical_set_len(p, j);
        if canonical_value(p, j as int) == j {
            assert(canonical_set(p, k) =~= canonical_set(p, j).insert(j as int));
        } else {
            assert(canonical_set(p, k) =~= canonical_set(p, j));
        }
    }
}

proof fn lemma_fixed_set_len(p: int, k: nat)
    ensures
        fixed_set(p, k).finite(),
        fixed_set(p, k).len() == mirror_fixed_count(p, k),
    decreases k,
{
    if k == 0 {
        assert(fixed_set(p, k) =~= Set::<int>::empty());
    } else {
        let j = (k - 1) as nat;
        lemma_fixed_set_len(p, j);
        if mirror_value(p, j as int) == j {
            assert(fixed_set(p, k) =~= fixed_set(p, j).insert(j as int));
        } else {
            assert(fixed_set(p, k) =~= fixed_set(p, j));
        }
    }
}

/// Counting the packed indices: mirroring pairs up the configurations that
/// are not their own mirror image, and each pair keeps one canonical form,
/// so twice the number of packed indices is the number of configurations
/// plus the number of configurations that are their own mirror image.
pub proof fn lemma_canonical_count_halves(p: int)
    requires
        0 <= p < 64,
    ensures
        2 * canonical_count(p, pow3(pattern_symmetry(p).len())) == pow3(pattern_symmetry(p).len())
            + mirror_fixed_count(p, pow3(pattern_symmetry(p).len())),
{
    let n = pow3(pattern_symmetry(p).len());
    let a = canonical_set(p, n);
    let f = fixed_set(p, n);
    let b = Set::new(|x: int| 0 <= x < n && mirror_value(p, x) < x);
    let m = |x: int| mirror_value(p, x);
    lemma_canonical_set_len(p, n);
    lemma_fixed_set_len(p, n);
    vstd::set_lib::lemma_int_range(0, n as int);
    let range = vstd::set_lib::set_int_range(0, n as int);
    assert forall|x: int| #[trigger] range.contains(x) <==> (a + b).contains(x) by {
        if 0 <= x < n {
            crate::feature::lemma_mirror_involution(p, x);
        }
    }
    assert(range =~= a + b);
    assert(b.subset_of(range));
    vstd::set_lib::lemma_len_subset(b, range);
    assert(a.disjoint(b));
    vstd::set_lib::lemma_set_disjoint_lens(a, b);
    let rest = a.difference(f);
    assert forall|y: int| #[trigger] rest.contains(y) <==> b.map(m).contains(y) by {
        if rest.contains(y) {
            crate::feature::lemma_mirror_involution(p, y);
            let x = mirror_value(p, y);
            crate::feature::lemma_mirror_involution(p, x);
            assert(b.contains(x) && m(x) == y);
        }
        if b.map(m).contains(y) {
            let x = choose|x: int| b.contains(x) && m(x) == y;
            crate::feature::lemma_mirror_involution(p, x);
        }
    }
    assert(b.map(m) =~= rest);
    assert forall|x: int, z: int|
        b.contains(x) && b.contains(z) && #[trigger] m(x) == #[trigger] m(z) implies x == z by {
        crate::feature::lemma_mirror_involution(p, x);
        crate::feature::lemma_mirror_involution(p, z);
    }
    assert(vstd::relations::injective_on(m, b));
    vstd::set_lib::lemma_map_size(b, rest, m);
    assert(f.subset_of(a));
    assert(a.intersect(f) =~= f);
    vstd::set_lib::lemma_set_difference_len(a, f);
}

/// The number of patterns `i < k` whose absolute index, the offset of its
/// base pattern plus its packed index, is `j`.
pub open spec fn hits(offsets: Seq<u32>, indices: Seq<u16>, j: int, k: nat) -> nat
    decreases k,
{
    if k == 0 {
        0
    } else {
        hits(offsets, indices, j, (k - 1) as nat) + if offsets[(k - 1) / 4] + indices[k - 1] == j {
            1nat
        } else {
            0nat
        }
    }
}

/// The number of patterns `i < k` whose absolute index lies below `n`.
pub open spec fn hits_below(offsets: Seq<u32>, indices: Seq<u16>, n: int, k: nat) -> nat
    decreases k,
{
    if k == 0 {
        0
    } else {
        hits_below(offsets, indices, n, (k - 1) as nat) + if offsets[(k - 1) / 4] + indices[k
            - 1] < n {
            1nat
        } else {
            0nat
        }
    }
}

/// The sum of the first `n` entries of the packed vector: the counts
/// `hits(.., j, k)` for `j < n`.
pub open spec fn vector_total(offsets: Seq<u32>, indices: Seq<u16>, n: nat, k: nat) -> nat
    decreases n,
{
    if n == 0 {
        0
    } else {
        vector_total(offsets, indices, (n - 1) as nat, k) + hits(offsets, indices, n - 1, k)
    }
}

proof fn lemma_hits_below_split(offsets: Seq<u32>, indices: Seq<u16>, n: int, k: nat)
    ensures
        hits_below(offsets, indices, n + 1, k) == hits_below(offsets, indices, n, k) + hits(
            offsets,
            indices,
            n,
            k,
        ),
    decreases k,
{
    if k > 0 {
        lemma_hits_below_split(offsets, indices, n, (k - 1) as nat);
    }
}

proof fn lemma_vector_total(offsets: Seq<u32>, indices: Seq<u16>, n: nat, k: nat)
    ensures
        vector_total(offsets, indices, n, k) == hits_below(offsets, indices, n as int, k),
    decreases n,
{
    if n == 0 {
        lemma_hits_below_zero(offsets, indices, k);
    } else {
        lemma_vector_total(offsets, indices, (n - 1) as nat, k);
        lemma_hits_below_split(offsets, indices, n - 1, k);
    }
}

proof fn lemma_hits_below_zero(offsets: Seq<u32>, indices: Seq<u16>, k: nat)
    ensures
        hits_below(offsets, indices, 0, k) == 0,
    decreases k,
{
    if k > 0 {
        lemma_hits_below_zero(offsets, indices, (k - 1) as nat);
    }
}

proof fn lemma_hits_below_all(offsets: Seq<u32>, indices: Seq<u16>, n: int, k: nat)
    requires
        forall|i: int| 0 <= i < k ==> offsets[i / 4] + #[trigger] indices[i] < n,
    ensures
        hits_below(offsets, indices, n, k) == k,
    decreases k,
{
    if k > 0 {
        lemma_hits_below_all(offsets, indices, n, (k - 1) as nat);
        assert(offsets[(k - 1) / 4] + indices[k - 1] < n);
    }
}

/// Every pattern is counted once in the packed vector: when all absolute
/// indices of the 64 patterns lie inside the vector, its entries add up to 64.
pub proof fn lemma_vector_counts_each_pattern(offsets: Seq<u32>, indices: Seq<u16>, size: nat)
    requires
        forall|i: int| 0 <= i < 64 ==> offsets[i / 4] + #[trigger] indices[i] < size,
    ensures
        vector_total(offsets, indices, size, 64) == 64,
{
    lemma_vector_total(offsets, indices, size, 64);
    lemma_hits_below_all(offsets, indices, size as int, 64);
}

proof fn lemma_hits_bound(offsets: Seq<u32>, indices: Seq<u16>, j: int, k: nat)
    ensures
        hits(offsets, indices, j, k) <= k,
    decreases k,
{
    if k > 0 {
        lemma_hits_bound(offsets, indices, j, (k - 1) as nat);
    }
}

/// Packs the feature indices of each pattern so that mirror-image
/// configurations share an index.
pub struct FeaturePacker {
    /// For each base pattern, the packed index of each configuration.
    pub index_map: Vec<HashMap<u16, u16>>,
    /// For each base pattern, where its packed indices start.
    pub index_offsets: Vec<u32>,
    /// The number of configurations of all base patterns together.
    pub packed_feature_size: usize,
}

impl FeaturePacker {
    /// The packer holds the packing tables of the 16 base patterns.
    pub open spec fn wf(&self) -> bool {
        &&& self.index_map@.len() == 16
        &&& self.index_offsets@.len() == 16
        &&& forall|b: int| 0 <= b < 16 ==> #[trigger] self.index_map@[b]@ == packer_map(b)
        &&& forall|b: int|
            0 <= b < 16 ==> #[trigger] self.index_offsets@[b] == packer_offset(b as nat)
        &&& self.packed_feature_size == packer_size(16)
    }

    /// Builds the packing tables: the configurations of each base pattern
    /// are numbered in increasing order, and a configuration whose mirror
    /// image came first takes the mirror image's number.
    pub fn new() -> (r: Self)
        ensures
            r.wf(),
    {
        let base_pattern_count = NUM_PATTERNS / 4;
        let mut index_map: Vec<HashMap<u16, u16>> = Vec::new();
        let mut index_offsets: Vec<u32> = Vec::new();
        let mut index_offset: u32 = 0;
        let mut base: usize = 0;
        while base < base_pattern_count
            invariant
                base <= base_pattern_count == 16,
                index_map@.len() == base,
                index_offsets@.len() == base,
                forall|b: int| 0 <= b < base ==> #[trigger] index_map@[b]@ == packer_map(b),
                forall|b: int| 0 <= b < base ==> #[trigger] index_map@[b]@.len() == base_size(b),
                forall|b: int|
                    0 <= b < base ==> #[trigger] index_offsets@[b] == packer_offset(b as nat),
                index_offset == packer_offset(base as nat),
                index_offset <= base * 59049,
            decreases base_pattern_count - base,
        {
            index_offsets.push(index_offset);
            let pattern_index = base * 4;
            proof {
                lemma_pattern_shape(pattern_index as int);
                lemma_base_pattern_shape(base as int);
                lemma_pow3_values();
                lemma_pow3_monotone(base_len(base as int), 10);
                assert(pattern_index as int / 4 == base as int);
            }
            let squares = pattern(pattern_index);
            let feature_size = pow3_u32(squares.len() as u32) as u16;
            let ghost p = pattern_index as int;
            let mut map: HashMap<u16, u16> = HashMap::new();
            let mut packed_index: u16 = 0;
            let mut feature: u16 = 0;
            while feature < feature_size
                invariant
                    feature <= feature_size,
                    feature_size as nat == base_size(base as int),
                    feature_size <= 59049,
                    p == 4 * base,
                    base < 16,
                    pattern_index == p,
                    pattern_symmetry(p).len() == base_len(base as int),
                    map@.dom() == Set::new(|f: u16| f < feature),
                    map@.len() == feature,
                    forall|f: u16| f < feature ==> #[trigger] map@[f] == packed_value(
                        base as int,
                        f as int,
                    ),
                    packed_index == canonical_count(p, feature as nat),
                    packed_index <= feature,
                decreases feature_size - feature,
            {
                let canonical = canonicalize_pattern_feature(pattern_index, feature);
                proof {
                    lemma_canonical_value(p, feature as int);
                }
                let found: Option<u16> = match map.get(&canonical) {
                    Some(v) => Some(*v),
                    None => None,
                };
                proof {
                    assert(map@.dom().contains(canonical) <==> canonical < feature);
                    assert(!map@.dom().contains(feature));
                }
                match found {
                    Some(existing) => {
                        proof {
                            assert(canonical < feature);
                            assert(canonical_value(p, canonical as int) == canonical);
                            assert(existing == packed_value(base as int, canonical as int));
                        }
                        map.insert(feature, existing);
                    },
                    None => {
                        proof {
                            assert(canonical == feature);
                            lemma_canonical_count_bound(p, feature as nat);
                        }
                        map.insert(feature, packed_index);
                        packed_index += 1;
                    },
                }
                proof {
                    assert(map@.dom() =~= Set::new(|f: u16| f < feature + 1));
                }
                feature += 1;
            }
            proof {
                lemma_canonical_count_bound(p, feature as nat);
                assert(map@ =~= packer_map(base as int));
            }
            index_offset += packed_index as u32;
            index_map.push(map);
            base += 1;
        }
        let mut packed_feature_size: usize = 0;
        let mut i: usize = 0;
        while i < index_map.len()
            invariant
                i <= index_map@.len() == 16,
                forall|b: int| 0 <= b < 16 ==> #[trigger] index_map@[b]@.len() == base_size(b),
                packed_feature_size == packer_size(i as nat),
                packed_feature_size <= i * 59049,
            decreases index_map@.len() - i,
        {
            proof {
                lemma_base_pattern_shape(i as int);
                lemma_pow3_values();
                lemma_pow3_monotone(base_len(i as int), 10);
            }
            packed_feature_size += index_map[i].len();
            i += 1;
        }
        FeaturePacker { index_map, index_offsets, packed_feature_size }
    }

    /// Replaces each feature index by its packed index, taken from the
    /// table of the pattern's base pattern; the phase stays.
    pub fn pack(&self, feature: &Feature) -> (r: Feature)
        requires
            self.index_map@.len() == 16,
            forall|i: int|
                0 <= i < 64 ==> #[trigger] self.index_map@[i / 4]@.contains_key(
                    feature.indices@[i],
                ),
        ensures
            r.phase == feature.phase,
            forall|i: int|
                0 <= i < 64 ==> #[trigger] r.indices@[i] == self.index_map@[i / 4]@[feature.indices@[
                    i
                ]],
            self.wf() ==> forall|i: int|
                0 <= i < 64 ==> #[trigger] r.indices@[i] as int == packed_value(
                    i / 4,
                    feature.indices@[i] as int,
                ),
    {
        let mut indices = feature.indices;
        let mut i: usize = 0;
        while i < NUM_PATTERNS
            invariant
                i <= 64,
                indices@.len() == 64,
                feature.indices@.len() == 64,
                self.index_map@.len() == 16,
                forall|k: int|
                    0 <= k < 64 ==> #[trigger] self.index_map@[k / 4]@.contains_key(
                        feature.indices@[k],
                    ),
                forall|k: int|
                    0 <= k < i ==> #[trigger] indices@[k] == self.index_map@[k / 4]@[feature.indices@[
                        k
                    ]],
            decreases 64 - i,
        {
            let index = feature.indices[i];
            let base_pattern_index = i / 4;
            let packed: u16 = match self.index_map[base_pattern_index].get(&index) {
                Some(v) => *v,
                None => {
                    proof {
                        assert(self.index_map@[i as int / 4]@.contains_key(feature.indices@[i as int]));
                    }
                    0
                },
            };
            indices[i] = packed;
            i += 1;
        }
        proof {
            if self.wf() {
                assert forall|k: int| 0 <= k < 64 implies #[trigger] indices@[k] as int == packed_value(
                    k / 4,
                    feature.indices@[k] as int,
                ) by {
                    let b = k / 4;
                    assert(self.index_map@[b]@ == packer_map(b));
                    let f = feature.indices@[k];
                    assert(packer_map(b).contains_key(f));
                    lemma_base_pattern_shape(b);
                    lemma_pow3_values();
                    lemma_pow3_monotone(base_len(b), 10);
                    lemma_pattern_shape(4 * b);
                    assert((4 * b) / 4 == b);
                    lemma_canonical_value(4 * b, f as int);
                    lemma_canonical_count_bound(4 * b, canonical_value(4 * b, f as int) as nat);
                }
            }
        }
        Feature { indices, phase: feature.phase }
    }

    /// The packed index of `feature_index` for pattern `pattern_index`, or
    /// `None` where the index is not a configuration of the pattern.
    pub fn packed_index(&self, pattern_index: usize, feature_index: u16) -> (r: Option<u16>)
        requires
            pattern_index / 4 < self.index_map@.len(),
        ensures
            r == (if self.index_map@[pattern_index as int / 4]@.contains_key(feature_index) {
                Some(self.index_map@[pattern_index as int / 4]@[feature_index])
            } else {
                None
            }),
            self.wf() ==> r == (if (feature_index as nat) < base_size(pattern_index as int / 4) {
                Some(packed_value(pattern_index as int / 4, feature_index as int) as u16)
            } else {
                None
            }),
    {
        let base_pattern_index = pattern_index / 4;
        match self.index_map[base_pattern_index].get(&feature_index) {
            Some(v) => Some(*v),
            None => None,
        }
    }

    /// The packed feature as a vector over all packed indices: entry `j`
    /// counts the patterns whose base-pattern offset plus packed index is `j`.
    pub fn packed_feature_to_vector(&self, packed_feature: &Feature) -> (r: Vec<u8>)
        requires
            self.index_offsets@.len() == 16,
            forall|i: int|
                0 <= i < 64 ==> self.index_offsets@[i / 4] + #[trigger] packed_feature.indices@[i]
                    < self.packed_feature_size,
        ensures
            r@.len() == self.packed_feature_size,
            forall|j: int|
                0 <= j < r@.len() ==> #[trigger] r@[j] == hits(
                    self.index_offsets@,
                    packed_feature.indices@,
                    j,
                    64,
                ),
    {
        let mut packed_vector: Vec<u8> = vec![0u8; self.packed_feature_size];
        let ghost offsets = self.index_offsets@;
        let ghost indices = packed_feature.indices@;
        let mut i: usize = 0;
        while i < NUM_PATTERNS
            invariant
                i <= 64,
                offsets == self.index_offsets@,
                indices == packed_feature.indices@,
                offsets.len() == 16,
                indices.len() == 64,
                packed_vector@.len() == self.packed_feature_size,
                forall|k: int|
                    0 <= k < 64 ==> offsets[k / 4] + #[trigger] indices[k] < self.packed_feature_size,
                forall|j: int|
                    0 <= j < packed_vector@.len() ==> #[trigger] packed_vector@[j] == hits(
                        offsets,
                        indices,
                        j,
                        i as nat,
                    ),
            decreases 64 - i,
        {
            let absolute_index = self.index_offsets[i / 4] as usize
                + packed_feature.indices[i] as usize;
            proof {
                lemma_hits_bound(offsets, indices, absolute_index as int, i as nat);
            }
            let count = packed_vector[absolute_index];
            packed_vector.set(absolute_index, count + 1);
            proof {
                assert forall|j: int| 0 <= j < packed_vector@.len() implies #[trigger] packed_vector@[j]
                    == hits(offsets, indices, j, (i + 1) as nat) by {
                    assert(hits(offsets, indices, j, (i + 1) as nat) == hits(offsets, indices, j, i as nat)
                        + if offsets[i as int / 4] + indices[i as int] == j { 1nat } else { 0nat });
                }
            }
            i += 1;
        }
        packed_vector
    }
}

} // verus!
