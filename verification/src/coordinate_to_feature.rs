//! For each square, the patterns that read it and the place value of its
//! digit in each of them.
use crate::feature::{lemma_pow3, lemma_pow3_monotone, lemma_pow3_values, pow3};
use crate::patterns::{lemma_pattern_shape, pattern, pattern_squares, NUM_PATTERNS};
use vstd::prelude::*;

verus! {

/// A pattern that reads a square, and the place value (a power of 3) of the
/// square's digit in that pattern's feature index.
#[derive(Debug, Clone, Copy)]
pub struct CoordToFeatureIndex {
    /// The index of the pattern.
    pub pattern_index: u8,
    /// The place value of the square's digit.
    pub trit_place_value: u16,
}

/// The (pattern, place value) pairs for square `coord` among the first `k`
/// squares of pattern `p`.
pub open spec fn pattern_entries(coord: u8, p: int, k: nat) -> Seq<(int, int)>
    decreases k,
{
    if k == 0 {
        Seq::empty()
    } else {
        let before = pattern_entries(coord, p, (k - 1) as nat);
        if pattern_squares(p)[k - 1] == coord {
            before.push((p, pow3((k - 1) as nat) as int))
        } else {
            before
        }
    }
}

/// The (pattern, place value) pairs for square `coord` in patterns `0..n`,
/// in pattern order and then digit order.
pub open spec fn c2f_entries(coord: u8, n: nat) -> Seq<(int, int)>
    decreases n,
{
    if n == 0 {
        Seq::empty()
    } else {
        c2f_entries(coord, (n - 1) as nat) + pattern_entries(
            coord,
            n - 1,
            pattern_squares(n - 1).len(),
        )
    }
}

/// The (pattern, place value) pairs of square `coord` over all patterns.
pub open spec fn c2f_spec(coord: u8) -> Seq<(int, int)> {
    c2f_entries(coord, 64)
}

/// Every place value of a pattern's entries is below `3^10`, and the entries
/// of `n` patterns number at most ten per pattern.
proof fn lemma_entries_bounds(coord: u8, p: int, k: nat)
    requires
        0 <= p < 64,
        k <= pattern_squares(p).len(),
    ensures
        pattern_entries(coord, p, k).len() <= k,
        forall|j: int|
            0 <= j < pattern_entries(coord, p, k).len() ==> #[trigger] pattern_entries(
                coord,
                p,
                k,
            )[j].0 == p && 1 <= pattern_entries(coord, p, k)[j].1 <= 19683,
    decreases k,
{
    lemma_pattern_shape(p);
    if k > 0 {
        lemma_entries_bounds(coord, p, (k - 1) as nat);
        lemma_pow3((k - 1) as nat);
        lemma_pow3_monotone((k - 1) as nat, 9);
        lemma_pow3_values();
    }
}

proof fn lemma_c2f_entries_len(coord: u8, n: nat)
    requires
        n <= 64,
    ensures
        c2f_entries(coord, n).len() <= 10 * n,
    decreases n,
{
    if n > 0 {
        lemma_c2f_entries_len(coord, (n - 1) as nat);
        lemma_pattern_shape(n - 1);
        lemma_entries_bounds(coord, n - 1, pattern_squares(n - 1).len());
    }
}

/// The number of pattern digits that read square A1.
pub const A1_C2F_COUNT: usize = 13;

/// The number of pattern digits that read square B1.
pub const B1_C2F_COUNT: usize = 10;

/// The number of pattern digits that read square C1.
pub const C1_C2F_COUNT: usize = 9;

/// The number of pattern digits that read square D1.
pub const D1_C2F_COUNT: usize = 9;

/// The number of pattern digits that read square E1.
pub const E1_C2F_COUNT: usize = 9;

/// The number of pattern digits that read square F1.
pub const F1_C2F_COUNT: usize = 9;

/// The number of pattern digits that read square G1.
pub const G1_C2F_COUNT: usize = 10;

/// The number of pattern digits that read square H1.
pub const H1_C2F_COUNT: usize = 13;

/// The number of pattern digits that read square A2.
pub const A2_C2F_COUNT: usize = 10;

/// The number of pattern digits that read square B2.
pub const B2_C2F_COUNT: usize = 11;

/// The number of pattern digits that read square C2.
pub const C2_C2F_COUNT: usize = 9;

/// The number of pattern digits that read square D2.
pub const D2_C2F_COUNT: usize = 7;

/// The number of pattern digits that read square E2.
pub const E2_C2F_COUNT: usize = 7;

/// The number of pattern digits that read square F2.
pub const F2_C2F_COUNT: usize = 9;

/// The number of pattern digits that read square G2.
pub const G2_C2F_COUNT: usize = 11;

/// The number of pattern digits that read square H2.
pub const H2_C2F_COUNT: usize = 10;

/// The number of pattern digits that read square A3.
pub const A3_C2F_COUNT: usize = 9;

/// The number of pattern digits that read square B3.
pub const B3_C2F_COUNT: usize = 9;

/// The number of pattern digits that read square C3.
pub const C3_C2F_COUNT: usize = 10;

/// The number of pattern digits that read square D3.
pub const D3_C2F_COUNT: usize = 6;

/// The number of pattern digits that read square E3.
pub const E3_C2F_COUNT: usize = 6;

/// The number of pattern digits that read square F3.
pub const F3_C2F_COUNT: usize = 10;

/// The number of pattern digits that read square G3.
pub const G3_C2F_COUNT: usize = 9;

/// The number of pattern digits that read square H3.
pub const H3_C2F_COUNT: usize = 9;

/// The number of pattern digits that read square A4.
pub const A4_C2F_COUNT: usize = 9;

/// The number of pattern digits that read square B4.
pub const B4_C2F_COUNT: usize = 7;

/// The number of pattern digits that read square C4.
pub const C4_C2F_COUNT: usize = 6;

/// The number of pattern digits that read square D4.
pub const D4_C2F_COUNT: usize = 7;

/// The number of pattern digits that read square E4.
pub const E4_C2F_COUNT: usize = 7;

/// The number of pattern digits that read square F4.
pub const F4_C2F_COUNT: usize = 6;

/// The number of pattern digits that read square G4.
pub const G4_C2F_COUNT: usize = 7;

/// The number of pattern digits that read square H4.
pub const H4_C2F_COUNT: usize = 9;

/// The number of pattern digits that read square A5.
pub const A5_C2F_COUNT: usize = 9;

/// The number of pattern digits that read square B5.
pub const B5_C2F_COUNT: usize = 7;

/// The number of pattern digits that read square C5.
pub const C5_C2F_COUNT: usize = 6;

/// The number of pattern digits that read square D5.
pub const D5_C2F_COUNT: usize = 7;

/// The number of pattern digits that read square E5.
pub const E5_C2F_COUNT: usize = 7;

/// The number of pattern digits that read square F5.
pub const F5_C2F_COUNT: usize = 6;

/// The number of pattern digits that read square G5.
pub const G5_C2F_COUNT: usize = 7;

/// The number of pattern digits that read square H5.
pub const H5_C2F_COUNT: usize = 9;

/// The number of pattern digits that read square A6.
pub const A6_C2F_COUNT: usize = 9;

/// The number of pattern digits that read square B6.
pub const B6_C2F_COUNT: usize = 9;

/// The number of pattern digits that read square C6.
pub const C6_C2F_COUNT: usize = 10;

/// The number of pattern digits that read square D6.
pub const D6_C2F_COUNT: usize = 6;

/// The number of pattern digits that read square E6.
pub const E6_C2F_COUNT: usize = 6;

/// The number of pattern digits that read square F6.
pub const F6_C2F_COUNT: usize = 10;

/// The number of pattern digits that read square G6.
pub const G6_C2F_COUNT: usize = 9;

/// The number of pattern digits that read square H6.
pub const H6_C2F_COUNT: usize = 9;

/// The number of pattern digits that read square A7.
pub const A7_C2F_COUNT: usize = 10;

/// The number of pattern digits that read square B7.
pub const B7_C2F_COUNT: usize = 11;

/// The number of pattern digits that read square C7.
pub const C7_C2F_COUNT: usize = 9;

/// The number of pattern digits that read square D7.
pub const D7_C2F_COUNT: usize = 7;

/// The number of pattern digits that read square E7.
pub const E7_C2F_COUNT: usize = 7;

/// The number of pattern digits that read square F7.
pub const F7_C2F_COUNT: usize = 9;

/// The number of pattern digits that read square G7.
pub const G7_C2F_COUNT: usize = 11;

/// The number of pattern digits that read square H7.
pub const H7_C2F_COUNT: usize = 10;

/// The number of pattern digits that read square A8.
pub const A8_C2F_COUNT: usize = 13;

/// The number of pattern digits that read square B8.
pub const B8_C2F_COUNT: usize = 10;

/// The number of pattern digits that read square C8.
pub const C8_C2F_COUNT: usize = 9;

/// The number of pattern digits that read square D8.
pub const D8_C2F_COUNT: usize = 9;

/// The number of pattern digits that read square E8.
pub const E8_C2F_COUNT: usize = 9;

/// The number of pattern digits that read square F8.
pub const F8_C2F_COUNT: usize = 9;

/// The number of pattern digits that read square G8.
pub const G8_C2F_COUNT: usize = 10;

/// The number of pattern digits that read square H8.
pub const H8_C2F_COUNT: usize = 13;

/// Counts the digits of all patterns that read square `coord`.
pub fn c2f_count(coord: u8) -> (r: usize)
    ensures
        r == c2f_spec(coord).len(),
{
    let mut pattern_index: usize = 0;
    let mut count: usize = 0;
    while pattern_index < NUM_PATTERNS
        invariant
            pattern_index <= 64,
            count == c2f_entries(coord, pattern_index as nat).len(),
        decreases 64 - pattern_index,
    {
        let squares = pattern(pattern_index);
        proof {
            lemma_pattern_shape(pattern_index as int);
            lemma_c2f_entries_len(coord, pattern_index as nat);
        }
        let mut feature_index: usize = 0;
        while feature_index < squares.len()
            invariant
                pattern_index < 64,
                feature_index <= squares.len() <= 10,
                squares@ == pattern_squares(pattern_index as int),
                count == c2f_entries(coord, pattern_index as nat).len() + pattern_entries(
                    coord,
                    pattern_index as int,
                    feature_index as nat,
                ).len(),
                c2f_entries(coord, pattern_index as nat).len() <= 10 * pattern_index,
            decreases squares.len() - feature_index,
        {
            proof {
                lemma_entries_bounds(coord, pattern_index as int, feature_index as nat);
            }
            if squares[feature_index] == coord {
                count += 1;
            }
            feature_index += 1;
        }
        pattern_index += 1;
    }
    count
}

/// Lists, for square `TARGET`, every pattern digit that reads it: the
/// pattern's index and the digit's place value, in pattern order. Entries
/// beyond the list are zero.
pub fn make_c2f_list<const TARGET: u8, const COUNT: usize>() -> (r: [CoordToFeatureIndex; COUNT])
    requires
        c2f_spec(TARGET).len() <= COUNT,
    ensures
        forall|j: int|
            0 <= j < c2f_spec(TARGET).len() ==> #[trigger] r@[j].pattern_index as int == c2f_spec(
                TARGET,
            )[j].0 && r@[j].trit_place_value as int == c2f_spec(TARGET)[j].1,
        forall|j: int|
            c2f_spec(TARGET).len() <= j < COUNT ==> #[trigger] r@[j].pattern_index == 0
                && r@[j].trit_place_value == 0,
{
    let mut list: [CoordToFeatureIndex; COUNT] = [CoordToFeatureIndex {
        pattern_index: 0,
        trit_place_value: 0,
    }; COUNT];
    let ghost all = c2f_spec(TARGET);
    let mut pattern_index: usize = 0;
    let mut list_index: usize = 0;
    proof {
        lemma_c2f_prefix(TARGET, 0, 64);
    }
    while pattern_index < NUM_PATTERNS
        invariant
            pattern_index <= 64,
            list@.len() == COUNT,
            all == c2f_spec(TARGET),
            all.len() <= COUNT,
            list_index == c2f_entries(TARGET, pattern_index as nat).len(),
            c2f_entries(TARGET, pattern_index as nat).len() <= all.len(),
            forall|j: int|
                0 <= j < list_index ==> #[trigger] list@[j].pattern_index as int == all[j].0
                    && list@[j].trit_place_value as int == all[j].1,
            forall|j: int|
                list_index <= j < COUNT ==> #[trigger] list@[j].pattern_index == 0
                    && list@[j].trit_place_value == 0,
            forall|j: int|
                0 <= j < c2f_entries(TARGET, pattern_index as nat).len() ==> #[trigger] all[j]
                    == c2f_entries(TARGET, pattern_index as nat)[j],
        decreases 64 - pattern_index,
    {
        let squares = pattern(pattern_index);
        proof {
            lemma_pattern_shape(pattern_index as int);
            lemma_pow3_values();
            lemma_c2f_prefix(TARGET, pattern_index as nat + 1, 64);
        }
        let ghost done = c2f_entries(TARGET, pattern_index as nat);
        let mut feature_index: usize = 0;
        let mut place: u32 = 1;
        while feature_index < squares.len()
            invariant
                pattern_index < 64,
                feature_index <= squares.len() <= 10,
                squares@ == pattern_squares(pattern_index as int),
                list@.len() == COUNT,
                all == c2f_spec(TARGET),
                all.len() <= COUNT,
                done == c2f_entries(TARGET, pattern_index as nat),
                place == pow3(feature_index as nat),
                pow3(10) == 59049,
                list_index == done.len() + pattern_entries(
                    TARGET,
                    pattern_index as int,
                    feature_index as nat,
                ).len(),
                c2f_entries(TARGET, pattern_index as nat + 1).len() <= all.len(),
                forall|j: int|
                    0 <= j < c2f_entries(TARGET, pattern_index as nat + 1).len() ==> #[trigger] all[j]
                        == c2f_entries(TARGET, pattern_index as nat + 1)[j],
                forall|j: int|
                    0 <= j < list_index ==> #[trigger] list@[j].pattern_index as int == all[j].0
                        && list@[j].trit_place_value as int == all[j].1,
                forall|j: int|
                    list_index <= j < COUNT ==> #[trigger] list@[j].pattern_index == 0
                        && list@[j].trit_place_value == 0,
            decreases squares.len() - feature_index,
        {
            proof {
                lemma_entries_bounds(
                    TARGET,
                    pattern_index as int,
                    feature_index as nat + 1,
                );
                lemma_entries_prefix(
                    TARGET,
                    pattern_index as int,
                    feature_index as nat + 1,
                    squares@.len() as nat,
                );
                let whole = pattern_entries(TARGET, pattern_index as int, squares@.len() as nat);
                assert(c2f_entries(TARGET, pattern_index as nat + 1) == done + whole);
                lemma_pow3(feature_index as nat);
                lemma_pow3_monotone(feature_index as nat, 9);
            }
            if squares[feature_index] == TARGET {
                let entry = CoordToFeatureIndex {
                    pattern_index: pattern_index as u8,
                    trit_place_value: place as u16,
                };
                proof {
                    let e = pattern_entries(TARGET, pattern_index as int, feature_index as nat + 1);
                    assert(e[e.len() - 1] == (pattern_index as int, place as int));
                    let whole = pattern_entries(TARGET, pattern_index as int, squares@.len() as nat);
                    assert((done + whole)[list_index as int] == whole[e.len() - 1]);
                    assert(all[list_index as int] == (pattern_index as int, place as int));
                }
                let ghost old_list = list@;
                list[list_index] = entry;
                assert(list@ == old_list.update(list_index as int, entry));
                assert(entry.pattern_index as int == pattern_index as int);
                assert(entry.trit_place_value as int == place as int);
                list_index += 1;
                assert forall|j: int| list_index <= j < COUNT implies #[trigger] list@[j].pattern_index
                    == 0 && list@[j].trit_place_value == 0 by {
                    assert(list@[j] == old_list[j]);
                    assert(old_list[j].pattern_index == 0);
                }
            }
            place = place * 3;
            feature_index += 1;
        }
        pattern_index += 1;
    }
    list
}

/// The pattern entries up to digit `k2` extend those up to digit `k1`.
proof fn lemma_entries_prefix(coord: u8, p: int, k1: nat, k2: nat)
    requires
        k1 <= k2,
    ensures
        pattern_entries(coord, p, k2).len() >= pattern_entries(coord, p, k1).len(),
        forall|j: int|
            0 <= j < pattern_entries(coord, p, k1).len() ==> #[trigger] pattern_entries(
                coord,
                p,
                k2,
            )[j] == pattern_entries(coord, p, k1)[j],
    decreases k2 - k1,
{
    if k1 < k2 {
        lemma_entries_prefix(coord, p, k1, (k2 - 1) as nat);
    }
}

/// The entries of the first `n` patterns are a prefix of those of the first
/// `m` patterns.
proof fn lemma_c2f_prefix(coord: u8, n: nat, m: nat)
    requires
        n <= m,
    ensures
        c2f_entries(coord, n).len() <= c2f_entries(coord, m).len(),
        forall|j: int|
            0 <= j < c2f_entries(coord, n).len() ==> #[trigger] c2f_entries(coord, m)[j]
                == c2f_entries(coord, n)[j],
    decreases m - n,
{
    if n < m {
        lemma_c2f_prefix(coord, n, (m - 1) as nat);
    }
}

} // verus!
