//! Bit-level facts about `u64` masks used as sets of board squares.
//!
//! Square `i` (0..64) of a board is bit `i` of a mask, counted from the
//! least significant bit.
use vstd::prelude::*;

verus! {

/// Whether bit `i` of `x` is set.
pub open spec fn bit_set(x: u64, i: u64) -> bool {
    (x >> i) & 1u64 == 1u64
}

/// The mask that holds only bit `i`.
pub open spec fn square_bit(i: u64) -> u64 {
    1u64 << i
}

/// The number of set bits of `x` among bits `0..n`.
pub open spec fn popcount_below(x: u64, n: nat) -> nat
    decreases n,
{
    if n == 0 {
        0
    } else {
        popcount_below(x, (n - 1) as nat) + if bit_set(x, (n - 1) as u64) {
            1nat
        } else {
            0nat
        }
    }
}

/// The indices below `n` of the set bits of `x`.
pub open spec fn set_bits(x: u64, n: nat) -> Set<int> {
    Set::new(|i: int| 0 <= i < n && bit_set(x, i as u64))
}

/// The set bits below `n` form a finite set of `popcount_below(x, n)` indices.
pub proof fn lemma_popcount_below_set(x: u64, n: nat)
    requires
        n <= 64,
    ensures
        set_bits(x, n).finite(),
        set_bits(x, n).len() == popcount_below(x, n),
    decreases n,
{
    if n == 0 {
        assert(set_bits(x, 0) =~= Set::<int>::empty());
    } else {
        let m = (n - 1) as nat;
        lemma_popcount_below_set(x, m);
        if bit_set(x, m as u64) {
            assert(set_bits(x, n) =~= set_bits(x, m).insert(m as int));
            assert(!set_bits(x, m).contains(m as int));
        } else {
            assert(set_bits(x, n) =~= set_bits(x, m));
        }
    }
}

/// The number of set bits of `x`.
pub open spec fn popcount(x: u64) -> nat {
    popcount_below(x, 64)
}

proof fn lemma_bit_ops_bv(a: u64, b: u64, i: u64)
    by (bit_vector)
    requires
        i < 64,
    ensures
        bit_set(a & b, i) == (bit_set(a, i) && bit_set(b, i)),
        bit_set(a | b, i) == (bit_set(a, i) || bit_set(b, i)),
        bit_set(a ^ b, i) == (bit_set(a, i) != bit_set(b, i)),
        bit_set(!a, i) == !bit_set(a, i),
{
}

/// Bit `i` of `a & b` is set exactly when it is set in both.
pub broadcast proof fn lemma_bit_and(a: u64, b: u64, i: u64)
    requires
        i < 64,
    ensures
        #[trigger] bit_set(a & b, i) == (bit_set(a, i) && bit_set(b, i)),
{
    lemma_bit_ops_bv(a, b, i);
}

/// Bit `i` of `a | b` is set exactly when it is set in either.
pub broadcast proof fn lemma_bit_or(a: u64, b: u64, i: u64)
    requires
        i < 64,
    ensures
        #[trigger] bit_set(a | b, i) == (bit_set(a, i) || bit_set(b, i)),
{
    lemma_bit_ops_bv(a, b, i);
}

/// Bit `i` of `a ^ b` is set exactly when the two differ there.
pub broadcast proof fn lemma_bit_xor(a: u64, b: u64, i: u64)
    requires
        i < 64,
    ensures
        #[trigger] bit_set(a ^ b, i) == (bit_set(a, i) != bit_set(b, i)),
{
    lemma_bit_ops_bv(a, b, i);
}

/// Bit `i` of `!a` is set exactly when it is clear in `a`.
pub broadcast proof fn lemma_bit_not(a: u64, i: u64)
    requires
        i < 64,
    ensures
        #[trigger] bit_set(!a, i) == !bit_set(a, i),
{
    lemma_bit_ops_bv(a, a, i);
}

/// The mask of square `j` has exactly bit `j` set.
pub broadcast proof fn lemma_square_bit(j: u64, i: u64)
    requires
        i < 64,
        j < 64,
    ensures
        #[trigger] bit_set(square_bit(j), i) == (i == j),
{
    assert(bit_set(square_bit(j), i) == (i == j)) by (bit_vector)
        requires
            i < 64,
            j < 64,
    ;
}

/// No bit of 0 is set.
pub broadcast proof fn lemma_bit_zero(i: u64)
    ensures
        !#[trigger] bit_set(0u64, i),
{
    assert(!bit_set(0u64, i)) by (bit_vector);
}

pub broadcast group group_bits {
    lemma_bit_and,
    lemma_bit_or,
    lemma_bit_xor,
    lemma_bit_not,
    lemma_square_bit,
    lemma_bit_zero,
}

proof fn lemma_high_zero(x: u64, n: u64)
    requires
        n < 64,
        forall|i: u64| n <= i < 64 ==> !#[trigger] bit_set(x, i),
    ensures
        x >> n == 0,
    decreases 64 - n,
{
    if n == 63 {
        assert(!bit_set(x, 63));
        assert(x >> 63u64 == 0) by (bit_vector)
            requires
                !bit_set(x, 63),
        ;
    } else {
        lemma_high_zero(x, (n + 1) as u64);
        assert(!bit_set(x, n));
        assert(x >> n == 0) by (bit_vector)
            requires
                n < 63,
                x >> ((n + 1) as u64) == 0,
                !bit_set(x, n),
        ;
    }
}

/// A mask with no set bit among 0..64 is zero.
pub proof fn lemma_no_bits_zero(x: u64)
    requires
        forall|i: u64| i < 64 ==> !#[trigger] bit_set(x, i),
    ensures
        x == 0,
{
    lemma_high_zero(x, 0);
    assert(x >> 0u64 == x) by (bit_vector);
}

/// Two masks with the same bits are equal.
pub proof fn lemma_bits_ext(a: u64, b: u64)
    requires
        forall|i: u64| i < 64 ==> #[trigger] bit_set(a, i) == bit_set(b, i),
    ensures
        a == b,
{
    broadcast use group_bits;

    assert forall|i: u64| i < 64 implies !#[trigger] bit_set(a ^ b, i) by {
        assert(bit_set(a, i) == bit_set(b, i));
    }
    lemma_no_bits_zero(a ^ b);
    assert(a ^ b == 0 ==> a == b) by (bit_vector);
}

/// A nonzero mask has a set bit.
pub proof fn lemma_nonzero_has_bit(x: u64) -> (i: u64)
    requires
        x != 0,
    ensures
        i < 64,
        bit_set(x, i),
{
    if forall|i: u64| i < 64 ==> !#[trigger] bit_set(x, i) {
        lemma_no_bits_zero(x);
    }
    choose|i: u64| i < 64 && bit_set(x, i)
}

/// The bit count of a mask below `n` is at most `n`.
pub proof fn lemma_popcount_below_bound(x: u64, n: nat)
    ensures
        popcount_below(x, n) <= n,
    decreases n,
{
    if n > 0 {
        lemma_popcount_below_bound(x, (n - 1) as nat);
    }
}

/// Bit counts of masks with the same bits below `n` agree.
pub proof fn lemma_popcount_below_congruent(a: u64, b: u64, n: nat)
    requires
        n <= 64,
        forall|i: u64| i < n ==> #[trigger] bit_set(a, i) == bit_set(b, i),
    ensures
        popcount_below(a, n) == popcount_below(b, n),
    decreases n,
{
    if n > 0 {
        lemma_popcount_below_congruent(a, b, (n - 1) as nat);
        assert(bit_set(a, (n - 1) as u64) == bit_set(b, (n - 1) as u64));
    }
}

/// The bit count of the union of two disjoint masks is the sum of their counts.
pub proof fn lemma_popcount_below_disjoint_union(a: u64, b: u64, n: nat)
    requires
        n <= 64,
        forall|i: u64| i < n ==> !(#[trigger] bit_set(a, i) && bit_set(b, i)),
    ensures
        popcount_below(a | b, n) == popcount_below(a, n) + popcount_below(b, n),
    decreases n,
{
    broadcast use group_bits;

    if n > 0 {
        lemma_popcount_below_disjoint_union(a, b, (n - 1) as nat);
        let k = (n - 1) as u64;
        assert(bit_set(a | b, k) == (bit_set(a, k) || bit_set(b, k)));
        assert(!(bit_set(a, k) && bit_set(b, k)));
    }
}

/// Removing a sub-mask from a mask removes its bit count.
pub proof fn lemma_popcount_below_remove(a: u64, f: u64, n: nat)
    requires
        n <= 64,
        forall|i: u64| i < n ==> (#[trigger] bit_set(f, i) ==> bit_set(a, i)),
    ensures
        popcount_below(a & !f, n) + popcount_below(f, n) == popcount_below(a, n),
    decreases n,
{
    broadcast use group_bits;

    if n > 0 {
        lemma_popcount_below_remove(a, f, (n - 1) as nat);
        let k = (n - 1) as u64;
        assert(bit_set(a & !f, k) == (bit_set(a, k) && !bit_set(f, k)));
        assert(bit_set(f, k) ==> bit_set(a, k));
    }
}

/// A mask with no bits below `n` has bit count 0 below `n`, and the converse.
pub proof fn lemma_popcount_below_zero(x: u64, n: nat)
    requires
        n <= 64,
    ensures
        popcount_below(x, n) == 0 <==> forall|i: u64| i < n ==> !#[trigger] bit_set(x, i),
    decreases n,
{
    if n > 0 {
        lemma_popcount_below_zero(x, (n - 1) as nat);
        if popcount_below(x, n) == 0 {
            assert forall|i: u64| i < n implies !#[trigger] bit_set(x, i) by {
                if i < n - 1 {
                } else {
                    assert(i == n - 1);
                }
            }
        }
    }
}

/// A mask whose bit count below `n` is one has exactly one bit set below `n`.
pub proof fn lemma_popcount_below_one(x: u64, n: nat) -> (j: u64)
    requires
        n <= 64,
        popcount_below(x, n) == 1,
    ensures
        j < n,
        bit_set(x, j),
        forall|i: u64| i < n && i != j ==> !#[trigger] bit_set(x, i),
    decreases n,
{
    let k = (n - 1) as u64;
    if bit_set(x, k) {
        lemma_popcount_below_zero(x, (n - 1) as nat);
        k
    } else {
        let j = lemma_popcount_below_one(x, (n - 1) as nat);
        assert forall|i: u64| i < n && i != j implies !#[trigger] bit_set(x, i) by {
            if i < n - 1 {
            } else {
                assert(i == k);
            }
        }
        j
    }
}

/// The mask of a single square has bit count one.
pub proof fn lemma_popcount_square_bit(j: u64)
    requires
        j < 64,
    ensures
        popcount(square_bit(j)) == 1,
{
    broadcast use group_bits;

    lemma_popcount_square_bit_below(j, 64);
}

proof fn lemma_popcount_square_bit_below(j: u64, n: nat)
    requires
        j < 64,
        n <= 64,
    ensures
        popcount_below(square_bit(j), n) == if j < n {
            1nat
        } else {
            0nat
        },
    decreases n,
{
    broadcast use group_bits;

    if n > 0 {
        lemma_popcount_square_bit_below(j, (n - 1) as nat);
        assert(bit_set(square_bit(j), (n - 1) as u64) == (j == n - 1));
    }
}

/// Counts the set bits of `x`.
pub(crate) fn count_ones(x: u64) -> (r: u32)
    ensures
        r as nat == popcount(x),
{
    let mut r: u32 = 0;
    let mut i: u64 = 0;
    while i < 64
        invariant
            i <= 64,
            r as nat == popcount_below(x, i as nat),
            popcount_below(x, i as nat) <= i,
        decreases 64 - i,
    {
        proof {
            lemma_popcount_below_bound(x, (i + 1) as nat);
        }
        if (x >> i) & 1 == 1 {
            r += 1;
        }
        i += 1;
    }
    r
}

/// For a mask whose lowest set bit is `t`, `b & (!b + 1)` isolates that bit
/// and `b & (b - 1)` clears it.
pub proof fn lemma_lowest_bit(b: u64, neg: u64, less: u64, t: u64)
    requires
        t < 64,
        bit_set(b, t),
        forall|j: u64| j < t ==> !#[trigger] bit_set(b, j),
        neg == !b + 1,
        less + 1 == b,
    ensures
        b & neg == square_bit(t),
        b & less == b ^ square_bit(t),
{
    broadcast use group_bits;

    let low = (b >> t) << t;
    assert forall|i: u64| i < 64 implies #[trigger] bit_set(low, i) == bit_set(b, i) by {
        assert(bit_set((b >> t) << t, i) == (i >= t && bit_set(b, i))) by (bit_vector)
            requires
                i < 64,
                t < 64,
        ;
    }
    lemma_bits_ext(low, b);
    assert(b & neg == 1u64 << t && b & less == b ^ (1u64 << t)) by (bit_vector)
        requires
            t < 64,
            (b >> t) & 1u64 == 1u64,
            (b >> t) << t == b,
            neg == !b + 1,
            less + 1 == b,
    ;
}

/// The mask of the squares below `n` that satisfy `f`.
pub open spec fn mask_below(f: spec_fn(int) -> bool, n: nat) -> u64
    decreases n,
{
    if n == 0 {
        0
    } else if f(n - 1) {
        mask_below(f, (n - 1) as nat) | square_bit((n - 1) as u64)
    } else {
        mask_below(f, (n - 1) as nat)
    }
}

/// The mask of the squares that satisfy `f`.
pub open spec fn mask_where(f: spec_fn(int) -> bool) -> u64 {
    mask_below(f, 64)
}

/// Bit `t` of `mask_below(f, n)` is set exactly when `t < n` and `f(t)`.
pub proof fn lemma_mask_below_bit(f: spec_fn(int) -> bool, n: nat, t: u64)
    requires
        n <= 64,
        t < 64,
    ensures
        bit_set(mask_below(f, n), t) == (t < n && f(t as int)),
    decreases n,
{
    broadcast use group_bits;

    if n > 0 {
        lemma_mask_below_bit(f, (n - 1) as nat, t);
    }
}

/// Bit `t` of `mask_where(f)` is set exactly when `f(t)`.
pub proof fn lemma_mask_where_bit(f: spec_fn(int) -> bool, t: u64)
    requires
        t < 64,
    ensures
        bit_set(mask_where(f), t) == f(t as int),
{
    lemma_mask_below_bit(f, 64, t);
}

/// A mask is the mask of the squares it holds.
pub proof fn lemma_mask_where_ext(f: spec_fn(int) -> bool, x: u64)
    requires
        forall|t: u64| t < 64 ==> #[trigger] bit_set(x, t) == f(t as int),
    ensures
        x == mask_where(f),
{
    assert forall|t: u64| t < 64 implies #[trigger] bit_set(x, t) == bit_set(mask_where(f), t) by {
        lemma_mask_where_bit(f, t);
    }
    lemma_bits_ext(x, mask_where(f));
}

/// `&` is commutative.
pub proof fn lemma_and_comm(a: u64, b: u64)
    by (bit_vector)
    ensures
        a & b == b & a,
{
}

/// `x & square_bit(i)` is nonzero exactly when bit `i` of `x` is set.
pub proof fn lemma_and_square_bit(x: u64, i: u64)
    requires
        i < 64,
    ensures
        (x & square_bit(i) != 0) == bit_set(x, i),
{
    assert((x & (1u64 << i) != 0) == bit_set(x, i)) by (bit_vector)
        requires
            i < 64,
    ;
}

} // verus!
