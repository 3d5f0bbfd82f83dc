//! Pattern features of a board: for each pattern, the base-3 number whose
//! digits are the states of the pattern's squares.
use crate::bitboard::Bitboard;
use crate::bits::{bit_set, popcount};
use crate::patterns::{
    get_symmetric_pattern_indices, lemma_base_pattern_shape, lemma_pattern_shape, pattern,
    pattern_squares, pattern_symmetry, NUM_PATTERNS,
};
use crate::coordinate::rotated_90_cw;
use crate::patterns::{base_pattern, rotated_pattern, turned};
use crate::utils::{cw_source, lemma_rotated_cw_bit, lemma_sources_inverse, rotated_cw};
use vstd::prelude::*;

verus! {

/// The number of game phases: 0 to 64 stones on the board.
pub const PHASE_MAX: u8 = 65;

/// `3` to the power `n`.
pub open spec fn pow3(n: nat) -> nat
    decreases n,
{
    if n == 0 {
        1
    } else {
        3 * pow3((n - 1) as nat)
    }
}

/// The number with base-3 digits `digits[0..k]`, least significant first.
pub open spec fn trit_sum(digits: Seq<int>, k: nat) -> int
    decreases k,
{
    if k == 0 {
        0
    } else {
        trit_sum(digits, (k - 1) as nat) + digits[k - 1] * pow3((k - 1) as nat)
    }
}

/// Digit `k` of `x` in base 3.
pub open spec fn trit(x: int, k: nat) -> int {
    (x / (pow3(k) as int)) % 3
}

/// The state of square `s` on a board with masks `v`: 0 for a black stone,
/// 1 for a white stone, 2 for an empty square.
pub open spec fn square_state(v: (u64, u64), s: int) -> int {
    if bit_set(v.0, s as u64) {
        0
    } else if bit_set(v.1, s as u64) {
        1
    } else {
        2
    }
}

/// The states of the squares of pattern `p`, in the order of its digits.
pub open spec fn pattern_states(v: (u64, u64), p: int) -> Seq<int> {
    Seq::new(pattern_squares(p).len(), |i: int| square_state(v, pattern_squares(p)[i] as int))
}

/// The feature index of pattern `p` on a board with masks `v`: the base-3
/// number whose digits are the states of the pattern's squares.
pub open spec fn pattern_value(v: (u64, u64), p: int) -> int {
    trit_sum(pattern_states(v, p), pattern_squares(p).len())
}

/// The digits of `x` for pattern `p` read in mirror order: digit `i` is the
/// digit of `x` at the mirror image of square `i`.
pub open spec fn mirrored_trits(p: int, x: int) -> Seq<int> {
    Seq::new(pattern_symmetry(p).len(), |i: int| trit(x, pattern_symmetry(p)[i] as nat))
}

/// The feature index of the mirror image of the pattern-`p` configuration `x`.
pub open spec fn mirror_value(p: int, x: int) -> int {
    trit_sum(mirrored_trits(p, x), pattern_symmetry(p).len())
}

/// The canonical feature index of `x` for pattern `p`: the smaller of `x`
/// and its mirror image.
pub open spec fn canonical_value(p: int, x: int) -> int {
    if x <= mirror_value(p, x) {
        x
    } else {
        mirror_value(p, x)
    }
}

/// Powers of 3 are positive and grow by a factor of 3.
pub proof fn lemma_pow3(n: nat)
    ensures
        pow3(n) >= 1,
        pow3(n + 1) == 3 * pow3(n),
    decreases n,
{
    if n > 0 {
        lemma_pow3((n - 1) as nat);
    }
}

/// The first powers of 3.
pub proof fn lemma_pow3_values()
    ensures
        pow3(0) == 1,
        pow3(1) == 3,
        pow3(2) == 9,
        pow3(3) == 27,
        pow3(4) == 81,
        pow3(5) == 243,
        pow3(6) == 729,
        pow3(7) == 2187,
        pow3(8) == 6561,
        pow3(9) == 19683,
        pow3(10) == 59049,
{
    reveal_with_fuel(pow3, 11);
}

/// A number with `k` base-3 digits (each 0..3) is below `3^k`.
pub proof fn lemma_trit_sum_bound(digits: Seq<int>, k: nat)
    requires
        k <= digits.len(),
        forall|i: int| 0 <= i < k ==> 0 <= #[trigger] digits[i] <= 2,
    ensures
        0 <= trit_sum(digits, k) < pow3(k),
    decreases k,
{
    if k > 0 {
        lemma_trit_sum_bound(digits, (k - 1) as nat);
        lemma_pow3((k - 1) as nat);
        let d = digits[k - 1];
        let p = pow3((k - 1) as nat) as int;
        assert(0 <= d * p <= 2 * p) by (nonlinear_arith)
            requires
                0 <= d <= 2,
                p >= 1,
        ;
    }
}

/// A feature index of pattern `p` is below `3` to the number of its squares.
pub proof fn lemma_pattern_value_range(v: (u64, u64), p: int)
    ensures
        0 <= pattern_value(v, p) < pow3(pattern_squares(p).len()),
{
    let states = pattern_states(v, p);
    lemma_trit_sum_bound(states, pattern_squares(p).len());
}

/// `3^(a + b) == 3^a * 3^b`.
pub proof fn lemma_pow3_add(a: nat, b: nat)
    ensures
        pow3(a + b) == pow3(a) * pow3(b),
    decreases b,
{
    if b > 0 {
        let c = (b - 1) as nat;
        lemma_pow3_add(a, c);
        lemma_pow3(a + c);
        lemma_pow3(c);
        assert(a + c + 1 == a + b);
        assert(c + 1 == b);
        let x = pow3(a) as int;
        let y = pow3(c) as int;
        assert(pow3(a + b) == 3 * pow3(a + c));
        assert(pow3(b) == 3 * y);
        assert(3 * (x * y) == x * (3 * y)) by (nonlinear_arith);
        assert(pow3(a + c) == x * y);
        assert(pow3(a + b) == x * pow3(b));
    } else {
        assert(pow3(b) == 1);
        assert(a + b == a);
    }
}

/// The digits `digits[i + 1..k]` read as a number of their own.
pub open spec fn trit_sum_above(digits: Seq<int>, i: nat, k: nat) -> int
    decreases k,
{
    if k <= i + 1 {
        0
    } else {
        trit_sum_above(digits, i, (k - 1) as nat) + digits[k - 1] * pow3((k - i - 2) as nat)
    }
}

proof fn lemma_trit_sum_above_nonneg(digits: Seq<int>, i: nat, k: nat)
    requires
        forall|j: int| 0 <= j < k ==> 0 <= #[trigger] digits[j],
    ensures
        trit_sum_above(digits, i, k) >= 0,
    decreases k,
{
    if k > i + 1 {
        lemma_trit_sum_above_nonneg(digits, i, (k - 1) as nat);
        let d = digits[k - 1];
        let q = pow3((k - i - 2) as nat) as int;
        assert(d * q >= 0) by (nonlinear_arith)
            requires
                d >= 0,
                q >= 0,
        ;
    }
}

proof fn lemma_trit_sum_split(digits: Seq<int>, i: nat, k: nat)
    requires
        i < k,
    ensures
        trit_sum(digits, k) == trit_sum(digits, i + 1) + pow3(i + 1) * trit_sum_above(digits, i, k),
    decreases k,
{
    if k > i + 1 {
        lemma_trit_sum_split(digits, i, (k - 1) as nat);
        lemma_pow3_add(i + 1, (k - i - 2) as nat);
        let p = pow3(i + 1) as int;
        let u = trit_sum_above(digits, i, (k - 1) as nat);
        let d = digits[k - 1];
        let q = pow3((k - i - 2) as nat) as int;
        assert(p * (u + d * q) == p * u + d * (p * q)) by (nonlinear_arith);
        assert((i + 1 + (k - i - 2)) as nat == (k - 1) as nat);
    }
}

/// Reading digit `i` of a number written with digits `digits` gives
/// `digits[i]` back.
pub proof fn lemma_trit_of_sum(digits: Seq<int>, k: nat, i: nat)
    requires
        i < k <= digits.len(),
        forall|j: int| 0 <= j < k ==> 0 <= #[trigger] digits[j] <= 2,
    ensures
        trit(trit_sum(digits, k), i) == digits[i as int],
{
    let w = trit_sum(digits, k);
    let p = pow3(i) as int;
    let u = trit_sum_above(digits, i, k);
    let d = digits[i as int];
    let low = trit_sum(digits, i);
    lemma_trit_sum_split(digits, i, k);
    lemma_trit_sum_above_nonneg(digits, i, k);
    lemma_pow3(i);
    lemma_trit_sum_bound(digits, i);
    assert(trit_sum(digits, i + 1) == low + d * p);
    assert(w == (d + 3 * u) * p + low) by (nonlinear_arith)
        requires
            w == (low + d * p) + (3 * p) * u,
    ;
    vstd::arithmetic::div_mod::lemma_fundamental_div_mod_converse(w, p, d + 3 * u, low);
    vstd::arithmetic::div_mod::lemma_fundamental_div_mod_converse(d + 3 * u, 3, u, d);
}

/// Numbers whose first `k` digits agree are equal below `3^k`.
pub proof fn lemma_trit_sum_congruent(a: Seq<int>, b: Seq<int>, k: nat)
    requires
        forall|i: int| 0 <= i < k ==> #[trigger] a[i] == b[i],
    ensures
        trit_sum(a, k) == trit_sum(b, k),
    decreases k,
{
    if k > 0 {
        lemma_trit_sum_congruent(a, b, (k - 1) as nat);
        assert(a[k - 1] == b[k - 1]);
    }
}

/// The first `n` base-3 digits of `x`.
pub open spec fn trits_of(x: int, n: nat) -> Seq<int> {
    Seq::new(n, |i: int| trit(x, i as nat))
}

/// Digit `i` of `q * 3^n + r` is digit `i` of `r` when `i < n`.
proof fn lemma_trit_low(q: int, r: int, n: nat, i: nat)
    requires
        i < n,
        q >= 0,
        r >= 0,
    ensures
        trit(q * pow3(n) + r, i) == trit(r, i),
{
    let m = pow3(i) as int;
    lemma_pow3(i);
    lemma_pow3_add(i, (n - i) as nat);
    lemma_pow3((n - i - 1) as nat);
    let t = pow3((n - i - 1) as nat) as int;
    assert(pow3((n - i) as nat) == 3 * t);
    let a = r / m;
    let b = r % m;
    vstd::arithmetic::div_mod::lemma_fundamental_div_mod(r, m);
    let x = q * pow3(n) + r;
    assert(x == (3 * (q * t + a / 3) + a % 3) * m + b) by (nonlinear_arith)
        requires
            x == q * pow3(n) + r,
            pow3(n) == m * (3 * t),
            r == m * a + b,
            a == 3 * (a / 3) + a % 3,
    ;
    vstd::arithmetic::div_mod::lemma_fundamental_div_mod(a, 3);
    assert(0 <= b < m) by {
        vstd::arithmetic::div_mod::lemma_mod_bound(r, m);
    }
    vstd::arithmetic::div_mod::lemma_fundamental_div_mod_converse(
        x,
        m,
        3 * (q * t + a / 3) + a % 3,
        b,
    );
    vstd::arithmetic::div_mod::lemma_mod_bound(a, 3);
    vstd::arithmetic::div_mod::lemma_fundamental_div_mod_converse(
        3 * (q * t + a / 3) + a % 3,
        3,
        q * t + a / 3,
        a % 3,
    );
}

/// A number below `3^n` is the number its first `n` digits spell.
pub proof fn lemma_trit_sum_of_trits(x: int, n: nat)
    requires
        0 <= x < pow3(n),
    ensures
        trit_sum(trits_of(x, n), n) == x,
    decreases n,
{
    if n > 0 {
        let p = pow3((n - 1) as nat) as int;
        lemma_pow3((n - 1) as nat);
        let q = x / p;
        let r = x % p;
        vstd::arithmetic::div_mod::lemma_fundamental_div_mod(x, p);
        vstd::arithmetic::div_mod::lemma_mod_bound(x, p);
        assert(0 <= q < 3) by {
            vstd::arithmetic::div_mod::lemma_div_pos_is_pos(x, p);
            if q >= 3 {
                assert(p * q >= p * 3) by (nonlinear_arith)
                    requires
                        q >= 3,
                        p >= 1,
                ;
            }
        }
        lemma_trit_sum_of_trits(r, (n - 1) as nat);
        assert forall|i: int| 0 <= i < n - 1 implies #[trigger] trits_of(x, n)[i] == trits_of(
            r,
            (n - 1) as nat,
        )[i] by {
            assert(x == q * pow3((n - 1) as nat) + r);
            lemma_trit_low(q, r, (n - 1) as nat, i as nat);
        }
        lemma_trit_sum_congruent(trits_of(x, n), trits_of(r, (n - 1) as nat), (n - 1) as nat);
        vstd::arithmetic::div_mod::lemma_small_mod(q as nat, 3);
        assert(trits_of(x, n)[n - 1] == q);
    }
}

/// The digits of a number are 0, 1 or 2.
pub proof fn lemma_trit_range(x: int, k: nat)
    requires
        x >= 0,
    ensures
        0 <= trit(x, k) <= 2,
{
    lemma_pow3(k);
    vstd::arithmetic::div_mod::lemma_div_pos_is_pos(x, pow3(k) as int);
    vstd::arithmetic::div_mod::lemma_mod_bound(x / (pow3(k) as int), 3);
}

/// Mirroring a configuration of pattern `p` twice gives it back, and the
/// mirror of a configuration is a configuration.
pub proof fn lemma_mirror_involution(p: int, x: int)
    requires
        0 <= p < 64,
        0 <= x < pow3(pattern_symmetry(p).len()),
    ensures
        0 <= mirror_value(p, x) < pow3(pattern_symmetry(p).len()),
        mirror_value(p, mirror_value(p, x)) == x,
{
    lemma_base_pattern_shape(p / 4);
    let sym = pattern_symmetry(p);
    let n = sym.len();
    let mt = mirrored_trits(p, x);
    assert forall|j: int| 0 <= j < n implies 0 <= #[trigger] mt[j] <= 2 by {
        lemma_trit_range(x, sym[j] as nat);
    }
    lemma_trit_sum_bound(mt, n);
    let mv = mirror_value(p, x);
    let mt2 = mirrored_trits(p, mv);
    assert forall|i: int| 0 <= i < n implies #[trigger] mt2[i] == trits_of(x, n)[i] by {
        lemma_trit_of_sum(mt, n, sym[i] as nat);
        assert(sym[sym[i] as int] == i);
    }
    lemma_trit_sum_congruent(mt2, trits_of(x, n), n);
    lemma_trit_sum_of_trits(x, n);
}

/// A configuration and its mirror image have the same canonical index, the
/// canonical index is canonical itself, and it is at most the index.
pub proof fn lemma_canonical_value(p: int, x: int)
    requires
        0 <= p < 64,
        0 <= x < pow3(pattern_symmetry(p).len()),
    ensures
        canonical_value(p, mirror_value(p, x)) == canonical_value(p, x),
        canonical_value(p, canonical_value(p, x)) == canonical_value(p, x),
        canonical_value(p, x) <= x,
        0 <= canonical_value(p, x),
{
    lemma_mirror_involution(p, x);
}

/// The orientation after pattern `p`: the same base pattern turned one more
/// quarter clockwise.
pub open spec fn next_orientation(p: int) -> int {
    4 * (p / 4) + (p % 4 + 1) % 4
}

/// The board with masks `v` turned a quarter clockwise.
pub open spec fn turned_board(v: (u64, u64)) -> (u64, u64) {
    (rotated_cw(v.0), rotated_cw(v.1))
}

/// A square keeps its state when the board and the square turn together.
proof fn lemma_square_state_turned(v: (u64, u64), s: int)
    requires
        0 <= s < 64,
    ensures
        0 <= rotated_90_cw(s) < 64,
        square_state(turned_board(v), rotated_90_cw(s)) == square_state(v, s),
{
    let t = rotated_90_cw(s);
    lemma_sources_inverse(s);
    assert(cw_source(t) == s);
    lemma_rotated_cw_bit(v.0, t as u64);
    lemma_rotated_cw_bit(v.1, t as u64);
}

/// Four quarter turns bring every square of a base pattern back.
proof fn lemma_four_turns_of_pattern(b: int)
    requires
        0 <= b < 16,
    ensures
        rotated_pattern(turned(base_pattern(b), 3)) == base_pattern(b),
{
    lemma_base_pattern_shape(b);
    let base = base_pattern(b);
    crate::patterns::lemma_turned_shape(base, 3);
    crate::patterns::lemma_turned_shape(base, 2);
    crate::patterns::lemma_turned_shape(base, 1);
    let four = rotated_pattern(turned(base, 3));
    assert(turned(base, 0) == base);
    assert(turned(base, 1) == rotated_pattern(base));
    assert(turned(base, 2) == rotated_pattern(turned(base, 1)));
    assert(turned(base, 3) == rotated_pattern(turned(base, 2)));
    assert forall|i: int| 0 <= i < base.len() implies #[trigger] four[i] == base[i] by {
        let c = base[i] as int;
        assert(0 <= c < 64);
        let r1 = rotated_90_cw(c);
        let r2 = rotated_90_cw(r1);
        let r3 = rotated_90_cw(r2);
        assert(turned(base, 1)[i] == r1 as u8);
        assert(turned(base, 2)[i] == r2 as u8);
        assert(turned(base, 3)[i] == r3 as u8);
        assert(rotated_90_cw(r3) == c);
    }
    assert(four =~= base);
}

/// Turning the board a quarter clockwise carries the configuration of each
/// pattern over to the next orientation of its base pattern: the feature
/// index of pattern `p` on the board equals that of its next orientation on
/// the turned board, and the turned board has as many stones of each color.
pub proof fn lemma_turned_board_features(v: (u64, u64), p: int)
    requires
        0 <= p < 64,
    ensures
        0 <= next_orientation(p) < 64,
        pattern_value(turned_board(v), next_orientation(p)) == pattern_value(v, p),
        popcount(turned_board(v).0) == popcount(v.0),
        popcount(turned_board(v).1) == popcount(v.1),
{
    crate::utils::lemma_rotated_cw_popcount(v.0);
    crate::utils::lemma_rotated_cw_popcount(v.1);
    let q = next_orientation(p);
    let b = p / 4;
    assert(q / 4 == b && q % 4 == (p % 4 + 1) % 4);
    lemma_pattern_shape(p);
    lemma_pattern_shape(q);
    let sq = pattern_squares(p);
    assert(pattern_squares(q) == rotated_pattern(sq)) by {
        if p % 4 == 3 {
            lemma_four_turns_of_pattern(b);
            assert(q % 4 == 0);
        } else {
            assert(q % 4 == p % 4 + 1);
        }
    }
    let a = pattern_states(turned_board(v), q);
    let c = pattern_states(v, p);
    assert forall|i: int| 0 <= i < sq.len() implies #[trigger] a[i] == c[i] by {
        assert(sq[i] < 64);
        lemma_square_state_turned(v, sq[i] as int);
        assert(rotated_pattern(sq)[i] == rotated_90_cw(sq[i] as int) as u8);
    }
    lemma_trit_sum_congruent(a, c, sq.len());
}

/// The feature vector of a board: one feature index per pattern, and the
/// phase (the number of stones on the board).
#[derive(Debug, Clone)]
pub struct Feature {
    /// The feature index of each pattern.
    pub indices: [u16; 64],
    /// The number of stones on the board.
    pub phase: u8,
}

impl Default for Feature {
    /// All feature indices 0, phase 0.
    fn default() -> (r: Self)
        ensures
            forall|i: int| 0 <= i < 64 ==> #[trigger] r.indices@[i] == 0,
            r.phase == 0,
    {
        Feature { indices: [0; 64], phase: 0 }
    }
}

/// Returns `3^e` for `e` up to 10.
pub(crate) fn pow3_u32(e: u32) -> (r: u32)
    requires
        e <= 10,
    ensures
        r == pow3(e as nat),
        1 <= r <= 59049,
{
    proof {
        lemma_pow3_values();
    }
    let mut r: u32 = 1;
    let mut i: u32 = 0;
    while i < e
        invariant
            i <= e <= 10,
            r == pow3(i as nat),
            pow3(10) == 59049,
        decreases e - i,
    {
        proof {
            lemma_pow3(i as nat);
            lemma_pow3_monotone(i as nat + 1, 10);
        }
        r = r * 3;
        i += 1;
    }
    proof {
        lemma_pow3_monotone(e as nat, 10);
        lemma_pow3(e as nat);
    }
    r
}

/// Powers of 3 grow with the exponent.
pub proof fn lemma_pow3_monotone(a: nat, b: nat)
    requires
        a <= b,
    ensures
        pow3(a) <= pow3(b),
    decreases b - a,
{
    if a < b {
        lemma_pow3_monotone(a, (b - 1) as nat);
        lemma_pow3((b - 1) as nat);
    }
}

/// Converts the board into square states: 0 for black, 1 for white, 2 for
/// empty.
pub fn squares_from_bitboard(bitboard: &Bitboard) -> (r: [u8; 64])
    ensures
        forall|i: int| 0 <= i < 64 ==> #[trigger] r@[i] as int == square_state(bitboard@, i),
{
    let mut squares = [0u8; 64];
    let (black, white) = bitboard.bits();
    let mut i: usize = 0;
    while i < 64
        invariant
            i <= 64,
            squares@.len() == 64,
            (black, white) == bitboard@,
            forall|k: int| 0 <= k < i ==> #[trigger] squares@[k] as int == square_state(bitboard@, k),
        decreases 64 - i,
    {
        if (black >> (i as u64)) & 1 == 1 {
            squares[i] = 0;
        } else if (white >> (i as u64)) & 1 == 1 {
            squares[i] = 1;
        } else {
            squares[i] = 2;
        }
        i += 1;
    }
    squares
}

/// Extracts the feature vector of a board: for each pattern the base-3
/// number of its square states, and the number of stones as the phase.
pub fn extract_feature(board: &Bitboard) -> (r: Feature)
    ensures
        r.phase == popcount(board@.0) + popcount(board@.1),
        forall|p: int| 0 <= p < 64 ==> #[trigger] r.indices@[p] as int == pattern_value(board@, p),
{
    let (black, white) = board.count_stones();
    proof {
        crate::bits::lemma_popcount_below_bound(board@.0, 64);
        crate::bits::lemma_popcount_below_bound(board@.1, 64);
    }
    let phase = (black + white) as u8;
    let squares = squares_from_bitboard(board);
    let mut indices = [0u16; 64];
    let mut p: usize = 0;
    while p < NUM_PATTERNS
        invariant
            p <= 64,
            indices@.len() == 64,
            forall|i: int| 0 <= i < 64 ==> #[trigger] squares@[i] as int == square_state(board@, i),
            forall|q: int| 0 <= q < p ==> #[trigger] indices@[q] as int == pattern_value(board@, q),
        decreases 64 - p,
    {
        let pat = pattern(p);
        let ghost states = pattern_states(board@, p as int);
        proof {
            lemma_pattern_shape(p as int);
            lemma_pow3_values();
        }
        let mut value: u32 = 0;
        let mut place: u32 = 1;
        let mut k: usize = 0;
        while k < pat.len()
            invariant
                k <= pat.len() <= 10,
                pat@ == pattern_squares(p as int),
                crate::patterns::all_on_board(pat@),
                states == pattern_states(board@, p as int),
                forall|i: int| 0 <= i < 64 ==> #[trigger] squares@[i] as int == square_state(board@, i),
                place == pow3(k as nat),
                value == trit_sum(states, k as nat),
                value < pow3(k as nat),
                pow3(10) == 59049,
            decreases pat.len() - k,
        {
            let c = pat[k];
            assert(c < 64);
            let s = squares[c as usize] as u32;
            assert(states[k as int] == s);
            proof {
                lemma_pow3(k as nat);
                lemma_pow3_monotone(k as nat + 1, 10);
                assert(value + s * place < pow3(k as nat + 1)) by (nonlinear_arith)
                    requires
                        value < place,
                        s <= 2,
                        place == pow3(k as nat),
                        pow3(k as nat + 1) == 3 * pow3(k as nat),
                ;
            }
            value = value + s * place;
            place = place * 3;
            k += 1;
        }
        indices[p] = value as u16;
        p += 1;
    }
    Feature { indices, phase }
}

/// Returns the canonical feature index of `feature_index` for pattern
/// `pattern_index`: the smaller of the index and that of its mirror image.
pub fn canonicalize_pattern_feature(pattern_index: usize, feature_index: u16) -> (r: u16)
    requires
        pattern_index < NUM_PATTERNS,
    ensures
        r == canonical_value(pattern_index as int, feature_index as int),
{
    let symmetric_pattern_indices = get_symmetric_pattern_indices(pattern_index);
    let len = symmetric_pattern_indices.len();
    let ghost digits = mirrored_trits(pattern_index as int, feature_index as int);
    proof {
        lemma_base_pattern_shape(pattern_index as int / 4);
        lemma_pow3_values();
    }
    let mut symmetric_feature: u32 = 0;
    let mut i: usize = 0;
    while i < len
        invariant
            i <= len <= 10,
            len == symmetric_pattern_indices@.len(),
            symmetric_pattern_indices@ == pattern_symmetry(pattern_index as int),
            forall|k: int|
                0 <= k < len ==> #[trigger] symmetric_pattern_indices@[k] < len,
            digits == mirrored_trits(pattern_index as int, feature_index as int),
            symmetric_feature == trit_sum(digits, i as nat),
            symmetric_feature < pow3(i as nat),
            pow3(10) == 59049,
        decreases len - i,
    {
        let symmetric_index = symmetric_pattern_indices[i] as u32;
        let d = (feature_index as u32 / pow3_u32(symmetric_index)) % 3;
        assert(digits[i as int] == d);
        let place = pow3_u32(i as u32);
        proof {
            lemma_pow3(i as nat);
            lemma_pow3_monotone(i as nat + 1, 10);
            assert(symmetric_feature + d * place < pow3(i as nat + 1)) by (nonlinear_arith)
                requires
                    symmetric_feature < place,
                    d <= 2,
                    place == pow3(i as nat),
                    pow3(i as nat + 1) == 3 * pow3(i as nat),
            ;
        }
        symmetric_feature = symmetric_feature + d * place;
        i += 1;
    }
    let symmetric_feature = symmetric_feature as u16;
    if feature_index <= symmetric_feature {
        feature_index
    } else {
        symmetric_feature
    }
}

/// Canonicalizes every feature index of a feature vector; the phase stays.
pub fn canonicalize_feature(feature: &Feature) -> (r: Feature)
    ensures
        r.phase == feature.phase,
        forall|i: int|
            0 <= i < 64 ==> #[trigger] r.indices@[i] as int == canonical_value(
                i,
                feature.indices@[i] as int,
            ),
{
    let mut indices = feature.indices;
    let mut i: usize = 0;
    while i < NUM_PATTERNS
        invariant
            i <= 64,
            indices@.len() == 64,
            feature.indices@.len() == 64,
            forall|k: int| i <= k < 64 ==> #[trigger] indices@[k] == feature.indices@[k],
            forall|k: int|
                0 <= k < i ==> #[trigger] indices@[k] as int == canonical_value(
                    k,
                    feature.indices@[k] as int,
                ),
        decreases 64 - i,
    {
        let canonical = canonicalize_pattern_feature(i, feature.indices[i]);
        indices[i] = canonical;
        i += 1;
    }
    Feature { indices, phase: feature.phase }
}

} // verus!
