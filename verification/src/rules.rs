//! The rules of Reversi stated over squares, and the bit shifts that move a
//! whole mask one step in a direction.
use crate::bits::bit_set;
use crate::geometry::{is_direction, lemma_ray_length, lemma_ray_shift, on_board, opposite, ray, step};
use vstd::prelude::*;

verus! {

/// Whether mask `x` holds a stone on square `s` (false off the board).
pub open spec fn occupied(x: u64, s: int) -> bool {
    on_board(s) && bit_set(x, s as u64)
}

/// The `k` squares next to `m` in direction `d` all hold stones of `o`.
pub open spec fn run_of(o: u64, m: int, d: int, k: nat) -> bool {
    forall|j: nat| 1 <= j <= k ==> #[trigger] occupied(o, ray(m, d, j))
}

/// Placing on `m`, the player `p` encloses `k` opponent stones of `o` in
/// direction `d`: the `k` squares next to `m` hold opponent stones and the
/// square after them holds a stone of the player.
pub open spec fn brackets(p: u64, o: u64, m: int, d: int, k: nat) -> bool {
    &&& k >= 1
    &&& run_of(o, m, d, k)
    &&& occupied(p, ray(m, d, k + 1))
}

/// Placing on `m` encloses opponent stones in direction `d`.
pub open spec fn captures_in_direction(p: u64, o: u64, m: int, d: int) -> bool {
    exists|k: nat| brackets(p, o, m, d, k)
}

/// A legal move of the player with stones `p` against stones `o`: square `m`
/// is empty and placing there encloses opponent stones in some direction.
pub open spec fn is_legal_move(p: u64, o: u64, m: int) -> bool {
    &&& on_board(m)
    &&& !occupied(p, m)
    &&& !occupied(o, m)
    &&& exists|d: int| is_direction(d) && captures_in_direction(p, o, m, d)
}

/// Square `s` is turned over when the player places on `m`: it lies in the
/// run of opponent stones next to `m` in a direction in which the placement
/// encloses opponent stones.
pub open spec fn is_flipped(p: u64, o: u64, m: int, s: int) -> bool {
    exists|d: int, j: nat|
        #![trigger ray(m, d, j), captures_in_direction(p, o, m, d)]
        is_direction(d) && 1 <= j && run_of(o, m, d, j) && ray(m, d, j) == s
            && captures_in_direction(p, o, m, d)
}

/// The shift amount of direction `d` (positive shifts go left).
pub open spec fn shift_amount(d: int) -> int {
    if d == 0 {
        1
    } else if d == 1 {
        -1
    } else if d == 2 {
        8
    } else if d == 3 {
        -8
    } else if d == 4 {
        9
    } else if d == 5 {
        7
    } else if d == 6 {
        -9
    } else {
        -7
    }
}

/// The mask that clears the squares a shift in direction `d` wraps onto.
pub open spec fn shift_mask(d: int) -> u64 {
    if d == 0 {
        0xfefefefefefefefe
    } else if d == 1 {
        0x7f7f7f7f7f7f7f7f
    } else if d == 2 {
        0xffffffffffffff00
    } else if d == 3 {
        0x00ffffffffffffff
    } else if d == 4 {
        0xfefefefefefefe00
    } else if d == 5 {
        0x7f7f7f7f7f7f7f00
    } else if d == 6 {
        0x007f7f7f7f7f7f7f
    } else {
        0x00fefefefefefefe
    }
}

/// `bits` shifted by `amount` (left when positive) and then masked.
pub open spec fn masked_shift(bits: u64, amount: int, mask: u64) -> u64 {
    if amount > 0 {
        (bits << (amount as u64)) & mask
    } else {
        (bits >> ((-amount) as u64)) & mask
    }
}

/// Every stone of `x` moved one step in direction `d`; stones that would
/// leave the board disappear.
pub open spec fn shift_dir(x: u64, d: int) -> u64 {
    masked_shift(x, shift_amount(d), shift_mask(d))
}

proof fn lemma_shift_bv_right(x: u64, t: u64)
    by (bit_vector)
    requires
        t < 64,
    ensures
        bit_set((x << 1u64) & 0xfefefefefefefefeu64, t) == (t % 8 != 0 && bit_set(
            x,
            (t - 1) as u64,
        )),
{
}

proof fn lemma_shift_bv_left(x: u64, t: u64)
    by (bit_vector)
    requires
        t < 64,
    ensures
        bit_set((x >> 1u64) & 0x7f7f7f7f7f7f7f7fu64, t) == (t % 8 != 7 && bit_set(
            x,
            (t + 1) as u64,
        )),
{
}

proof fn lemma_shift_bv_down(x: u64, t: u64)
    by (bit_vector)
    requires
        t < 64,
    ensures
        bit_set((x << 8u64) & 0xffffffffffffff00u64, t) == (t >= 8 && bit_set(
            x,
            (t - 8) as u64,
        )),
{
}

proof fn lemma_shift_bv_up(x: u64, t: u64)
    by (bit_vector)
    requires
        t < 64,
    ensures
        bit_set((x >> 8u64) & 0x00ffffffffffffffu64, t) == (t < 56 && bit_set(
            x,
            (t + 8) as u64,
        )),
{
}

proof fn lemma_shift_bv_down_right(x: u64, t: u64)
    by (bit_vector)
    requires
        t < 64,
    ensures
        bit_set((x << 9u64) & 0xfefefefefefefe00u64, t) == (t >= 8 && t % 8 != 0 && bit_set(
            x,
            (t - 9) as u64,
        )),
{
}

proof fn lemma_shift_bv_down_left(x: u64, t: u64)
    by (bit_vector)
    requires
        t < 64,
    ensures
        bit_set((x << 7u64) & 0x7f7f7f7f7f7f7f00u64, t) == (t >= 8 && t % 8 != 7 && bit_set(
            x,
            (t - 7) as u64,
        )),
{
}

proof fn lemma_shift_bv_up_left(x: u64, t: u64)
    by (bit_vector)
    requires
        t < 64,
    ensures
        bit_set((x >> 9u64) & 0x007f7f7f7f7f7f7fu64, t) == (t < 56 && t % 8 != 7 && bit_set(
            x,
            (t + 9) as u64,
        )),
{
}

proof fn lemma_shift_bv_up_right(x: u64, t: u64)
    by (bit_vector)
    requires
        t < 64,
    ensures
        bit_set((x >> 7u64) & 0x00fefefefefefefeu64, t) == (t < 56 && t % 8 != 0 && bit_set(
            x,
            (t + 7) as u64,
        )),
{
}

/// After a shift in direction `d`, square `t` holds a stone exactly when the
/// square one step back from `t` (against `d`) held one.
pub proof fn lemma_shift_dir_bit(x: u64, d: int, t: u64)
    requires
        is_direction(d),
        t < 64,
    ensures
        bit_set(shift_dir(x, d), t) == occupied(x, step(t as int, opposite(d))),
{
    if d == 0 {
        lemma_shift_bv_right(x, t);
    } else if d == 1 {
        lemma_shift_bv_left(x, t);
    } else if d == 2 {
        lemma_shift_bv_down(x, t);
    } else if d == 3 {
        lemma_shift_bv_up(x, t);
    } else if d == 4 {
        lemma_shift_bv_down_right(x, t);
    } else if d == 5 {
        lemma_shift_bv_down_left(x, t);
    } else if d == 6 {
        lemma_shift_bv_up_left(x, t);
    } else {
        lemma_shift_bv_up_right(x, t);
    }
}

/// Starting on square `s` and going in direction `d`, `k` opponent stones
/// (`o`) are followed by a stone of the player (`p`).
pub open spec fn closed_line(p: u64, o: u64, s: int, d: int, k: nat) -> bool {
    &&& k >= 1
    &&& forall|i: nat| i < k ==> #[trigger] occupied(o, ray(s, d, i))
    &&& occupied(p, ray(s, d, k))
}

/// Some closed line of length 1 to `n` starts on `s` in direction `d`.
pub open spec fn closed_line_upto(p: u64, o: u64, s: int, d: int, n: nat) -> bool
    decreases n,
{
    if n == 0 {
        false
    } else {
        closed_line_upto(p, o, s, d, (n - 1) as nat) || closed_line(p, o, s, d, n)
    }
}

/// A closed line of length 1 is an opponent stone next to a player stone.
pub proof fn lemma_closed_line_one(p: u64, o: u64, s: int, d: int)
    ensures
        closed_line(p, o, s, d, 1) == (occupied(o, s) && occupied(p, step(s, d))),
        closed_line_upto(p, o, s, d, 1) == closed_line(p, o, s, d, 1),
{
    assert(ray(s, d, 0) == s);
    assert(ray(s, d, 1) == step(s, d));
    if occupied(o, s) && occupied(p, step(s, d)) {
        assert forall|i: nat| i < 1 implies #[trigger] occupied(o, ray(s, d, i)) by {
            assert(i == 0);
        }
    }
    assert(closed_line_upto(p, o, s, d, 0) == false);
}

/// A closed line one longer is an opponent stone followed by a closed line.
pub proof fn lemma_closed_line_succ(p: u64, o: u64, s: int, d: int, k: nat)
    requires
        k >= 1,
    ensures
        closed_line(p, o, s, d, k + 1) == (occupied(o, s) && closed_line(p, o, step(s, d), d, k)),
{
    assert(ray(s, d, 0) == s);
    assert forall|i: nat| #![auto] ray(step(s, d), d, i) == ray(s, d, i + 1) by {
        lemma_ray_shift(s, d, i);
    }
    if closed_line(p, o, s, d, k + 1) {
        assert(occupied(o, ray(s, d, 0)));
        assert forall|i: nat| i < k implies #[trigger] occupied(o, ray(step(s, d), d, i)) by {
            assert(occupied(o, ray(s, d, i + 1)));
        }
    }
    if occupied(o, s) && closed_line(p, o, step(s, d), d, k) {
        assert forall|i: nat| i < k + 1 implies #[trigger] occupied(o, ray(s, d, i)) by {
            if i > 0 {
                assert(occupied(o, ray(step(s, d), d, (i - 1) as nat)));
            }
        }
    }
}

/// One more round of extending lines by a step: a line of length up to `n + 1`
/// is a line of length up to `n`, or an opponent stone followed by one.
pub proof fn lemma_closed_line_upto_succ(p: u64, o: u64, s: int, d: int, n: nat)
    requires
        n >= 1,
    ensures
        closed_line_upto(p, o, s, d, n + 1) == (closed_line_upto(p, o, s, d, n) || (occupied(o, s)
            && closed_line_upto(p, o, step(s, d), d, n))),
    decreases n,
{
    lemma_closed_line_succ(p, o, s, d, n);
    if n == 1 {
        assert(closed_line_upto(p, o, step(s, d), d, 0) == false);
    } else {
        lemma_closed_line_upto_succ(p, o, s, d, (n - 1) as nat);
    }
}

/// `closed_line_upto` says that some closed line of length at most `n` exists.
pub proof fn lemma_closed_line_upto_exists(p: u64, o: u64, s: int, d: int, n: nat)
    ensures
        closed_line_upto(p, o, s, d, n) == exists|k: nat| 1 <= k <= n && #[trigger] closed_line(
            p,
            o,
            s,
            d,
            k,
        ),
    decreases n,
{
    if n > 0 {
        lemma_closed_line_upto_exists(p, o, s, d, (n - 1) as nat);
        if exists|k: nat| 1 <= k <= n && #[trigger] closed_line(p, o, s, d, k) {
            let k = choose|k: nat| 1 <= k <= n && #[trigger] closed_line(p, o, s, d, k);
            if k < n {
                assert(1 <= k <= n - 1 && closed_line(p, o, s, d, k));
            }
        }
    }
}

/// A placement on `m` encloses stones in direction `d` exactly when a closed
/// line of length at most 7 starts next to `m` in that direction.
pub proof fn lemma_captures_as_lines(p: u64, o: u64, m: int, d: int)
    requires
        on_board(m),
        is_direction(d),
    ensures
        captures_in_direction(p, o, m, d) == closed_line_upto(p, o, step(m, d), d, 7),
{
    lemma_closed_line_upto_exists(p, o, step(m, d), d, 7);
    assert forall|i: nat| #![auto] ray(step(m, d), d, i) == ray(m, d, i + 1) by {
        lemma_ray_shift(m, d, i);
    }
    if captures_in_direction(p, o, m, d) {
        let k = choose|k: nat| brackets(p, o, m, d, k);
        assert forall|i: nat| i < k implies #[trigger] occupied(o, ray(step(m, d), d, i)) by {
            assert(occupied(o, ray(m, d, i + 1)));
        }
        assert(occupied(p, ray(m, d, k + 1)));
        lemma_ray_length(m, d, k + 1);
        assert(closed_line(p, o, step(m, d), d, k));
    }
    if closed_line_upto(p, o, step(m, d), d, 7) {
        let k = choose|k: nat| 1 <= k <= 7 && #[trigger] closed_line(p, o, step(m, d), d, k);
        assert forall|j: nat| 1 <= j <= k implies #[trigger] occupied(o, ray(m, d, j)) by {
            assert(occupied(o, ray(step(m, d), d, (j - 1) as nat)));
        }
        assert(brackets(p, o, m, d, k));
    }
}

/// No closed line starts off the board.
pub proof fn lemma_closed_line_upto_off_board(p: u64, o: u64, s: int, d: int, n: nat)
    requires
        !on_board(s),
    ensures
        !closed_line_upto(p, o, s, d, n),
    decreases n,
{
    assert(ray(s, d, 0) == s);
    if n > 0 {
        lemma_closed_line_upto_off_board(p, o, s, d, (n - 1) as nat);
        if closed_line(p, o, s, d, n) {
            assert(occupied(o, ray(s, d, 0)));
        }
    }
}

} // verus!
