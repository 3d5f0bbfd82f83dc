//! The geometry of the 8x8 board: squares, the eight directions, and rays.
//!
//! Square `s` (0..64) lies in row `s / 8` and column `s % 8`. The value -1
//! stands for "off the board".
use vstd::prelude::*;

verus! {

/// Whether `s` names a square of the board.
pub open spec fn on_board(s: int) -> bool {
    0 <= s < 64
}

/// Whether `d` names one of the eight directions.
///
/// The directions are numbered in the order in which the board scans them:
/// right, left, down, up, down-right, down-left, up-left, up-right
/// ("down" goes towards higher rows).
pub open spec fn is_direction(d: int) -> bool {
    0 <= d < 8
}

/// The change of row when stepping in direction `d`.
pub open spec fn dir_row(d: int) -> int {
    if d == 2 || d == 4 || d == 5 {
        1
    } else if d == 3 || d == 6 || d == 7 {
        -1
    } else {
        0
    }
}

/// The change of column when stepping in direction `d`.
pub open spec fn dir_col(d: int) -> int {
    if d == 0 || d == 4 || d == 7 {
        1
    } else if d == 1 || d == 5 || d == 6 {
        -1
    } else {
        0
    }
}

/// The direction opposite to `d`.
pub open spec fn opposite(d: int) -> int {
    if d == 0 {
        1
    } else if d == 1 {
        0
    } else if d == 2 {
        3
    } else if d == 3 {
        2
    } else if d == 4 {
        6
    } else if d == 6 {
        4
    } else if d == 5 {
        7
    } else {
        5
    }
}

/// The neighbour of square `s` in direction `d`, or -1 when there is none.
pub open spec fn step(s: int, d: int) -> int {
    if on_board(s) && 0 <= s / 8 + dir_row(d) < 8 && 0 <= s % 8 + dir_col(d) < 8 {
        (s / 8 + dir_row(d)) * 8 + s % 8 + dir_col(d)
    } else {
        -1
    }
}

/// The square `k` steps away from `s` in direction `d`, or -1 when the ray
/// leaves the board.
pub open spec fn ray(s: int, d: int, k: nat) -> int
    decreases k,
{
    if k == 0 {
        s
    } else {
        step(ray(s, d, (k - 1) as nat), d)
    }
}

/// `k` times the row change of direction `d`.
pub open spec fn rows_moved(d: int, k: int) -> int {
    if dir_row(d) == 1 {
        k
    } else if dir_row(d) == -1 {
        -k
    } else {
        0
    }
}

/// `k` times the column change of direction `d`.
pub open spec fn cols_moved(d: int, k: int) -> int {
    if dir_col(d) == 1 {
        k
    } else if dir_col(d) == -1 {
        -k
    } else {
        0
    }
}

/// Stepping once more along a ray is the same as starting the ray one square
/// further on.
pub proof fn lemma_ray_shift(s: int, d: int, k: nat)
    ensures
        ray(step(s, d), d, k) == ray(s, d, k + 1),
    decreases k,
{
    if k > 0 {
        lemma_ray_shift(s, d, (k - 1) as nat);
    } else {
        assert(ray(s, d, 0) == s);
    }
}

/// A square on a ray lies `k` rows and columns (signed by the direction) from
/// the start.
pub proof fn lemma_ray_coords(s: int, d: int, k: nat)
    requires
        on_board(ray(s, d, k)),
    ensures
        on_board(s),
        ray(s, d, k) / 8 == s / 8 + rows_moved(d, k as int),
        ray(s, d, k) % 8 == s % 8 + cols_moved(d, k as int),
    decreases k,
{
    if k > 0 {
        let prev = ray(s, d, (k - 1) as nat);
        assert(on_board(prev));
        lemma_ray_coords(s, d, (k - 1) as nat);
    }
}

/// A ray of a direction stays on the board for at most 7 steps.
pub proof fn lemma_ray_length(s: int, d: int, k: nat)
    requires
        is_direction(d),
        on_board(ray(s, d, k)),
    ensures
        k <= 7,
{
    lemma_ray_coords(s, d, k);
}

/// Every square before an on-board square of a ray is on the board.
pub proof fn lemma_ray_prefix(s: int, d: int, i: nat, k: nat)
    requires
        i <= k,
        on_board(ray(s, d, k)),
    ensures
        on_board(ray(s, d, i)),
    decreases k - i,
{
    if i < k {
        lemma_ray_prefix(s, d, i + 1, k);
    }
}

/// Stepping back against a direction undoes a step in it.
pub proof fn lemma_step_inverse(s: int, t: int, d: int)
    requires
        is_direction(d),
        on_board(s),
        on_board(t),
    ensures
        (step(s, d) == t) == (step(t, opposite(d)) == s),
{
}

/// `opposite` is a permutation of the directions that undoes itself.
pub proof fn lemma_opposite(d: int)
    requires
        is_direction(d),
    ensures
        is_direction(opposite(d)),
        opposite(opposite(d)) == d,
        dir_row(opposite(d)) == -dir_row(d),
        dir_col(opposite(d)) == -dir_col(d),
{
}

} // verus!
