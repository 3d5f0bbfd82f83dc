//! The rules of the game turn with the board: a move is legal on a board
//! exactly when the turned move is legal on the turned board.
use crate::bitboard::{legal_mask, stones_of};
use crate::feature::turned_board;
use crate::player::Player;
use crate::bits::{bit_set, lemma_bits_ext, lemma_mask_where_bit};
use crate::coordinate::rotated_90_cw;
use crate::geometry::{is_direction, on_board, ray, step};
use crate::rules::{brackets, captures_in_direction, is_legal_move, occupied, run_of};
use crate::utils::{cw_source, lemma_rotated_cw_bit, lemma_sources_inverse, rotated_cw};
use vstd::prelude::*;

verus! {

/// The square that `s` lands on when the board turns a quarter clockwise;
/// off the board (-1) stays off the board.
pub open spec fn turned_square(s: int) -> int {
    if on_board(s) {
        rotated_90_cw(s)
    } else {
        -1
    }
}

/// The direction that `d` becomes when the board turns a quarter clockwise:
/// a step of (row, column) becomes a step of (column, -row).
pub open spec fn turned_direction(d: int) -> int {
    if d == 0 {
        2
    } else if d == 1 {
        3
    } else if d == 2 {
        1
    } else if d == 3 {
        0
    } else if d == 4 {
        5
    } else if d == 5 {
        6
    } else if d == 6 {
        7
    } else {
        4
    }
}

/// The direction that becomes `d` when the board turns a quarter clockwise.
pub open spec fn unturned_direction(d: int) -> int {
    if d == 2 {
        0
    } else if d == 3 {
        1
    } else if d == 1 {
        2
    } else if d == 0 {
        3
    } else if d == 5 {
        4
    } else if d == 6 {
        5
    } else if d == 7 {
        6
    } else {
        7
    }
}

/// Row and column of a square written as `a * 8 + b`.
proof fn lemma_row_col(a: int, b: int)
    requires
        0 <= b < 8,
    ensures
        (a * 8 + b) / 8 == a,
        (a * 8 + b) % 8 == b,
{
    vstd::arithmetic::div_mod::lemma_fundamental_div_mod_converse(a * 8 + b, 8, a, b);
}

/// A step on the turned board in the turned direction lands on the turned
/// square of the step on the board.
proof fn lemma_step_turned(s: int, d: int)
    requires
        is_direction(d),
    ensures
        step(turned_square(s), turned_direction(d)) == turned_square(step(s, d)),
{
    if on_board(s) {
        let r = s / 8;
        let c = s % 8;
        lemma_row_col(r, c);
        assert(s == r * 8 + c);
        lemma_row_col(c, 7 - r);
        let t = turned_square(s);
        assert(t == c * 8 + (7 - r));
        assert(t / 8 == c && t % 8 == 7 - r);
        let n = step(s, d);
        if n != -1 {
            lemma_row_col(r + crate::geometry::dir_row(d), c + crate::geometry::dir_col(d));
            lemma_row_col(
                c + crate::geometry::dir_col(d),
                7 - (r + crate::geometry::dir_row(d)),
            );
        }
    }
}

/// Rays turn with the board.
proof fn lemma_ray_turned(m: int, d: int, k: nat)
    requires
        is_direction(d),
    ensures
        ray(turned_square(m), turned_direction(d), k) == turned_square(ray(m, d, k)),
    decreases k,
{
    if k > 0 {
        lemma_ray_turned(m, d, (k - 1) as nat);
        lemma_step_turned(ray(m, d, (k - 1) as nat), d);
    }
}

/// A square holds a stone on the turned board exactly when the square it
/// came from holds one on the board.
proof fn lemma_occupied_turned(x: u64, s: int)
    ensures
        occupied(rotated_cw(x), turned_square(s)) == occupied(x, s),
{
    if on_board(s) {
        lemma_sources_inverse(s);
        let t = turned_square(s);
        assert(cw_source(t) == s);
        lemma_rotated_cw_bit(x, t as u64);
    }
}

/// Capturing in a direction turns with the board.
proof fn lemma_captures_turned(p: u64, o: u64, m: int, d: int)
    requires
        is_direction(d),
    ensures
        captures_in_direction(rotated_cw(p), rotated_cw(o), turned_square(m), turned_direction(d))
            == captures_in_direction(p, o, m, d),
{
    let rp = rotated_cw(p);
    let ro = rotated_cw(o);
    let tm = turned_square(m);
    let td = turned_direction(d);
    assert forall|k: nat| #[trigger] brackets(rp, ro, tm, td, k) == brackets(p, o, m, d, k) by {
        assert forall|j: nat| 1 <= j <= k + 1 implies #[trigger] occupied(ro, ray(tm, td, j))
            == occupied(o, ray(m, d, j)) && occupied(rp, ray(tm, td, j)) == occupied(
            p,
            ray(m, d, j),
        ) by {
            lemma_ray_turned(m, d, j);
            lemma_occupied_turned(o, ray(m, d, j));
            lemma_occupied_turned(p, ray(m, d, j));
        }
        lemma_ray_turned(m, d, k + 1);
        lemma_occupied_turned(p, ray(m, d, k + 1));
        assert(run_of(ro, tm, td, k) == run_of(o, m, d, k)) by {
            if run_of(o, m, d, k) {
                assert forall|j: nat| 1 <= j <= k implies #[trigger] occupied(
                    ro,
                    ray(tm, td, j),
                ) by {
                    assert(occupied(o, ray(m, d, j)));
                }
            }
            if run_of(ro, tm, td, k) {
                assert forall|j: nat| 1 <= j <= k implies #[trigger] occupied(o, ray(m, d, j)) by {
                    assert(occupied(ro, ray(tm, td, j)));
                }
            }
        }
    }
    if captures_in_direction(p, o, m, d) {
        let k = choose|k: nat| brackets(p, o, m, d, k);
        assert(brackets(rp, ro, tm, td, k));
    }
    if captures_in_direction(rp, ro, tm, td) {
        let k = choose|k: nat| brackets(rp, ro, tm, td, k);
        assert(brackets(p, o, m, d, k));
    }
}

/// A move is legal on a board exactly when the square it lands on when the
/// board turns a quarter clockwise is legal on the turned board.
pub proof fn lemma_legal_move_turned(p: u64, o: u64, m: int)
    ensures
        is_legal_move(rotated_cw(p), rotated_cw(o), turned_square(m)) == is_legal_move(p, o, m),
{
    let rp = rotated_cw(p);
    let ro = rotated_cw(o);
    let tm = turned_square(m);
    lemma_occupied_turned(p, m);
    lemma_occupied_turned(o, m);
    if on_board(m) {
        lemma_sources_inverse(m);
    }
    if is_legal_move(p, o, m) {
        let d = choose|d: int| is_direction(d) && captures_in_direction(p, o, m, d);
        lemma_captures_turned(p, o, m, d);
        assert(is_direction(turned_direction(d)) && captures_in_direction(
            rp,
            ro,
            tm,
            turned_direction(d),
        ));
    }
    if is_legal_move(rp, ro, tm) {
        let e = choose|e: int| is_direction(e) && captures_in_direction(rp, ro, tm, e);
        let d = unturned_direction(e);
        assert(turned_direction(d) == e);
        lemma_captures_turned(p, o, m, d);
        assert(is_direction(d) && captures_in_direction(p, o, m, d));
    }
}

/// The legal moves turn with the board: the mask of legal moves on the
/// board turned a quarter clockwise is the mask of legal moves turned a
/// quarter clockwise.
pub proof fn lemma_legal_mask_turned(p: u64, o: u64)
    ensures
        legal_mask(rotated_cw(p), rotated_cw(o)) == rotated_cw(legal_mask(p, o)),
{
    let rp = rotated_cw(p);
    let ro = rotated_cw(o);
    assert forall|t: u64| t < 64 implies #[trigger] bit_set(legal_mask(rp, ro), t) == bit_set(
        rotated_cw(legal_mask(p, o)),
        t,
    ) by {
        lemma_mask_where_bit(|s: int| is_legal_move(rp, ro, s), t);
        lemma_rotated_cw_bit(legal_mask(p, o), t);
        let s = cw_source(t as int);
        lemma_sources_inverse(t as int);
        lemma_mask_where_bit(|s: int| is_legal_move(p, o, s), s as u64);
        lemma_legal_move_turned(p, o, s);
        assert(turned_square(s) == t);
    }
    lemma_bits_ext(legal_mask(rp, ro), rotated_cw(legal_mask(p, o)));
}

/// The legal moves of either player turn with the board, and swapping the
/// colors of all stones swaps the players' legal moves.
pub proof fn lemma_board_moves_turn_and_swap(v: (u64, u64), player: Player)
    ensures
        legal_mask(
            stones_of(turned_board(v), player),
            stones_of(turned_board(v), player.spec_opponent()),
        ) == rotated_cw(legal_mask(stones_of(v, player), stones_of(v, player.spec_opponent()))),
        legal_mask(stones_of((v.1, v.0), Player::Black), stones_of((v.1, v.0), Player::White))
            == legal_mask(stones_of(v, Player::White), stones_of(v, Player::Black)),
{
    lemma_legal_mask_turned(stones_of(v, player), stones_of(v, player.spec_opponent()));
}

} // verus!
