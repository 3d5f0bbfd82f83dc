//! The board: one mask of black stones and one of white stones.
use crate::bits::{bit_set, group_bits, mask_where, popcount, square_bit};
use crate::geometry::{is_direction, lemma_opposite, lemma_step_inverse, on_board, opposite, ray, step};
use crate::player::Player;
use crate::position::{row_char, Position};
use vstd::std_specs::bits::{axiom_u64_trailing_zeros, u64_trailing_zeros};
use crate::position::position_bit;
use crate::rules::{
    brackets, captures_in_direction, closed_line_upto, is_flipped, is_legal_move, run_of, lemma_captures_as_lines,
    lemma_closed_line_one, lemma_closed_line_upto_off_board, lemma_closed_line_upto_succ,
    lemma_shift_dir_bit, masked_shift, occupied, shift_amount, shift_mask, shift_dir,
};
use vstd::prelude::*;
use vstd::string::StringExecFns;

verus! {

/// The stones of `player` on a board with masks `v` (black, white).
pub open spec fn stones_of(v: (u64, u64), player: Player) -> u64 {
    match player {
        Player::Black => v.0,
        Player::White => v.1,
    }
}

/// The squares below `n` that satisfy `f`, in increasing order.
pub open spec fn squares_below(f: spec_fn(int) -> bool, n: nat) -> Seq<int>
    decreases n,
{
    if n == 0 {
        Seq::empty()
    } else {
        let before = squares_below(f, (n - 1) as nat);
        if f(n - 1) {
            before.push(n - 1)
        } else {
            before
        }
    }
}

/// The squares of mask `mask`, in increasing order.
pub open spec fn mask_squares(mask: u64) -> Seq<int> {
    squares_below(|i: int| bit_set(mask, i as u64), 64)
}

/// The legal moves of the player with stones `p` against stones `o`, in
/// increasing order of square.
pub open spec fn legal_squares(p: u64, o: u64) -> Seq<int> {
    squares_below(|i: int| is_legal_move(p, o, i), 64)
}

/// Squares that fail `f` add nothing to `squares_below`.
pub proof fn lemma_squares_below_skip(f: spec_fn(int) -> bool, lo: nat, n: nat)
    requires
        lo <= n,
        forall|i: int| lo <= i < n ==> !#[trigger] f(i),
    ensures
        squares_below(f, n) == squares_below(f, lo),
    decreases n - lo,
{
    if lo < n {
        lemma_squares_below_skip(f, lo, (n - 1) as nat);
    }
}

/// Predicates that agree below `n` select the same squares below `n`.
pub proof fn lemma_squares_below_congruent(f: spec_fn(int) -> bool, g: spec_fn(int) -> bool, n: nat)
    requires
        forall|i: int| 0 <= i < n ==> #[trigger] f(i) == g(i),
    ensures
        squares_below(f, n) == squares_below(g, n),
    decreases n,
{
    if n > 0 {
        lemma_squares_below_congruent(f, g, (n - 1) as nat);
        assert(f(n - 1) == g(n - 1));
    }
}

/// The mask of the stones turned over when the player with stones `p`
/// places on `m` against stones `o`.
pub open spec fn flip_mask(p: u64, o: u64, m: int) -> u64 {
    mask_where(|t: int| is_flipped(p, o, m, t))
}

/// The masks `v` (black, white) after `player` places on `m`: the player
/// gains `m` and the turned stones, the opponent loses the turned stones.
pub open spec fn placed(v: (u64, u64), player: Player, m: int) -> (u64, u64) {
    let p = stones_of(v, player);
    let o = stones_of(v, player.spec_opponent());
    let f = flip_mask(p, o, m);
    let np = p | position_bit(m) | f;
    let no = o & !f;
    match player {
        Player::Black => (np, no),
        Player::White => (no, np),
    }
}

/// The mask of the legal moves of the player with stones `p` against `o`.
pub open spec fn legal_mask(p: u64, o: u64) -> u64 {
    mask_where(|t: int| is_legal_move(p, o, t))
}

/// Neither player has a legal move on a board with masks `v`.
pub open spec fn game_over(v: (u64, u64)) -> bool {
    legal_squares(v.0, v.1).len() == 0 && legal_squares(v.1, v.0).len() == 0
}

/// The text of square `s` on a board with masks `v`: "B " for a black
/// stone, "W " for a white stone, ". " for an empty square.
pub open spec fn cell_text(v: (u64, u64), s: int) -> Seq<char> {
    if bit_set(v.0, s as u64) {
        seq!['B', ' ']
    } else if bit_set(v.1, s as u64) {
        seq!['W', ' ']
    } else {
        seq!['.', ' ']
    }
}

/// The texts of the first `k` squares of row `r`.
pub open spec fn cells_text(v: (u64, u64), r: int, k: nat) -> Seq<char>
    decreases k,
{
    if k == 0 {
        Seq::empty()
    } else {
        cells_text(v, r, (k - 1) as nat) + cell_text(v, r * 8 + k - 1)
    }
}

/// The board as text: a line of column letters, then the first `n` rows,
/// each its number, a space, its squares, and a line break.
pub open spec fn rows_text(v: (u64, u64), n: nat) -> Seq<char>
    decreases n,
{
    if n == 0 {
        seq![' ', ' ', 'A', ' ', 'B', ' ', 'C', ' ', 'D', ' ', 'E', ' ', 'F', ' ', 'G', ' ', 'H', '\n']
    } else {
        rows_text(v, (n - 1) as nat) + seq![crate::position::row_char(n - 1), ' '] + cells_text(
            v,
            n - 1,
            8,
        ) + seq!['\n']
    }
}

proof fn lemma_cells_text(v: (u64, u64), r: int, k: nat)
    ensures
        cells_text(v, r, k).len() == 2 * k,
        forall|c: int|
            0 <= c < k ==> #[trigger] cells_text(v, r, k)[2 * c] == cell_text(v, r * 8 + c)[0]
                && cells_text(v, r, k)[2 * c + 1] == ' ',
    decreases k,
{
    if k > 0 {
        lemma_cells_text(v, r, (k - 1) as nat);
        let prev = cells_text(v, r, (k - 1) as nat);
        assert forall|c: int| 0 <= c < k implies #[trigger] cells_text(v, r, k)[2 * c] == cell_text(
            v,
            r * 8 + c,
        )[0] && cells_text(v, r, k)[2 * c + 1] == ' ' by {
            if c < k - 1 {
                assert(cells_text(v, r, k)[2 * c] == prev[2 * c]);
                assert(cells_text(v, r, k)[2 * c + 1] == prev[2 * c + 1]);
            }
        }
    }
}

proof fn lemma_rows_text(v: (u64, u64), n: nat)
    requires
        n <= 8,
    ensures
        rows_text(v, n).len() == 18 + 19 * n,
        forall|r: int, c: int|
            0 <= r < n && 0 <= c < 8 ==> #[trigger] rows_text(v, n)[18 + r * 19 + 2 + 2 * c]
                == cell_text(v, r * 8 + c)[0],
        forall|r: int| 0 <= r < n ==> #[trigger] rows_text(v, n)[18 + r * 19] == row_char(r),
    decreases n,
{
    if n > 0 {
        let m = (n - 1) as nat;
        lemma_rows_text(v, m);
        lemma_cells_text(v, m as int, 8);
        let prev = rows_text(v, m);
        assert forall|r: int, c: int|
            0 <= r < n && 0 <= c < 8 implies #[trigger] rows_text(v, n)[18 + r * 19 + 2 + 2 * c]
            == cell_text(v, r * 8 + c)[0] by {
            if r < m {
                assert(rows_text(v, n)[18 + r * 19 + 2 + 2 * c] == prev[18 + r * 19 + 2 + 2 * c]);
            } else {
                assert(rows_text(v, n)[18 + r * 19 + 2 + 2 * c] == cells_text(v, m as int, 8)[2
                    * c]);
            }
        }
        assert forall|r: int| 0 <= r < n implies #[trigger] rows_text(v, n)[18 + r * 19]
            == row_char(r) by {
            if r < m {
                assert(rows_text(v, n)[18 + r * 19] == prev[18 + r * 19]);
            }
        }
    }
}

/// The board text lays the squares out row by row: it is 170 characters
/// long, line `r + 1` (after the header of 18 characters) starts with the row
/// number, and square `r * 8 + c` is printed at row `r`, column `c` as "B"
/// for a black stone, "W" for a white stone and "." for an empty square.
pub proof fn lemma_board_text_layout(v: (u64, u64), r: int, c: int)
    requires
        0 <= r < 8,
        0 <= c < 8,
    ensures
        rows_text(v, 8).len() == 170,
        rows_text(v, 8)[18 + r * 19] == (49 + r) as char,
        rows_text(v, 8)[18 + r * 19 + 2 + 2 * c] == if bit_set(v.0, (r * 8 + c) as u64) {
            'B'
        } else if bit_set(v.1, (r * 8 + c) as u64) {
            'W'
        } else {
            '.'
        },
{
    lemma_rows_text(v, 8);
    assert(rows_text(v, 8)[18 + r * 19 + 2 + 2 * c] == cell_text(v, r * 8 + c)[0]);
    assert(rows_text(v, 8)[18 + r * 19] == row_char(r));
}

/// A Reversi board.
#[derive(Debug, Clone)]
pub struct Bitboard {
    black: u64,
    white: u64,
}

impl View for Bitboard {
    type V = (u64, u64);

    /// The black mask and the white mask.
    closed spec fn view(&self) -> (u64, u64) {
        (self.black, self.white)
    }
}

/// The black stones of the initial position: D5 and E4.
pub open spec fn initial_black() -> u64 {
    square_bit(35) | square_bit(28)
}

/// The white stones of the initial position: D4 and E5.
pub open spec fn initial_white() -> u64 {
    square_bit(27) | square_bit(36)
}

impl Default for Bitboard {
    /// Creates a new game board in the default initial state.
    fn default() -> (r: Self)
        ensures
            r@ == (initial_black(), initial_white()),
    {
        assert(0x0000000810000000u64 == (1u64 << 35u64) | (1u64 << 28u64)) by (bit_vector);
        assert(0x0000001008000000u64 == (1u64 << 27u64) | (1u64 << 36u64)) by (bit_vector);
        Self { black: 0x0000000810000000, white: 0x0000001008000000 }
    }
}

impl Bitboard {
    /// Creates a new Bitboard with the specified black and white stone positions.
    pub fn new(black: u64, white: u64) -> (r: Self)
        ensures
            r@ == (black, white),
    {
        Self { black, white }
    }

    /// The board as text: a header of column letters, then one line per row
    /// with the row number and "B", "W" or "." for each square.
    pub fn to_string(&self) -> (r: String)
        ensures
            r@ == rows_text(self@, 8),
    {
        let mut text = String::from_str("  A B C D E F G H\n");
        proof {
            reveal_strlit("  A B C D E F G H\n");
        }
        let mut row: usize = 0;
        while row < 8
            invariant
                row <= 8,
                text@ == rows_text(self@, row as nat),
            decreases 8 - row,
        {
            text.append(crate::position::row_str(row));
            text.append(" ");
            proof {
                reveal_strlit(" ");
            }
            let ghost before = text@;
            let mut col: usize = 0;
            while col < 8
                invariant
                    row < 8,
                    col <= 8,
                    text@ == before + cells_text(self@, row as int, col as nat),
                decreases 8 - col,
            {
                let k = (row * 8 + col) as u64;
                if (self.black >> k) & 1 == 1 {
                    text.append("B ");
                    proof {
                        reveal_strlit("B ");
                    }
                } else if (self.white >> k) & 1 == 1 {
                    text.append("W ");
                    proof {
                        reveal_strlit("W ");
                    }
                } else {
                    text.append(". ");
                    proof {
                        reveal_strlit(". ");
                    }
                }
                proof {
                    assert(row as int * 8 + (col + 1) - 1 == k as int);
                }
                col += 1;
            }
            text.append("\n");
            proof {
                reveal_strlit("\n");
            }
            row += 1;
        }
        text
    }

    /// Returns the current state of the bitboard as a tuple of black and white positions.
    pub fn bits(&self) -> (r: (u64, u64))
        ensures
            r == self@,
    {
        (self.black, self.white)
    }

    /// Counts the number of stones for both black and white players.
    pub fn count_stones(&self) -> (r: (usize, usize))
        ensures
            r.0 == popcount(self@.0),
            r.1 == popcount(self@.1),
    {
        (crate::bits::count_ones(self.black) as usize, crate::bits::count_ones(self.white) as usize)
    }

    /// The shift amount and wrap mask of direction `d`, in the order right,
    /// left, down, up, down-right, down-left, up-left, up-right.
    fn direction(d: usize) -> (r: (i32, u64))
        requires
            d < 8,
        ensures
            r.0 as int == shift_amount(d as int),
            r.1 == shift_mask(d as int),
    {
        match d {
            0 => (1, 0xfefefefefefefefe),
            1 => (-1, 0x7f7f7f7f7f7f7f7f),
            2 => (8, 0xffffffffffffff00),
            3 => (-8, 0x00ffffffffffffff),
            4 => (9, 0xfefefefefefefe00),
            5 => (7, 0x7f7f7f7f7f7f7f00),
            6 => (-9, 0x007f7f7f7f7f7f7f),
            _ => (-7, 0x00fefefefefefefe),
        }
    }

    /// Shifts `bits` by `shift_amount` (left when positive) and applies `mask`
    /// to clear the squares that would wrap around the board.
    fn safe_shift(bits: u64, shift_amount: i32, mask: u64) -> (r: u64)
        requires
            -64 < shift_amount < 64,
        ensures
            r == masked_shift(bits, shift_amount as int, mask),
    {
        let shifted = if shift_amount > 0 {
            bits << (shift_amount as u64)
        } else {
            bits >> ((-shift_amount) as u64)
        };
        shifted & mask
    }

    /// Converts a mask to the list of its positions, in increasing order of
    /// square.
    pub fn bitmask_to_positions(&self, bitmask: u64) -> (r: Vec<Position>)
        ensures
            r@.map_values(|q: Position| q@) == mask_squares(bitmask),
    {
        broadcast use group_bits;

        let ghost f = |i: int| bit_set(bitmask, i as u64);
        let mut positions: Vec<Position> = Vec::new();
        let mut bits = bitmask;
        let ghost mut lo: nat = 0;
        while bits != 0
            invariant
                lo <= 64,
                f == (|i: int| bit_set(bitmask, i as u64)),
                forall|i: u64| i < 64 ==> #[trigger] bit_set(bits, i) == (bit_set(bitmask, i) && i >= lo),
                positions@.map_values(|q: Position| q@) == squares_below(f, lo),
            decreases 64 - lo,
        {
            let ghost t = u64_trailing_zeros(bits) as u64;
            proof {
                axiom_u64_trailing_zeros(bits);
                assert(t < 64);
                assert forall|j: u64| j < t implies !#[trigger] bit_set(bits, j) by {}
                assert(bit_set(bits, t));
                assert forall|i: int| lo <= i < t implies !#[trigger] f(i) by {
                    let j = i as u64;
                    assert(j < t);
                    assert(!bit_set(bits, j));
                    assert(!bit_set(bitmask, j));
                    assert(f(i) == bit_set(bitmask, j));
                }
                lemma_squares_below_skip(f, lo, t as nat);
                crate::bits::lemma_popcount_square_bit(t);
            }
            assert(!bits < 0xffff_ffff_ffff_ffffu64) by (bit_vector)
                requires
                    bits != 0,
            ;
            let neg = !bits + 1;
            let lsb = bits & neg;
            proof {
                crate::bits::lemma_lowest_bit(bits, neg, (bits - 1) as u64, t);
            }
            let ghost old_positions = positions@;
            if let Ok(position) = Position::from_bit(lsb) {
                proof {
                    crate::position::lemma_index_of_square(t as int);
                    crate::position::lemma_position_bit_injective(position@, t as int);
                }
                positions.push(position);
            }
            let ghost old_bits = bits;
            bits &= bits - 1;
            proof {
                assert(positions@.map_values(|q: Position| q@) =~= old_positions.map_values(
                    |q: Position| q@,
                ).push(t as int));
                assert(f(t as int));
                let old_lo = lo;
                lo = (t + 1) as nat;
                assert forall|i: u64| i < 64 implies #[trigger] bit_set(bits, i) == (bit_set(
                    bitmask,
                    i,
                ) && i >= lo) by {
                    crate::bits::lemma_bit_xor(old_bits, square_bit(t), i);
                    crate::bits::lemma_square_bit(t, i);
                    if old_lo <= i < t {
                        assert(!f(i as int));
                    }
                }
            }
        }
        proof {
            assert forall|i: int| lo <= i < 64 implies !#[trigger] f(i) by {
                assert(!bit_set(bits, i as u64));
            }
            lemma_squares_below_skip(f, lo, 64);
        }
        positions
    }

    /// Returns the legal moves of `player`, in increasing order of square.
    pub fn valid_moves(&self, player: Player) -> (r: Vec<Position>)
        ensures
            r@.map_values(|q: Position| q@) == legal_squares(
                stones_of(self@, player),
                stones_of(self@, player.spec_opponent()),
            ),
    {
        let bitmask = self.valid_moves_bitmask(player);
        let r = self.bitmask_to_positions(bitmask);
        proof {
            let p = stones_of(self@, player);
            let o = stones_of(self@, player.spec_opponent());
            lemma_squares_below_congruent(
                |i: int| bit_set(bitmask, i as u64),
                |i: int| is_legal_move(p, o, i),
                64,
            );
        }
        r
    }

    /// Checks if the game is over: neither player has a legal move.
    pub fn is_game_over(&self) -> (r: bool)
        ensures
            r == game_over(self@),
    {
        self.valid_moves(Player::Black).len() == 0 && self.valid_moves(Player::White).len() == 0
    }

    /// Places a stone of `player` on `position` and turns over the enclosed
    /// opponent stones.
    ///
    /// Fails, leaving the board as it was, when the square is already
    /// occupied, or when the placement encloses no opponent stones (which
    /// includes the pass).
    pub fn apply_move(&mut self, position: Position, player: Player) -> (r: Result<(), &'static str>)
        ensures
            ({
                let p = stones_of(old(self)@, player);
                let o = stones_of(old(self)@, player.spec_opponent());
                let m = position@;
                &&& (occupied(p, m) || occupied(o, m)) ==> r == Err::<(), &'static str>(
                    "Invalid move: position is already occupied",
                )
                &&& !(occupied(p, m) || occupied(o, m)) && !is_legal_move(p, o, m) ==> r == Err::<
                    (),
                    &'static str,
                >("Invalid move: no stones to flip")
                &&& r is Ok <==> is_legal_move(p, o, m)
                &&& r is Err ==> final(self)@ == old(self)@
                &&& r is Ok ==> final(self)@ == placed(old(self)@, player, m)
            }),
    {
        broadcast use group_bits;

        let move_bit = position.to_bit();
        let ghost m = position@;
        proof {
            lemma_position_bit_occupied(m, m);
            assert forall|t: u64| t < 64 implies #[trigger] bit_set(move_bit, t) == (t as int == m) by {
                lemma_position_bit_occupied(m, t as int);
            }
        }

        // Check if the position is already occupied.
        if self.black & move_bit != 0 || self.white & move_bit != 0 {
            proof {
                if m < 64 {
                    assert(bit_set(move_bit, m as u64));
                    if self.black & move_bit != 0 {
                        let t = crate::bits::lemma_nonzero_has_bit(self.black & move_bit);
                    } else {
                        let t = crate::bits::lemma_nonzero_has_bit(self.white & move_bit);
                    }
                } else {
                    assert(move_bit == 0);
                    assert(self.black & 0u64 == 0 && self.white & 0u64 == 0) by (bit_vector);
                }
            }
            return Err("Invalid move: position is already occupied");
        }
        proof {
            if m < 64 {
                assert(!bit_set(self.black & move_bit, m as u64));
                assert(!bit_set(self.white & move_bit, m as u64));
            }
        }

        let (player_bits, opponent_bits) = match player {
            Player::Black => (self.black, self.white),
            Player::White => (self.white, self.black),
        };

        // Calculate the stones to flip for the move.
        let flips = Self::get_flips_bits(move_bit, player_bits, opponent_bits);

        // If no stones can be flipped, the move is invalid.
        if flips == 0 {
            proof {
                lemma_flips_nonzero_iff_legal(player_bits, opponent_bits, m, flips);
            }
            return Err("Invalid move: no stones to flip");
        }
        proof {
            lemma_flips_nonzero_iff_legal(player_bits, opponent_bits, m, flips);
            crate::bits::lemma_mask_where_ext(
                |t: int| is_flipped(player_bits, opponent_bits, m, t),
                flips,
            );
        }

        // Update the board with the move.
        let new_player = player_bits | move_bit | flips;
        let new_opponent = opponent_bits & !flips;
        match player {
            Player::Black => {
                self.black = new_player;
                self.white = new_opponent;
            },
            Player::White => {
                self.white = new_player;
                self.black = new_opponent;
            },
        }
        Ok(())
    }

    /// Calculates the legal moves of `player` as a mask: bit `t` is set
    /// exactly when placing on square `t` is a legal move.
    pub fn valid_moves_bitmask(&self, player: Player) -> (r: u64)
        ensures
            forall|t: u64|
                t < 64 ==> (bit_set(r, t) <==> is_legal_move(
                    stones_of(self@, player),
                    stones_of(self@, player.spec_opponent()),
                    t as int,
                )),
            r == legal_mask(stones_of(self@, player), stones_of(self@, player.spec_opponent())),
    {
        broadcast use group_bits;

        let (player_bits, opponent_bits) = match player {
            Player::Black => (self.black, self.white),
            Player::White => (self.white, self.black),
        };
        let ghost p = player_bits;
        let ghost o = opponent_bits;
        let empty = !(player_bits | opponent_bits);
        let mut valid_moves = 0u64;

        for d in 0..8
            invariant
                p == player_bits,
                o == opponent_bits,
                empty == !(player_bits | opponent_bits),
                forall|t: u64|
                    t < 64 ==> (bit_set(valid_moves, t) <==> (bit_set(empty, t) && exists|d2: int|
                        0 <= d2 < d && #[trigger] captures_in_direction(
                            p,
                            o,
                            t as int,
                            opposite(d2),
                        ))),
        {
            let (shift_amount, mask) = Self::direction(d);
            let ghost e = opposite(d as int);
            proof {
                lemma_opposite(d as int);
            }
            let first = Self::safe_shift(player_bits, shift_amount, mask);
            assert(first == shift_dir(p, d as int));
            let mut tmp = first & opponent_bits;
            proof {
                assert forall|t: u64| t < 64 implies #[trigger] bit_set(tmp, t)
                    == closed_line_upto(p, o, t as int, e, 1) by {
                    lemma_shift_dir_bit(p, d as int, t);
                    crate::bits::lemma_bit_and(first, o, t);
                    lemma_closed_line_one(p, o, t as int, e);
                }
            }
            for i in 0..6
                invariant
                    p == player_bits,
                    o == opponent_bits,
                    d < 8,
                    e == opposite(d as int),
                    is_direction(e),
                    shift_amount as int == crate::rules::shift_amount(d as int),
                    mask == shift_mask(d as int),
                    forall|t: u64|
                        t < 64 ==> #[trigger] bit_set(tmp, t) == closed_line_upto(
                            p,
                            o,
                            t as int,
                            e,
                            (i + 1) as nat,
                        ),
            {
                let shifted = Self::safe_shift(tmp, shift_amount, mask);
                assert(shifted == shift_dir(tmp, d as int));
                let ghost old_tmp = tmp;
                tmp |= shifted & opponent_bits;
                proof {
                    assert forall|t: u64| t < 64 implies #[trigger] bit_set(tmp, t)
                        == closed_line_upto(p, o, t as int, e, (i + 2) as nat) by {
                        lemma_shift_dir_bit(old_tmp, d as int, t);
                        crate::bits::lemma_bit_and(shifted, o, t);
                        crate::bits::lemma_bit_or(old_tmp, shifted & o, t);
                        let s = step(t as int, e);
                        if on_board(s) {
                            assert(bit_set(old_tmp, s as u64) == closed_line_upto(
                                p,
                                o,
                                s,
                                e,
                                (i + 1) as nat,
                            ));
                        } else {
                            lemma_closed_line_upto_off_board(p, o, s, e, (i + 1) as nat);
                        }
                        lemma_closed_line_upto_succ(p, o, t as int, e, (i + 1) as nat);
                    }
                }
            }
            let ghost old_valid = valid_moves;
            let reach = Self::safe_shift(tmp, shift_amount, mask);
            assert(reach == shift_dir(tmp, d as int));
            valid_moves |= reach & empty;
            proof {
                assert forall|t: u64| t < 64 implies (bit_set(valid_moves, t) <==> (bit_set(
                    empty,
                    t,
                ) && exists|d2: int|
                    0 <= d2 < d + 1 && #[trigger] captures_in_direction(
                        p,
                        o,
                        t as int,
                        opposite(d2),
                    ))) by {
                    lemma_shift_dir_bit(tmp, d as int, t);
                    crate::bits::lemma_bit_and(reach, empty, t);
                    crate::bits::lemma_bit_or(old_valid, reach & empty, t);
                    let s = step(t as int, e);
                    if on_board(s) {
                        assert(bit_set(tmp, s as u64) == closed_line_upto(p, o, s, e, 7));
                    } else {
                        lemma_closed_line_upto_off_board(p, o, s, e, 7);
                    }
                    lemma_captures_as_lines(p, o, t as int, e);
                    if captures_in_direction(p, o, t as int, opposite(d as int)) {
                        assert(0 <= d < d + 1);
                    }
                    if exists|d2: int|
                        0 <= d2 < d + 1 && #[trigger] captures_in_direction(
                            p,
                            o,
                            t as int,
                            opposite(d2),
                        ) {
                        let d2 = choose|d2: int|
                            0 <= d2 < d + 1 && #[trigger] captures_in_direction(
                                p,
                                o,
                                t as int,
                                opposite(d2),
                            );
                        if d2 < d {
                            assert(exists|d3: int|
                                0 <= d3 < d && #[trigger] captures_in_direction(
                                    p,
                                    o,
                                    t as int,
                                    opposite(d3),
                                ));
                        }
                    }
                }
            }
        }
        proof {
            assert forall|t: u64| t < 64 implies (bit_set(valid_moves, t) <==> is_legal_move(
                p,
                o,
                t as int,
            )) by {
                if exists|e: int| is_direction(e) && captures_in_direction(p, o, t as int, e) {
                    let e = choose|e: int| is_direction(e) && captures_in_direction(p, o, t as int, e);
                    lemma_opposite(e);
                    assert(0 <= opposite(e) < 8 && captures_in_direction(
                        p,
                        o,
                        t as int,
                        opposite(opposite(e)),
                    ));
                }
                if exists|d2: int|
                    0 <= d2 < 8 && #[trigger] captures_in_direction(p, o, t as int, opposite(d2)) {
                    let d2 = choose|d2: int|
                        0 <= d2 < 8 && #[trigger] captures_in_direction(
                            p,
                            o,
                            t as int,
                            opposite(d2),
                        );
                    lemma_opposite(d2);
                }
            }
        }
        proof {
            crate::bits::lemma_mask_where_ext(|t: int| is_legal_move(p, o, t), valid_moves);
        }
        valid_moves
    }

    /// Calculates the stones that would be flipped if `move_bit` were placed
    /// by the player with stones `player_bits` against `opponent_bits`.
    ///
    /// For the mask of one square `m` (or 0, the pass, written `m == 64`), bit
    /// `t` of the result is set exactly when square `t` is turned over.
    pub fn get_flips_bits(move_bit: u64, player_bits: u64, opponent_bits: u64) -> (r: u64)
        ensures
            forall|m: int, t: u64|
                0 <= m <= 64 && move_bit == position_bit(m) && t < 64 ==> (bit_set(r, t)
                    <==> is_flipped(player_bits, opponent_bits, m, t as int)),
    {
        broadcast use group_bits;

        let ghost p = player_bits;
        let ghost o = opponent_bits;
        let ghost single = exists|m: int| 0 <= m <= 64 && move_bit == position_bit(m);
        let ghost m = choose|m: int| 0 <= m <= 64 && move_bit == position_bit(m);
        let mut flips = 0u64;

        for d in 0..8
            invariant
                p == player_bits,
                o == opponent_bits,
                single ==> 0 <= m <= 64 && move_bit == position_bit(m),
                single ==> forall|t: u64|
                    t < 64 ==> (bit_set(flips, t) <==> exists|d2: int, i: nat|
                        #![trigger ray(m, d2, i), captures_in_direction(p, o, m, d2)]
                        0 <= d2 < d && 1 <= i && run_of(o, m, d2, i) && ray(m, d2, i) == t as int
                            && captures_in_direction(p, o, m, d2)),
        {
            let (shift_amount, mask) = Self::direction(d);
            let ghost e = opposite(d as int);
            proof {
                lemma_opposite(d as int);
            }
            let mut tmp_flips = 0u64;
            let first = Self::safe_shift(move_bit, shift_amount, mask);
            assert(first == shift_dir(move_bit, d as int));
            let mut tmp = first & opponent_bits;
            let ghost mut j: nat = 1;
            proof {
                assert forall|t: u64| t < 64 implies (#[trigger] bit_set(tmp, t) ==> on_board(
                    ray(t as int, e, 1),
                )) && (single ==> (bit_set(tmp, t) <==> (t as int == ray(m, d as int, 1)
                    && run_of(o, m, d as int, 1)))) by {
                    lemma_shift_dir_bit(move_bit, d as int, t);
                    crate::bits::lemma_bit_and(first, o, t);
                    assert(ray(t as int, e, 0) == t as int);
                    assert(ray(t as int, e, 1) == step(t as int, e));
                    if single {
                        lemma_run_of_succ(o, m, d as int, 0);
                        assert(ray(m, d as int, 1) == step(ray(m, d as int, 0), d as int));
                        assert(ray(m, d as int, 0) == m);
                        lemma_position_bit_occupied(m, step(t as int, e));
                        if m < 64 && on_board(step(t as int, e)) {
                            lemma_step_inverse(m, t as int, d as int);
                        }
                    }
                }
                assert forall|t: u64| t < 64 implies !#[trigger] bit_set(tmp_flips, t) by {
                    crate::bits::lemma_bit_zero(t);
                }
            }
            while tmp != 0
                invariant
                    p == player_bits,
                    o == opponent_bits,
                    d < 8,
                    e == opposite(d as int),
                    is_direction(e),
                    shift_amount as int == crate::rules::shift_amount(d as int),
                    mask == shift_mask(d as int),
                    j >= 1,
                    single ==> 0 <= m <= 64 && move_bit == position_bit(m),
                    forall|t: u64|
                        t < 64 ==> (#[trigger] bit_set(tmp, t) ==> on_board(ray(t as int, e, j))),
                    single ==> forall|t: u64|
                        t < 64 ==> (#[trigger] bit_set(tmp, t) <==> (t as int == ray(m, d as int, j)
                            && run_of(o, m, d as int, j))),
                    single ==> run_of(o, m, d as int, (j - 1) as nat),
                    single ==> forall|t: u64|
                        t < 64 ==> (#[trigger] bit_set(tmp_flips, t) <==> exists|i: nat|
                            1 <= i < j && run_of(o, m, d as int, i) && #[trigger] ray(
                                m,
                                d as int,
                                i,
                            ) == t as int),
                decreases 8 - j,
            {
                proof {
                    let t0 = crate::bits::lemma_nonzero_has_bit(tmp);
                    crate::geometry::lemma_ray_length(t0 as int, e, j);
                }
                let ghost old_tmp = tmp;
                let ghost old_flips = tmp_flips;
                tmp_flips |= tmp;
                let shifted = Self::safe_shift(tmp, shift_amount, mask);
                assert(shifted == shift_dir(old_tmp, d as int));
                tmp = shifted & opponent_bits;
                proof {
                    assert forall|t: u64| t < 64 implies (#[trigger] bit_set(tmp, t) ==> on_board(
                        ray(t as int, e, j + 1),
                    )) by {
                        lemma_shift_dir_bit(old_tmp, d as int, t);
                        crate::bits::lemma_bit_and(shifted, o, t);
                        if bit_set(tmp, t) {
                            let s = step(t as int, e);
                            assert(bit_set(old_tmp, s as u64));
                            crate::geometry::lemma_ray_shift(t as int, e, j);
                        }
                    }
                    if single {
                        lemma_run_of_succ(o, m, d as int, j);
                        assert forall|t: u64| t < 64 implies (#[trigger] bit_set(tmp, t) <==> (t as int
                            == ray(m, d as int, j + 1) && run_of(o, m, d as int, j + 1))) by {
                            lemma_shift_dir_bit(old_tmp, d as int, t);
                            crate::bits::lemma_bit_and(shifted, o, t);
                            let s = step(t as int, e);
                            let rj = ray(m, d as int, j);
                            assert(ray(m, d as int, j + 1) == step(rj, d as int));
                            if run_of(o, m, d as int, j) {
                                assert(occupied(o, ray(m, d as int, j)));
                                if on_board(s) {
                                    lemma_step_inverse(rj, t as int, d as int);
                                    assert(bit_set(old_tmp, s as u64) == (s == rj));
                                }
                            } else {
                                if on_board(s) {
                                    assert(!bit_set(old_tmp, s as u64));
                                }
                            }
                        }
                        assert forall|t: u64| t < 64 implies (#[trigger] bit_set(tmp_flips, t)
                            <==> exists|i: nat|
                            1 <= i < j + 1 && run_of(o, m, d as int, i) && #[trigger] ray(
                                m,
                                d as int,
                                i,
                            ) == t as int) by {
                            crate::bits::lemma_bit_or(old_flips, old_tmp, t);
                            if bit_set(old_tmp, t) {
                                assert(1 <= j < j + 1 && run_of(o, m, d as int, j) && ray(
                                    m,
                                    d as int,
                                    j,
                                ) == t as int);
                            }
                            if exists|i: nat|
                                1 <= i < j + 1 && run_of(o, m, d as int, i) && #[trigger] ray(
                                    m,
                                    d as int,
                                    i,
                                ) == t as int {
                                let i = choose|i: nat|
                                    1 <= i < j + 1 && run_of(o, m, d as int, i) && #[trigger] ray(
                                        m,
                                        d as int,
                                        i,
                                    ) == t as int;
                                if i < j {
                                    assert(bit_set(old_flips, t));
                                } else {
                                    assert(bit_set(old_tmp, t));
                                }
                            }
                        }
                    }
                    j = j + 1;
                }
            }
            let closing = Self::safe_shift(tmp_flips, shift_amount, mask);
            assert(closing == shift_dir(tmp_flips, d as int));
            let ghost old_flips = flips;
            let closed = closing & player_bits != 0;
            proof {
                if single {
                    assert(!run_of(o, m, d as int, j)) by {
                        if run_of(o, m, d as int, j) {
                            let rj = ray(m, d as int, j);
                            assert(occupied(o, rj));
                            assert(bit_set(tmp, rj as u64));
                        }
                    }
                    lemma_run_of_monotone(o, m, d as int, j);
                    lemma_closing_detects_capture(p, o, m, d as int, j, tmp_flips, closing);
                }
            }
            if closed {
                flips |= tmp_flips;
            }
            proof {
                if single {
                    assert forall|t: u64| t < 64 implies (bit_set(flips, t) <==> exists|
                        d2: int,
                        i: nat,
                    |
                        #![trigger ray(m, d2, i), captures_in_direction(p, o, m, d2)]
                        0 <= d2 < d + 1 && 1 <= i && run_of(o, m, d2, i) && ray(m, d2, i)
                            == t as int && captures_in_direction(p, o, m, d2)) by {
                        crate::bits::lemma_bit_or(old_flips, tmp_flips, t);
                        if exists|d2: int, i: nat|
                            #![trigger ray(m, d2, i), captures_in_direction(p, o, m, d2)]
                            0 <= d2 < d + 1 && 1 <= i && run_of(o, m, d2, i) && ray(m, d2, i)
                                == t as int && captures_in_direction(p, o, m, d2) {
                            let (d2, i) = choose|d2: int, i: nat|
                                #![trigger ray(m, d2, i), captures_in_direction(p, o, m, d2)]
                                0 <= d2 < d + 1 && 1 <= i && run_of(o, m, d2, i) && ray(m, d2, i)
                                    == t as int && captures_in_direction(p, o, m, d2);
                            if d2 < d {
                                assert(bit_set(old_flips, t));
                            } else {
                                assert(i < j);
                                assert(bit_set(tmp_flips, t));
                            }
                        }
                        if bit_set(tmp_flips, t) && closed {
                            let i = choose|i: nat|
                                1 <= i < j && run_of(o, m, d as int, i) && #[trigger] ray(
                                    m,
                                    d as int,
                                    i,
                                ) == t as int;
                            assert(0 <= d < d + 1 && 1 <= i && run_of(o, m, d as int, i) && ray(
                                m,
                                d as int,
                                i,
                            ) == t as int && captures_in_direction(p, o, m, d as int));
                        }
                    }
                }
            }
        }
        proof {
            assert forall|mm: int, t: u64|
                0 <= mm <= 64 && move_bit == position_bit(mm) && t < 64 implies (bit_set(flips, t)
                <==> is_flipped(player_bits, opponent_bits, mm, t as int)) by {
                crate::position::lemma_position_bit_injective(mm, m);
                if is_flipped(p, o, m, t as int) {
                    let (d2, i) = choose|d2: int, i: nat|
                        #![trigger ray(m, d2, i), captures_in_direction(p, o, m, d2)]
                        is_direction(d2) && 1 <= i && run_of(o, m, d2, i) && ray(m, d2, i)
                            == t as int && captures_in_direction(p, o, m, d2);
                    assert(0 <= d2 < 8);
                }
            }
        }
        flips
    }
}

/// A run one longer is a run followed by one more opponent stone.
proof fn lemma_run_of_succ(o: u64, m: int, d: int, k: nat)
    ensures
        run_of(o, m, d, k + 1) == (run_of(o, m, d, k) && occupied(o, ray(m, d, k + 1))),
{
    if run_of(o, m, d, k) && occupied(o, ray(m, d, k + 1)) {
        assert forall|j: nat| 1 <= j <= k + 1 implies #[trigger] occupied(o, ray(m, d, j)) by {
            if j <= k {
            }
        }
    }
}

/// A run that fails at length `k` fails at every greater length.
proof fn lemma_run_of_monotone(o: u64, m: int, d: int, k: nat)
    requires
        !run_of(o, m, d, k),
    ensures
        forall|i: nat| i >= k ==> !#[trigger] run_of(o, m, d, i),
{
    assert forall|i: nat| i >= k implies !#[trigger] run_of(o, m, d, i) by {
        if run_of(o, m, d, i) {
            assert forall|jj: nat| 1 <= jj <= k implies #[trigger] occupied(o, ray(m, d, jj)) by {
                assert(occupied(o, ray(m, d, jj)));
            }
        }
    }
}

/// The mask of square `m` holds a stone on `s` exactly when `s` is `m`.
proof fn lemma_position_bit_occupied(m: int, s: int)
    requires
        0 <= m <= 64,
    ensures
        occupied(position_bit(m), s) == (m < 64 && s == m),
{
    broadcast use group_bits;

    if on_board(s) && m < 64 {
        assert(bit_set(square_bit(m as u64), s as u64) == (s as u64 == m as u64));
    }
}

/// With the whole run of opponent stones next to `m` collected in `run`,
/// shifting it one more step onto the player's stones finds a stone exactly
/// when the placement encloses the run.
proof fn lemma_closing_detects_capture(
    p: u64,
    o: u64,
    m: int,
    d: int,
    j: nat,
    run: u64,
    closing: u64,
)
    requires
        0 <= m <= 64,
        is_direction(d),
        j >= 1,
        !run_of(o, m, d, j),
        forall|i: nat| i >= j ==> !#[trigger] run_of(o, m, d, i),
        forall|t: u64|
            t < 64 ==> (#[trigger] bit_set(run, t) <==> exists|i: nat|
                1 <= i < j && run_of(o, m, d, i) && #[trigger] ray(m, d, i) == t as int),
        closing == shift_dir(run, d),
    ensures
        (closing & p != 0) == captures_in_direction(p, o, m, d),
{
    broadcast use group_bits;

    let e = opposite(d);
    lemma_opposite(d);
    if closing & p != 0 {
        let t = crate::bits::lemma_nonzero_has_bit(closing & p);
        crate::bits::lemma_bit_and(closing, p, t);
        lemma_shift_dir_bit(run, d, t);
        let s = step(t as int, e);
        assert(bit_set(run, s as u64));
        let i = choose|i: nat| 1 <= i < j && run_of(o, m, d, i) && #[trigger] ray(m, d, i) == s;
        lemma_step_inverse(s, t as int, d);
        assert(ray(m, d, i + 1) == step(ray(m, d, i), d));
        assert(brackets(p, o, m, d, i));
    }
    if captures_in_direction(p, o, m, d) {
        let k = choose|k: nat| brackets(p, o, m, d, k);
        let rk = ray(m, d, k);
        let t = ray(m, d, k + 1);
        assert(t == step(rk, d));
        assert(occupied(o, rk));
        assert(k < j);
        assert(bit_set(run, rk as u64));
        lemma_step_inverse(rk, t, d);
        lemma_shift_dir_bit(run, d, t as u64);
        crate::bits::lemma_bit_and(closing, p, t as u64);
        assert(bit_set(closing & p, t as u64));
    }
}

/// For an empty square `m`, the stones turned over by a placement there are
/// nonzero exactly when the placement is legal.
proof fn lemma_flips_nonzero_iff_legal(p: u64, o: u64, m: int, flips: u64)
    requires
        0 <= m <= 64,
        !occupied(p, m),
        !occupied(o, m),
        forall|t: u64| t < 64 ==> (bit_set(flips, t) <==> is_flipped(p, o, m, t as int)),
    ensures
        (flips != 0) == is_legal_move(p, o, m),
{
    broadcast use group_bits;

    if flips != 0 {
        let t = crate::bits::lemma_nonzero_has_bit(flips);
        assert(is_flipped(p, o, m, t as int));
        let (d, j) = choose|d: int, j: nat|
            #![trigger ray(m, d, j), captures_in_direction(p, o, m, d)]
            is_direction(d) && 1 <= j && run_of(o, m, d, j) && ray(m, d, j) == t as int
                && captures_in_direction(p, o, m, d);
        let k = choose|k: nat| brackets(p, o, m, d, k);
        assert(occupied(o, ray(m, d, 1)));
        assert(ray(m, d, 1) == step(ray(m, d, 0), d));
        assert(on_board(m));
    }
    if is_legal_move(p, o, m) {
        let d = choose|d: int| is_direction(d) && captures_in_direction(p, o, m, d);
        let k = choose|k: nat| brackets(p, o, m, d, k);
        let s = ray(m, d, 1);
        assert(occupied(o, s));
        assert(run_of(o, m, d, 1)) by {
            assert forall|j: nat| 1 <= j <= 1 implies #[trigger] occupied(o, ray(m, d, j)) by {
                assert(j == 1);
            }
        }
        assert(is_flipped(p, o, m, s));
        assert(bit_set(flips, s as u64));
        if flips == 0 {
            crate::bits::lemma_bit_zero(s as u64);
        }
    }
}

/// The empty squares of a board with masks `v`.
pub open spec fn empty_squares(v: (u64, u64)) -> u64 {
    !(v.0 | v.1)
}

/// A turned-over square held an opponent stone.
pub proof fn lemma_flipped_was_opponent(p: u64, o: u64, m: int, t: int)
    requires
        is_flipped(p, o, m, t),
    ensures
        occupied(o, t),
{
    let (d, j) = choose|d: int, j: nat|
        #![trigger ray(m, d, j), captures_in_direction(p, o, m, d)]
        is_direction(d) && 1 <= j && run_of(o, m, d, j) && ray(m, d, j) == t
            && captures_in_direction(p, o, m, d);
    assert(occupied(o, ray(m, d, j)));
}

/// The legal moves listed by `legal_squares` are exactly the legal moves.
/// The initial position is not over: Black may play D3 (square 19), which
/// encloses the white stone on D4 against the black one on D5.
pub proof fn lemma_initial_not_over()
    ensures
        !game_over((initial_black(), initial_white())),
{
    let p = initial_black();
    let o = initial_white();
    assert(bit_set(o, 27) && bit_set(p, 35) && !bit_set(p, 19) && !bit_set(o, 19)) by (bit_vector)
        requires
            p == (1u64 << 35u64) | (1u64 << 28u64),
            o == (1u64 << 27u64) | (1u64 << 36u64),
    ;
    assert(19int / 8 == 2 && 19int % 8 == 3 && 27int / 8 == 3 && 27int % 8 == 3);
    assert(crate::geometry::ray(19, 2, 0) == 19);
    assert(crate::geometry::step(19, 2) == 27);
    assert(crate::geometry::ray(19, 2, 1) == 27);
    assert(crate::geometry::step(27, 2) == 35);
    assert(crate::geometry::ray(19, 2, 2) == 35);
    assert(crate::rules::run_of(o, 19, 2, 1));
    assert(crate::rules::brackets(p, o, 19, 2, 1));
    assert(crate::rules::captures_in_direction(p, o, 19, 2));
    assert(!crate::rules::occupied(p, 19));
    assert(!crate::rules::occupied(o, 19));
    assert(crate::geometry::is_direction(2));
    assert(is_legal_move(p, o, 19));
    lemma_legal_squares_contains(p, o, 19);
}

pub proof fn lemma_legal_squares_contains(p: u64, o: u64, m: int)
    ensures
        legal_squares(p, o).contains(m) == is_legal_move(p, o, m),
{
    lemma_squares_below_contains(|i: int| is_legal_move(p, o, i), 64, m);
}

/// `squares_below(f, n)` holds exactly the squares below `n` that satisfy `f`.
pub proof fn lemma_squares_below_contains(f: spec_fn(int) -> bool, n: nat, m: int)
    ensures
        squares_below(f, n).contains(m) == (0 <= m < n && f(m)),
    decreases n,
{
    if n > 0 {
        lemma_squares_below_contains(f, (n - 1) as nat, m);
        let before = squares_below(f, (n - 1) as nat);
        if f(n - 1) {
            let after = before.push(n - 1);
            if m == n - 1 {
                assert(after[before.len() as int] == m);
            }
            if after.contains(m) {
                let k = choose|k: int| 0 <= k < after.len() && #[trigger] after[k] == m;
                if k < before.len() {
                    assert(before[k] == m);
                }
            }
            if before.contains(m) {
                let k = choose|k: int| 0 <= k < before.len() && #[trigger] before[k] == m;
                assert(after[k] == m);
            }
        }
    }
}

/// A legal move fills exactly one empty square: the one played on. The
/// turned-over stones were opponent stones, so no other square changes from
/// empty to filled or back.
pub proof fn lemma_move_fills_one_square(v: (u64, u64), player: Player, m: int)
    requires
        is_legal_move(stones_of(v, player), stones_of(v, player.spec_opponent()), m),
    ensures
        forall|t: u64|
            t < 64 ==> #[trigger] bit_set(empty_squares(placed(v, player, m)), t) == (bit_set(
                empty_squares(v),
                t,
            ) && t as int != m),
        popcount(empty_squares(placed(v, player, m))) + 1 == popcount(empty_squares(v)),
{
    broadcast use group_bits;

    let p = stones_of(v, player);
    let o = stones_of(v, player.spec_opponent());
    let f = flip_mask(p, o, m);
    let e0 = empty_squares(v);
    let e1 = empty_squares(placed(v, player, m));
    let sq = square_bit(m as u64);
    assert forall|t: u64| t < 64 implies #[trigger] bit_set(e1, t) == (bit_set(e0, t) && t as int
        != m) by {
        crate::bits::lemma_mask_where_bit(|t: int| is_flipped(p, o, m, t), t);
        if is_flipped(p, o, m, t as int) {
            lemma_flipped_was_opponent(p, o, m, t as int);
        }
        lemma_position_bit_occupied(m, t as int);
    }
    assert forall|t: u64| t < 64 implies #[trigger] bit_set(e1, t) == bit_set(e0 & !sq, t) by {
        assert(bit_set(sq, t) == (t as int == m));
    }
    crate::bits::lemma_popcount_below_congruent(e1, e0 & !sq, 64);
    assert forall|t: u64| t < 64 implies (#[trigger] bit_set(sq, t) ==> bit_set(e0, t)) by {}
    crate::bits::lemma_popcount_below_remove(e0, sq, 64);
    crate::bits::lemma_popcount_square_bit(m as u64);
}

/// On a board whose masks do not overlap, a legal move keeps them apart,
/// adds one stone in all, and moves the turned stones from the opponent's
/// count to the player's, together with the stone played.
pub proof fn lemma_move_counts(v: (u64, u64), player: Player, m: int)
    requires
        v.0 & v.1 == 0,
        is_legal_move(stones_of(v, player), stones_of(v, player.spec_opponent()), m),
    ensures
        ({
            let p = stones_of(v, player);
            let o = stones_of(v, player.spec_opponent());
            let w = placed(v, player, m);
            let f = popcount(flip_mask(p, o, m));
            &&& w.0 & w.1 == 0
            &&& f >= 1
            &&& popcount(stones_of(w, player)) == popcount(p) + 1 + f
            &&& popcount(stones_of(w, player.spec_opponent())) + f == popcount(o)
            &&& popcount(w.0) + popcount(w.1) == popcount(v.0) + popcount(v.1) + 1
        }),
{
    broadcast use group_bits;

    let p = stones_of(v, player);
    let o = stones_of(v, player.spec_opponent());
    let f = flip_mask(p, o, m);
    let w = placed(v, player, m);
    let sq = square_bit(m as u64);
    let np = stones_of(w, player);
    let no = stones_of(w, player.spec_opponent());
    assert(p & o == 0) by {
        if player == Player::White {
            crate::bits::lemma_and_comm(v.1, v.0);
        }
    }
    assert forall|t: u64| t < 64 implies !(#[trigger] bit_set(p, t) && bit_set(o, t)) by {
        assert(bit_set(p & o, t) == (bit_set(p, t) && bit_set(o, t)));
    }
    assert forall|t: u64| t < 64 implies #[trigger] bit_set(f, t) == is_flipped(p, o, m, t as int)
        by {
        crate::bits::lemma_mask_where_bit(|t: int| is_flipped(p, o, m, t), t);
    }
    assert forall|t: u64| t < 64 implies (#[trigger] bit_set(f, t) ==> bit_set(o, t)) by {
        if is_flipped(p, o, m, t as int) {
            lemma_flipped_was_opponent(p, o, m, t as int);
        }
    }
    assert(position_bit(m) == sq);
    assert forall|t: u64| t < 64 implies #[trigger] bit_set(sq, t) == (t as int == m) by {}
    // The three parts of the player's new mask are pairwise disjoint.
    crate::bits::lemma_popcount_below_disjoint_union(p, sq, 64);
    assert forall|t: u64| t < 64 implies !(#[trigger] bit_set(p | sq, t) && bit_set(f, t)) by {}
    crate::bits::lemma_popcount_below_disjoint_union(p | sq, f, 64);
    crate::bits::lemma_popcount_below_remove(o, f, 64);
    crate::bits::lemma_popcount_square_bit(m as u64);
    assert(np == p | sq | f);
    assert(no == o & !f);
    // The new masks do not overlap.
    assert forall|t: u64| t < 64 implies !#[trigger] bit_set(np & no, t) by {}
    crate::bits::lemma_no_bits_zero(np & no);
    assert(w.0 & w.1 == 0) by {
        if player == Player::White {
            crate::bits::lemma_and_comm(no, np);
        }
    }
    // A legal move turns at least one stone.
    let d = choose|d: int| is_direction(d) && captures_in_direction(p, o, m, d);
    let k = choose|k: nat| brackets(p, o, m, d, k);
    let s = ray(m, d, 1);
    assert(run_of(o, m, d, 1)) by {
        assert forall|j: nat| 1 <= j <= 1 implies #[trigger] occupied(o, ray(m, d, j)) by {
            assert(j == 1);
        }
    }
    assert(occupied(o, s));
    assert(is_flipped(p, o, m, s));
    assert(bit_set(f, s as u64));
    crate::bits::lemma_popcount_below_zero(f, 64);
}

} // verus!
