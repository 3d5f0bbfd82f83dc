//! The record of a played game: its moves and its final score, and the
//! training samples taken from it.
use crate::bitboard::{initial_black, initial_white};
use crate::dataset::ReversiSample;
use crate::game::{after_move, Game};
use crate::player::Player;
use crate::position::Position;
use vstd::prelude::*;

verus! {

/// A played game.
#[derive(Debug)]
pub struct GameRecord {
    /// The moves as square indices (0..64); any other value is the pass.
    pub moves: Vec<u8>,
    /// The final score as (black stones, white stones).
    pub final_score: (u8, u8),
}

impl Clone for GameRecord {
    /// A copy of the record.
    fn clone(&self) -> (r: Self)
        ensures
            r.moves@ == self.moves@,
            r.final_score == self.final_score,
    {
        GameRecord { moves: self.moves.clone(), final_score: self.final_score }
    }
}

impl Default for GameRecord {
    /// No moves and a score of 0 to 0.
    fn default() -> (r: Self)
        ensures
            r.moves@ == Seq::<u8>::empty(),
            r.final_score == (0u8, 0u8),
    {
        GameRecord { moves: Vec::new(), final_score: (0, 0) }
    }
}

/// The value of byte `x` read as a signed byte.
pub open spec fn signed_byte(x: u8) -> int {
    if x < 128 {
        x as int
    } else {
        x - 256
    }
}

/// The square that the recorded move `m` names: 64 (the pass) for values
/// from 64 on.
pub open spec fn move_square(m: u8) -> int {
    if m < 64 {
        m as int
    } else {
        64
    }
}

/// The board and the player to move after the first `k` recorded moves are
/// tried in turn from the initial position; illegal moves change nothing.
pub open spec fn replay(moves: Seq<u8>, k: nat) -> ((u64, u64), Player)
    decreases k,
{
    if k == 0 {
        ((initial_black(), initial_white()), Player::Black)
    } else {
        let s = replay(moves, (k - 1) as nat);
        after_move(s.0, s.1, move_square(moves[k - 1]))
    }
}

/// Reading a byte as signed gives the value of `signed_byte`.
fn signed(x: u8) -> (r: i8)
    ensures
        r as int == signed_byte(x),
{
    let r = x as i8;
    assert(r as int == if x < 128 {
        x as int
    } else {
        x - 256
    }) by (bit_vector)
        requires
            r == x as i8,
    ;
    r
}

impl GameRecord {
    /// The label of every sample of the game: the final score difference,
    /// black minus white, each score read as a signed byte.
    pub open spec fn label(self) -> int {
        signed_byte(self.final_score.0) - signed_byte(self.final_score.1)
    }

    /// Replays the game from the initial position and takes one sample
    /// after each move: the board after the move, labelled with the final
    /// score difference. A move that is not legal leaves the board as it is.
    pub fn to_samples(&self) -> (r: Vec<ReversiSample>)
        requires
            -128 <= self.label() <= 127,
        ensures
            r@.len() == self.moves@.len(),
            forall|k: int|
                0 <= k < r@.len() ==> {
                    let s = replay(self.moves@, (k + 1) as nat);
                    &&& #[trigger] r@[k].black_bits == s.0.0
                    &&& r@[k].white_bits == s.0.1
                    &&& r@[k].stone_diff == self.label()
                },
    {
        let mut game = Game::default();
        let mut samples: Vec<ReversiSample> = Vec::new();
        let stone_diff = signed(self.final_score.0) - signed(self.final_score.1);
        let mut i: usize = 0;
        while i < self.moves.len()
            invariant
                i <= self.moves@.len(),
                stone_diff == self.label(),
                (game.board(), game.player()) == replay(self.moves@, i as nat),
                samples@.len() == i,
                forall|k: int|
                    0 <= k < i ==> {
                        let s = replay(self.moves@, (k + 1) as nat);
                        &&& #[trigger] samples@[k].black_bits == s.0.0
                        &&& samples@[k].white_bits == s.0.1
                        &&& samples@[k].stone_diff == stone_diff
                    },
            decreases self.moves@.len() - i,
        {
            let pos = Position::from_u8(self.moves[i]);
            let _ = game.apply_move(pos);
            let board = game.board_state();
            let (black_bits, white_bits) = board.bits();
            samples.push(ReversiSample { black_bits, white_bits, stone_diff });
            i += 1;
        }
        samples
    }
}

} // verus!
