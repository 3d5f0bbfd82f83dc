//! The two players.
use vstd::prelude::*;

verus! {

/// A player: Black moves first.
#[derive(Debug, Clone, Copy, Default, PartialEq, Eq, Hash, Structural)]
pub enum Player {
    #[default]
    Black,
    White,
}

impl Player {
    /// The other player.
    pub open spec fn spec_opponent(self) -> Player {
        match self {
            Player::Black => Player::White,
            Player::White => Player::Black,
        }
    }

    /// Returns the other player.
    pub fn opponent(&self) -> (r: Player)
        ensures
            r == self.spec_opponent(),
    {
        match self {
            Player::Black => Player::White,
            Player::White => Player::Black,
        }
    }

    /// Taking the opponent twice gives the player back, and no player is its
    /// own opponent.
    pub proof fn lemma_opponent_involution(self)
        ensures
            self.spec_opponent().spec_opponent() == self,
            self.spec_opponent() != self,
    {
    }
}

} // verus!
