//! The interface of a board representation.
use crate::player::Player;
use crate::position::Position;
use vstd::prelude::*;

verus! {

/// A board representation that a game can be played on.
pub trait Board: Clone + Default + Eq + PartialEq {
    /// The black mask and the white mask.
    fn bits(&self) -> (u64, u64);

    /// The legal moves of `player`.
    fn valid_moves(&self, player: Player) -> Vec<Position>;

    /// The numbers of black and white stones.
    fn count_stones(&self) -> (usize, usize);

    /// Whether neither player has a legal move.
    fn is_game_over(&self) -> bool;

    /// Plays `position` for `player`.
    fn apply_move(&mut self, position: Position, player: Player) -> Result<(), &'static str>;

    /// A hash of the position.
    fn get_hash(&self) -> u64;
}

} // verus!
