//! The flow of a game: whose turn it is, the moves played, and the result.
use crate::bitboard::{
    game_over, legal_squares, lemma_legal_squares_contains, placed, stones_of, Bitboard,
};
use crate::bits::popcount;
use crate::player::Player;
use crate::position::{lemma_position_bit_injective, Position};
use crate::rules::is_legal_move;
use vstd::prelude::*;

verus! {

/// The board and the player to move after the player to move tries square
/// `m`: the stones flip and the turn passes to the opponent, or stays where
/// the opponent then has no legal move; an illegal move changes nothing.
pub open spec fn after_move(board: (u64, u64), player: Player, m: int) -> ((u64, u64), Player) {
    let opp = player.spec_opponent();
    if is_legal_move(stones_of(board, player), stones_of(board, opp), m) {
        let b = placed(board, player, m);
        (b, if legal_squares(stones_of(b, opp), stones_of(b, player)).len() > 0 {
            opp
        } else {
            player
        })
    } else {
        (board, player)
    }
}

/// After a legal move the turn never rests with a player who must pass while
/// the other can move: either the game is over or the player to move has a
/// legal move.
pub proof fn lemma_after_move_playable(board: (u64, u64), player: Player, m: int)
    requires
        is_legal_move(stones_of(board, player), stones_of(board, player.spec_opponent()), m),
    ensures
        ({
            let s = after_move(board, player, m);
            game_over(s.0) || legal_squares(
                stones_of(s.0, s.1),
                stones_of(s.0, s.1.spec_opponent()),
            ).len() > 0
        }),
{
}

/// The state of an Othello game.
#[derive(Debug)]
pub struct Game {
    /// Current game board.
    board: Bitboard,
    /// Current player (Black or White).
    current_player: Player,
    /// History of moves.
    moves: Vec<Position>,
}

impl Default for Game {
    /// Creates a new game in its default initial state.
    fn default() -> (r: Self)
        ensures
            r.board() == (crate::bitboard::initial_black(), crate::bitboard::initial_white()),
            r.player() == Player::Black,
            r.played() == Seq::<int>::empty(),
    {
        Self { board: Bitboard::default(), current_player: Player::Black, moves: Vec::new() }
    }
}

impl Game {
    /// The masks (black, white) of the board.
    pub closed spec fn board(self) -> (u64, u64) {
        self.board@
    }

    /// The player to move.
    pub closed spec fn player(self) -> Player {
        self.current_player
    }

    /// The squares played so far, in order.
    pub closed spec fn played(self) -> Seq<int> {
        self.moves@.map_values(|q: Position| q@)
    }

    /// The stones of the player to move.
    pub open spec fn mover_stones(self) -> u64 {
        stones_of(self.board(), self.player())
    }

    /// The stones of the player waiting.
    pub open spec fn waiting_stones(self) -> u64 {
        stones_of(self.board(), self.player().spec_opponent())
    }

    /// Creates a new game with the specified board state and current player.
    pub fn new(board: Bitboard, current_player: Player) -> (r: Self)
        ensures
            r.board() == board@,
            r.player() == current_player,
            r.played() == Seq::<int>::empty(),
    {
        Self { board, current_player, moves: Vec::new() }
    }

    /// Returns the current player.
    pub fn current_player(&self) -> (r: Player)
        ensures
            r == self.player(),
    {
        self.current_player
    }

    /// Gets the legal moves of the current player, in increasing order of square.
    pub fn valid_moves(&self) -> (r: Vec<Position>)
        ensures
            r@.map_values(|q: Position| q@) == legal_squares(self.mover_stones(), self.waiting_stones()),
    {
        self.board.valid_moves(self.current_player)
    }

    /// Checks if a move at the specified position is legal for the current player.
    pub fn is_valid_move(&self, position: Position) -> (r: bool)
        ensures
            r == is_legal_move(self.mover_stones(), self.waiting_stones(), position@),
    {
        let moves = self.valid_moves();
        let target = position.to_bit();
        let ghost views = moves@.map_values(|q: Position| q@);
        proof {
            lemma_legal_squares_contains(self.mover_stones(), self.waiting_stones(), position@);
        }
        let mut i: usize = 0;
        while i < moves.len()
            invariant
                i <= moves.len(),
                views == moves@.map_values(|q: Position| q@),
                views == legal_squares(self.mover_stones(), self.waiting_stones()),
                legal_squares(self.mover_stones(), self.waiting_stones()).contains(position@)
                    == is_legal_move(self.mover_stones(), self.waiting_stones(), position@),
                target == crate::position::position_bit(position@),
                0 <= position@ <= 64,
                forall|k: int| 0 <= k < i ==> views[k] != position@,
            decreases moves.len() - i,
        {
            let b = moves[i].to_bit();
            if b == target {
                proof {
                    lemma_position_bit_injective(moves@[i as int]@, position@);
                    assert(views[i as int] == position@);
                    assert(views.contains(position@));
                }
                return true;
            }
            assert(views[i as int] != position@);
            i += 1;
        }
        proof {
            if views.contains(position@) {
                let k = choose|k: int| 0 <= k < views.len() && views[k] == position@;
            }
        }
        false
    }

    /// Applies the move of the current player at `position` and passes the
    /// turn: to the opponent when the opponent then has a legal move, and
    /// otherwise back to the player who moved.
    pub fn apply_move(&mut self, position: Position) -> (r: Result<(), &'static str>)
        ensures
            r is Ok <==> is_legal_move(old(self).mover_stones(), old(self).waiting_stones(), position@),
            (final(self).board(), final(self).player()) == after_move(
                old(self).board(),
                old(self).player(),
                position@,
            ),
            r is Err ==> r == Err::<(), &'static str>("Invalid move") && final(self).board() == old(
                self,
            ).board() && final(self).player() == old(self).player() && final(self).played()
                == old(self).played(),
            r is Ok ==> ({
                let b = placed(old(self).board(), old(self).player(), position@);
                let opp = old(self).player().spec_opponent();
                &&& final(self).board() == b
                &&& final(self).played() == old(self).played().push(position@)
                &&& final(self).player() == if legal_squares(
                    stones_of(b, opp),
                    stones_of(b, old(self).player()),
                ).len() > 0 {
                    opp
                } else {
                    old(self).player()
                }
            }),
    {
        if !self.is_valid_move(position) {
            return Err("Invalid move");
        }
        if let Err(e) = self.board.apply_move(position, self.current_player) {
            return Err(e);
        }
        let ghost old_moves = self.moves@;
        self.moves.push(position);
        proof {
            assert(self.moves@.map_values(|q: Position| q@) =~= old_moves.map_values(
                |q: Position| q@,
            ).push(position@));
        }
        self.switch_turn();

        if self.valid_moves().len() == 0 {
            self.switch_turn();
        }

        Ok(())
    }

    /// Checks if the game is over: neither player has a legal move.
    pub fn is_game_over(&self) -> (r: bool)
        ensures
            r == game_over(self.board()),
    {
        self.board.is_game_over()
    }

    /// Determines the winner of a finished game: the player with more
    /// stones, or `None` for a draw.
    pub fn winner(&self) -> (r: Result<Option<Player>, &'static str>)
        ensures
            !game_over(self.board()) ==> r == Err::<Option<Player>, &'static str>(
                "Game is not over yet",
            ),
            game_over(self.board()) ==> r == Ok::<Option<Player>, &'static str>(
                if popcount(self.board().0) > popcount(self.board().1) {
                    Some(Player::Black)
                } else if popcount(self.board().1) > popcount(self.board().0) {
                    Some(Player::White)
                } else {
                    None
                },
            ),
    {
        if !self.is_game_over() {
            return Err("Game is not over yet");
        }
        let (black_count, white_count) = self.board.count_stones();
        if black_count > white_count {
            Ok(Some(Player::Black))
        } else if white_count > black_count {
            Ok(Some(Player::White))
        } else {
            Ok(None)
        }
    }

    /// Gets the current score: (number of black stones, number of white stones).
    pub fn current_score(&self) -> (r: (usize, usize))
        ensures
            r.0 == popcount(self.board().0),
            r.1 == popcount(self.board().1),
    {
        self.board.count_stones()
    }

    /// Returns the current state of the board.
    pub fn board_state(&self) -> (r: &Bitboard)
        ensures
            r@ == self.board(),
    {
        &self.board
    }

    /// Returns the history of moves.
    pub fn history(&self) -> (r: &Vec<Position>)
        ensures
            r@.map_values(|q: Position| q@) == self.played(),
    {
        &self.moves
    }

    /// Switches the turn to the other player.
    fn switch_turn(&mut self)
        ensures
            final(self).player() == old(self).player().spec_opponent(),
            final(self).board() == old(self).board(),
            final(self).played() == old(self).played(),
    {
        self.current_player = self.current_player.opponent();
    }
}

} // verus!
