//! The main game loop, driving two players until the game ends.
use crate::bitboard::{
    empty_squares, game_over, initial_black, initial_white, lemma_initial_not_over,
    lemma_move_fills_one_square, stones_of,
};
use crate::self_play::{legal_line, lemma_replay_squares_prefix, replay_squares};
use crate::game::after_move;
use crate::rules::is_legal_move;
use crate::bits::popcount;
use crate::game::Game;
use crate::player::Player;
use crate::position::Position;
use vstd::prelude::*;
use vstd::string::StringExecFns;

verus! {

/// Something that chooses moves: a person at a terminal, or a search.
pub trait GamePlayer {
    /// The side this player plays: `Some` of a color for a player that moves
    /// for that color only, `None` for one that may move for either color.
    spec fn side(&self) -> Option<Player>;

    /// The square this player picks in the game with board `board`, `player`
    /// to move and the squares `played` so far, where its pick is a function
    /// of the game; `None` where it is not (a player that draws at random, or
    /// one that says nothing of its picks).
    closed spec fn choice(&self, board: (u64, u64), player: Player, played: Seq<int>) -> Option<
        int,
    > {
        None
    }

    /// Chooses the next move in `game` for the player to move; the player is
    /// only asked when the color to move is one it plays. Where its pick is a
    /// function of the game, it picks that square.
    fn select_move(&mut self, game: &Game) -> (r: Position)
        requires
            old(self).side() is None || old(self).side() == Some(game.player()),
        ensures
            final(self).side() == old(self).side(),
            forall|b: (u64, u64), p: Player, h: Seq<int>|
                #[trigger] final(self).choice(b, p, h) == old(self).choice(b, p, h),
            old(self).choice(game.board(), game.player(), game.played()) matches Some(i) ==> r@
                == i,
    ;
}

/// The picks of a player as a function of the board, the player to move and
/// the squares played.
pub open spec fn choices_of<P: GamePlayer>(player: P) -> spec_fn((u64, u64), Player, Seq<int>) -> Option<int> {
    |b: (u64, u64), p: Player, h: Seq<int>| player.choice(b, p, h)
}

/// The game that players with picks `black` and `white` play from board
/// `board`, `player` to move and squares `played`: `Ok` of the board at the
/// end when every move is legal until the game is over, `Err` of the first
/// square that is not a legal move, and `None` where a player's pick is not
/// known.
pub open spec fn game_run(
    black: spec_fn((u64, u64), Player, Seq<int>) -> Option<int>,
    white: spec_fn((u64, u64), Player, Seq<int>) -> Option<int>,
    board: (u64, u64),
    player: Player,
    played: Seq<int>,
) -> Option<Result<(u64, u64), int>>
    decreases popcount(empty_squares(board)),
{
    if game_over(board) {
        Some(Ok(board))
    } else {
        let pick = match player {
            Player::Black => black(board, player, played),
            Player::White => white(board, player, played),
        };
        match pick {
            None => None,
            Some(m) => if is_legal_move(
                stones_of(board, player),
                stones_of(board, player.spec_opponent()),
                m,
            ) {
                proof {
                    lemma_move_fills_one_square(board, player, m);
                }
                let next = after_move(board, player, m);
                game_run(black, white, next.0, next.1, played.push(m))
            } else {
                Some(Err(m))
            },
        }
    }
}

/// The text that the derived `Debug` of `Position` writes for the position
/// with index `index` (64 for the pass).
pub uninterp spec fn position_debug_text(index: int) -> Seq<char>;

/// The debug form of a position, as `format!` writes it with `{:?}`: a
/// function of the position alone, named `position_debug_text`; its form is
/// left unsaid, since std does not promise the form a derived `Debug` writes.
#[verifier::external_body]
fn debug_text(position: Position) -> (r: String)
    ensures
        r@ == position_debug_text(position@),
{
    format!("{:?}", position)
}

/// The message for an illegal move: "Invalid move: " followed by the
/// position's debug form.
pub open spec fn invalid_move_text(index: int) -> Seq<char> {
    "Invalid move: "@ + position_debug_text(index)
}

fn invalid_move_message(position: Position) -> (r: String)
    ensures
        r@ == invalid_move_text(position@),
        r@.len() >= 14,
        r@.subrange(0, 14) == "Invalid move: "@,
{
    let text = debug_text(position);
    let message = String::from_str("Invalid move: ").concat(text.as_str());
    proof {
        reveal_strlit("Invalid move: ");
        assert(message@.subrange(0, 14) =~= "Invalid move: "@);
    }
    message
}

/// Plays the move that the player to move chose: a legal move is applied
/// and the turn passes as `Game::apply_move` passes it; any other position
/// leaves the game as it is and gives the "Invalid move: " error.
pub fn play_turn(game: &mut Game, position: Position) -> (r: Result<(), String>)
    ensures
        r is Ok <==> is_legal_move(old(game).mover_stones(), old(game).waiting_stones(), position@),
        (final(game).board(), final(game).player()) == after_move(
            old(game).board(),
            old(game).player(),
            position@,
        ),
        r is Ok ==> final(game).played() == old(game).played().push(position@),
        r matches Err(e) ==> final(game).played() == old(game).played() && e@
            == invalid_move_text(position@),
{
    if game.is_valid_move(position) {
        if let Err(e) = game.apply_move(position) {
            return Err(String::from_str(e));
        }
        Ok(())
    } else {
        Err(invalid_move_message(position))
    }
}

/// Plays a game from the initial position: shows the game, asks the player
/// to move for a move, and applies it, until the game is over (shown once
/// more at the end). A move that is not legal stops the game with an error.
pub fn run_game<D1, D2, F>(black_player: D1, white_decider: D2, display: F) -> (r: Result<
    (),
    String,
>) where D1: GamePlayer, D2: GamePlayer, F: FnMut(&Game)
    requires
        forall|g: &Game| call_requires(display, (g,)),
        black_player.side() == Some(Player::Black),
        white_decider.side() == Some(Player::White),
    ensures
        r matches Err(e) ==> exists|i: int|
            e@ == invalid_move_text(i) && e@.len() >= 14 && e@.subrange(0, 14) == "Invalid move: "@,
        r is Ok ==> exists|g: &Game|
            #[trigger] call_ensures(display, (g,), ()) && game_over(g.board()) && (
            g.board(),
            g.player(),
            ) == replay_squares(g.played(), g.played().len()) && legal_line(
                g.played(),
                g.played().len(),
            ),
        ({
            let run = game_run(
                choices_of(black_player),
                choices_of(white_decider),
                (initial_black(), initial_white()),
                Player::Black,
                Seq::<int>::empty(),
            );
            &&& run matches Some(Ok(_)) ==> r is Ok
            &&& run matches Some(Err(m)) ==> r matches Err(e) && e@ == invalid_move_text(m)
        }),
{
    let ghost cb = choices_of(black_player);
    let ghost cw = choices_of(white_decider);
    let ghost start = game_run(
        cb,
        cw,
        (initial_black(), initial_white()),
        Player::Black,
        Seq::<int>::empty(),
    );
    let mut black = black_player;
    let mut white = white_decider;
    let mut show = display;
    let mut game = Game::default();
    proof {
        lemma_initial_not_over();
        assert(game.played() =~= Seq::<int>::empty());
    }

    loop
        invariant_except_break
            !game_over(game.board()),
        invariant
            show == display,
            start == game_run(
                choices_of(black_player),
                choices_of(white_decider),
                (initial_black(), initial_white()),
                Player::Black,
                Seq::<int>::empty(),
            ),
            forall|g: &Game| call_requires(display, (g,)),
            black.side() == Some(Player::Black),
            white.side() == Some(Player::White),
            forall|b: (u64, u64), p: Player, h: Seq<int>|
                #[trigger] black.choice(b, p, h) == cb(b, p, h),
            forall|b: (u64, u64), p: Player, h: Seq<int>|
                #[trigger] white.choice(b, p, h) == cw(b, p, h),
            (game.board(), game.player()) == replay_squares(game.played(), game.played().len()),
            legal_line(game.played(), game.played().len()),
            start is Some ==> start == game_run(
                cb,
                cw,
                game.board(),
                game.player(),
                game.played(),
            ),
        ensures
            exists|g: &Game|
                #[trigger] call_ensures(display, (g,), ()) && game_over(g.board()) && (
                g.board(),
                g.player(),
                ) == replay_squares(g.played(), g.played().len()) && legal_line(
                    g.played(),
                    g.played().len(),
                ),
            start is Some ==> start == Some(Ok::<(u64, u64), int>(game.board())),
        decreases popcount(empty_squares(game.board())),
    {
        show(&game);

        // Determine the move of the player to move.
        let current_player = game.current_player();
        let position = match current_player {
            Player::Black => black.select_move(&game),
            Player::White => white.select_move(&game),
        };

        let ghost before = game;
        let ghost pick = match before.player() {
            Player::Black => cb(before.board(), before.player(), before.played()),
            Player::White => cw(before.board(), before.player(), before.played()),
        };
        proof {
            if pick is Some {
                assert(pick == Some(position@));
            }
            assert(game_run(cb, cw, before.board(), before.player(), before.played()) == match pick {
                None => None,
                Some(m) => if is_legal_move(
                    stones_of(before.board(), before.player()),
                    stones_of(before.board(), before.player().spec_opponent()),
                    m,
                ) {
                    let next = after_move(before.board(), before.player(), m);
                    game_run(cb, cw, next.0, next.1, before.played().push(m))
                } else {
                    Some(Err(m))
                },
            });
        }
        if let Err(e) = play_turn(&mut game, position) {
            proof {
                reveal_strlit("Invalid move: ");
                assert(e@ == invalid_move_text(position@));
                if start is Some {
                    assert(pick == Some(position@));
                    assert(start == Some(Err::<(u64, u64), int>(position@)));
                }
                assert(start matches Some(Err(m)) ==> e@ == invalid_move_text(m));
                assert(!(start matches Some(Ok(_))));
                assert(e@.subrange(0, 14) =~= "Invalid move: "@);
            }
            return Err(e);
        }
        proof {
            lemma_move_fills_one_square(before.board(), before.player(), position@);
            let old_line = before.played();
            let n = old_line.len();
            assert(game.played() == old_line.push(position@));
            assert forall|i: int| 0 <= i <= n implies #[trigger] replay_squares(
                game.played(),
                i as nat,
            ) == replay_squares(old_line, i as nat) by {
                lemma_replay_squares_prefix(old_line, position@, i as nat);
            }
            assert(game.played()[n as int] == position@);
            lemma_replay_squares_prefix(old_line, position@, n);
            assert(replay_squares(game.played(), n) == replay_squares(old_line, n));
            assert(replay_squares(game.played(), (n + 1) as nat) == after_move(
                replay_squares(game.played(), n).0,
                replay_squares(game.played(), n).1,
                game.played()[n as int],
            ));
            assert(legal_line(game.played(), game.played().len())) by {
                assert forall|i: int| 0 <= i < n + 1 implies {
                    let s = #[trigger] replay_squares(game.played(), i as nat);
                    is_legal_move(
                        stones_of(s.0, s.1),
                        stones_of(s.0, s.1.spec_opponent()),
                        game.played()[i],
                    )
                } by {
                    if i < n {
                        assert(replay_squares(game.played(), i as nat) == replay_squares(
                            old_line,
                            i as nat,
                        ));
                        assert(game.played()[i] == old_line[i]);
                    }
                }
            }
        }

        // Check if the game is over.
        if game.is_game_over() {
            show(&game);
            break;
        }
    }

    Ok(())
}

} // verus!
