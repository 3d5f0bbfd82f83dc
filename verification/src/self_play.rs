//! Games played by two players without a person at the terminal: the games
//! of a test match and the recorded games of a dataset.
use crate::bitboard::{empty_squares, game_over, initial_black, initial_white, lemma_move_fills_one_square};
use crate::bits::popcount;
use crate::display::{decimal_string, decimal_text};
use crate::game::{after_move, Game};
use crate::game_record::{move_square, replay, GameRecord};
use crate::player::Player;
use crate::position::Position;
use crate::rules::is_legal_move;
use crate::run_game::{choices_of, game_run, invalid_move_text, play_turn, GamePlayer};
use crate::bitboard::stones_of;
use vstd::prelude::*;
use vstd::string::StringExecFns;

verus! {

/// The board and the player to move after the squares `squares[0..k]` are
/// tried in turn from the initial position.
pub open spec fn replay_squares(squares: Seq<int>, k: nat) -> ((u64, u64), Player)
    decreases k,
{
    if k == 0 {
        ((initial_black(), initial_white()), Player::Black)
    } else {
        let s = replay_squares(squares, (k - 1) as nat);
        after_move(s.0, s.1, squares[k - 1])
    }
}

/// Each of `squares[0..k]` is a legal move where it is played.
pub open spec fn legal_line(squares: Seq<int>, k: nat) -> bool {
    forall|i: int|
        0 <= i < k ==> {
            let s = #[trigger] replay_squares(squares, i as nat);
            is_legal_move(stones_of(s.0, s.1), stones_of(s.0, s.1.spec_opponent()), squares[i])
        }
}

/// The tally of one finished game with `black` and `white` stones: (black
/// wins, white wins, draws).
pub fn match_outcome(black: usize, white: usize) -> (r: (u32, u32, u32))
    ensures
        r == if black > white {
            (1u32, 0u32, 0u32)
        } else if white > black {
            (0u32, 1u32, 0u32)
        } else {
            (0u32, 0u32, 1u32)
        },
{
    if black > white {
        (1, 0, 0)
    } else if white > black {
        (0, 1, 0)
    } else {
        (0, 0, 1)
    }
}

pub(crate) proof fn lemma_replay_squares_prefix(squares: Seq<int>, x: int, k: nat)
    requires
        k <= squares.len(),
    ensures
        replay_squares(squares.push(x), k) == replay_squares(squares, k),
    decreases k,
{
    if k > 0 {
        lemma_replay_squares_prefix(squares, x, (k - 1) as nat);
    }
}

proof fn lemma_replay_prefix(moves: Seq<u8>, x: u8, k: nat)
    requires
        k <= moves.len(),
    ensures
        replay(moves.push(x), k) == replay(moves, k),
    decreases k,
{
    if k > 0 {
        lemma_replay_prefix(moves, x, (k - 1) as nat);
    }
}

/// Plays one game of a match from the initial position, asking the player
/// whose turn it is for each move. The finished game comes back, with every
/// move of its history legal where it was played; a move that is not legal
/// ends the match game with the "Invalid move: " error.
pub fn play_match_game<B: GamePlayer, W: GamePlayer>(black: &mut B, white: &mut W) -> (r: Result<
    Game,
    String,
>)
    requires
        old(black).side() == Some(Player::Black),
        old(white).side() == Some(Player::White),
    ensures
        final(black).side() == old(black).side(),
        final(white).side() == old(white).side(),
        r matches Ok(g) ==> {
            &&& game_over(g.board())
            &&& (g.board(), g.player()) == replay_squares(g.played(), g.played().len())
            &&& legal_line(g.played(), g.played().len())
        },
        r matches Err(e) ==> exists|i: int| e@ == invalid_move_text(i),
        forall|b: (u64, u64), p: Player, h: Seq<int>|
            #[trigger] final(black).choice(b, p, h) == old(black).choice(b, p, h),
        forall|b: (u64, u64), p: Player, h: Seq<int>|
            #[trigger] final(white).choice(b, p, h) == old(white).choice(b, p, h),
        ({
            let run = game_run(
                choices_of(*old(black)),
                choices_of(*old(white)),
                (initial_black(), initial_white()),
                Player::Black,
                Seq::<int>::empty(),
            );
            &&& run matches Some(Ok(b)) ==> r matches Ok(g) && g.board() == b
            &&& run matches Some(Err(m)) ==> r matches Err(e) && e@ == invalid_move_text(m)
        }),
{
    let ghost cb = choices_of(*black);
    let ghost cw = choices_of(*white);
    let ghost start = game_run(
        cb,
        cw,
        (initial_black(), initial_white()),
        Player::Black,
        Seq::<int>::empty(),
    );
    let mut game = Game::default();
    proof {
        assert(game.played() =~= Seq::<int>::empty());
    }
    while !game.is_game_over()
        invariant
            black.side() == Some(Player::Black),
            white.side() == Some(Player::White),
            old(black).side() == Some(Player::Black),
            old(white).side() == Some(Player::White),
            cb == choices_of(*old(black)),
            cw == choices_of(*old(white)),
            start == game_run(
                cb,
                cw,
                (initial_black(), initial_white()),
                Player::Black,
                Seq::<int>::empty(),
            ),
            forall|b: (u64, u64), p: Player, h: Seq<int>|
                #[trigger] black.choice(b, p, h) == cb(b, p, h),
            forall|b: (u64, u64), p: Player, h: Seq<int>|
                #[trigger] white.choice(b, p, h) == cw(b, p, h),
            start is Some ==> start == game_run(
                cb,
                cw,
                game.board(),
                game.player(),
                game.played(),
            ),
            (game.board(), game.player()) == replay_squares(game.played(), game.played().len()),
            legal_line(game.played(), game.played().len()),
        decreases popcount(empty_squares(game.board())),
    {
        let position = match game.current_player() {
            Player::Black => black.select_move(&game),
            Player::White => white.select_move(&game),
        };
        let ghost before = game;
        let ghost pick = match before.player() {
            Player::Black => cb(before.board(), before.player(), before.played()),
            Player::White => cw(before.board(), before.player(), before.played()),
        };
        proof {
            if pick is Some {
                assert(pick == Some(position@));
            }
            assert(game_run(cb, cw, before.board(), before.player(), before.played()) == match pick {
                None => None,
                Some(m) => if is_legal_move(
                    stones_of(before.board(), before.player()),
                    stones_of(before.board(), before.player().spec_opponent()),
                    m,
                ) {
                    let next = after_move(before.board(), before.player(), m);
                    game_run(cb, cw, next.0, next.1, before.played().push(m))
                } else {
                    Some(Err(m))
                },
            });
        }
        match play_turn(&mut game, position) {
            Ok(()) => {
                proof {
                    let old_line = before.played();
                    let n = old_line.len();
                    assert(game.played() == old_line.push(position@));
                    lemma_replay_squares_prefix(old_line, position@, n);
                    assert forall|i: int| 0 <= i <= n implies #[trigger] replay_squares(
                        game.played(),
                        i as nat,
                    ) == replay_squares(old_line, i as nat) by {
                        lemma_replay_squares_prefix(old_line, position@, i as nat);
                    }
                    assert(game.played()[n as int] == position@);
                    lemma_move_fills_one_square(before.board(), before.player(), position@);
                }
            },
            Err(e) => {
                proof {
                    if start is Some {
                        assert(start == Some(Err::<(u64, u64), int>(position@)));
                    }
                }
                return Err(e);
            },
        }
    }
    Ok(game)
}

/// Plays a match of `num_games` games between the same two players and
/// tallies (black wins, white wins, draws); a move that is not legal stops
/// the match with the "Invalid move: " error.
pub fn play_match<B: GamePlayer, W: GamePlayer>(
    black: &mut B,
    white: &mut W,
    num_games: u32,
) -> (r: Result<(u32, u32, u32), String>)
    requires
        old(black).side() == Some(Player::Black),
        old(white).side() == Some(Player::White),
    ensures
        final(black).side() == old(black).side(),
        final(white).side() == old(white).side(),
        r matches Ok(t) ==> t.0 + t.1 + t.2 == num_games,
        r matches Err(e) ==> exists|i: int| e@ == invalid_move_text(i),
        num_games == 0 ==> r == Ok::<(u32, u32, u32), String>((0, 0, 0)),
        ({
            let run = game_run(
                choices_of(*old(black)),
                choices_of(*old(white)),
                (initial_black(), initial_white()),
                Player::Black,
                Seq::<int>::empty(),
            );
            &&& run matches Some(Ok(b)) ==> r matches Ok(t) && t == (
                if popcount(b.0) > popcount(b.1) {
                    num_games
                } else {
                    0
                },
                if popcount(b.1) > popcount(b.0) {
                    num_games
                } else {
                    0
                },
                if popcount(b.0) == popcount(b.1) {
                    num_games
                } else {
                    0
                },
            )
            &&& num_games > 0 ==> (run matches Some(Err(m)) ==> r matches Err(e) && e@
                == invalid_move_text(m))
        }),
{
    let ghost run = game_run(
        choices_of(*black),
        choices_of(*white),
        (initial_black(), initial_white()),
        Player::Black,
        Seq::<int>::empty(),
    );
    let mut tally: (u32, u32, u32) = (0, 0, 0);
    let mut played: u32 = 0;
    while played < num_games
        invariant
            played <= num_games,
            tally.0 + tally.1 + tally.2 == played,
            black.side() == Some(Player::Black),
            white.side() == Some(Player::White),
            old(black).side() == Some(Player::Black),
            old(white).side() == Some(Player::White),
            run == game_run(
                choices_of(*old(black)),
                choices_of(*old(white)),
                (initial_black(), initial_white()),
                Player::Black,
                Seq::<int>::empty(),
            ),
            choices_of(*black) == choices_of(*old(black)),
            choices_of(*white) == choices_of(*old(white)),
            run matches Some(Err(_)) ==> played == 0,
            run matches Some(Ok(b)) ==> tally == (
                if popcount(b.0) > popcount(b.1) {
                    played
                } else {
                    0
                },
                if popcount(b.1) > popcount(b.0) {
                    played
                } else {
                    0
                },
                if popcount(b.0) == popcount(b.1) {
                    played
                } else {
                    0
                },
            ),
        decreases num_games - played,
    {
        let ghost pre_black = *black;
        let ghost pre_white = *white;
        let game = match play_match_game(black, white) {
            Ok(g) => g,
            Err(e) => {
                return Err(e);
            },
        };
        proof {
            assert(choices_of(*black) =~= choices_of(pre_black));
            assert(choices_of(*white) =~= choices_of(pre_white));
        }
        let (black_stones, white_stones) = game.current_score();
        let outcome = match_outcome(black_stones, white_stones);
        tally = (tally.0 + outcome.0, tally.1 + outcome.1, tally.2 + outcome.2);
        played += 1;
    }
    Ok(tally)
}

/// The squares that the recorded moves `moves[0..i]` name.
pub open spec fn recorded_squares(moves: Seq<u8>, i: nat) -> Seq<int> {
    Seq::new(i, |j: int| move_square(moves[j]))
}

/// Plays one recorded game from the initial position: the first
/// `num_random_moves` moves are asked of `random`, the others of `search`,
/// each move is written down (0..64, 64 for the pass) and tried, until the
/// game is over. A move that is not legal is written down and ends the game
/// where it stands. The final score is the stone count at the end.
pub fn play_record<R: GamePlayer, S: GamePlayer>(
    random: &mut R,
    search: &mut S,
    num_random_moves: usize,
) -> (r: GameRecord)
    requires
        old(random).side() is None,
        old(search).side() is None,
    ensures
        final(random).side() == old(random).side(),
        final(search).side() == old(search).side(),
        forall|b: (u64, u64), p: Player, h: Seq<int>|
            #[trigger] final(random).choice(b, p, h) == old(random).choice(b, p, h),
        forall|b: (u64, u64), p: Player, h: Seq<int>|
            #[trigger] final(search).choice(b, p, h) == old(search).choice(b, p, h),
        forall|i: int|
            0 <= i < r.moves@.len() ==> {
                let s = #[trigger] replay(r.moves@, i as nat);
                let h = recorded_squares(r.moves@, i as nat);
                let pick = if i < num_random_moves {
                    old(random).choice(s.0, s.1, h)
                } else {
                    old(search).choice(s.0, s.1, h)
                };
                pick matches Some(m) ==> r.moves@[i] as int == m
            },
        r.moves@.len() >= 1,
        forall|i: int| 0 <= i < r.moves@.len() ==> #[trigger] r.moves@[i] <= 64,
        forall|i: int|
            0 <= i < r.moves@.len() ==> !game_over(#[trigger] replay(r.moves@, i as nat).0),
        forall|i: int|
            0 <= i < r.moves@.len() - 1 ==> {
                let s = #[trigger] replay(r.moves@, i as nat);
                is_legal_move(
                    stones_of(s.0, s.1),
                    stones_of(s.0, s.1.spec_opponent()),
                    move_square(r.moves@[i]),
                )
            },
        ({
            let n = r.moves@.len();
            let last = replay(r.moves@, (n - 1) as nat);
            is_legal_move(
                stones_of(last.0, last.1),
                stones_of(last.0, last.1.spec_opponent()),
                move_square(r.moves@[n - 1]),
            ) ==> game_over(replay(r.moves@, n).0)
        }),
        r.final_score.0 == popcount(replay(r.moves@, r.moves@.len()).0.0),
        r.final_score.1 == popcount(replay(r.moves@, r.moves@.len()).0.1),
{
    let mut game = Game::default();
    let mut moves: Vec<u8> = Vec::new();
    proof {
        crate::bitboard::lemma_initial_not_over();
    }
    loop
        invariant_except_break
            !game_over(game.board()),
            game.played() == recorded_squares(moves@, moves@.len()),
            forall|i: int|
                0 <= i < moves@.len() ==> {
                    let s = #[trigger] replay(moves@, i as nat);
                    is_legal_move(
                        stones_of(s.0, s.1),
                        stones_of(s.0, s.1.spec_opponent()),
                        move_square(moves@[i]),
                    )
                },
        invariant
            random.side() is None,
            search.side() is None,
            old(random).side() is None,
            old(search).side() is None,
            forall|b: (u64, u64), p: Player, h: Seq<int>|
                #[trigger] random.choice(b, p, h) == old(random).choice(b, p, h),
            forall|b: (u64, u64), p: Player, h: Seq<int>|
                #[trigger] search.choice(b, p, h) == old(search).choice(b, p, h),
            forall|i: int|
                0 <= i < moves@.len() ==> {
                    let s = #[trigger] replay(moves@, i as nat);
                    let h = recorded_squares(moves@, i as nat);
                    let pick = if i < num_random_moves {
                        old(random).choice(s.0, s.1, h)
                    } else {
                        old(search).choice(s.0, s.1, h)
                    };
                    pick matches Some(m) ==> moves@[i] as int == m
                },
            (game.board(), game.player()) == replay(moves@, moves@.len()),
            forall|i: int| 0 <= i < moves@.len() ==> #[trigger] moves@[i] <= 64,
            forall|i: int|
                0 <= i < moves@.len() ==> !game_over(#[trigger] replay(moves@, i as nat).0),
        ensures
            forall|i: int|
                0 <= i < moves@.len() ==> {
                    let s = #[trigger] replay(moves@, i as nat);
                    let h = recorded_squares(moves@, i as nat);
                    let pick = if i < num_random_moves {
                        old(random).choice(s.0, s.1, h)
                    } else {
                        old(search).choice(s.0, s.1, h)
                    };
                    pick matches Some(m) ==> moves@[i] as int == m
                },
            moves@.len() >= 1,
            (game.board(), game.player()) == replay(moves@, moves@.len()),
            forall|i: int| 0 <= i < moves@.len() ==> #[trigger] moves@[i] <= 64,
            forall|i: int|
                0 <= i < moves@.len() ==> !game_over(#[trigger] replay(moves@, i as nat).0),
            forall|i: int|
                0 <= i < moves@.len() - 1 ==> {
                    let s = #[trigger] replay(moves@, i as nat);
                    is_legal_move(
                        stones_of(s.0, s.1),
                        stones_of(s.0, s.1.spec_opponent()),
                        move_square(moves@[i]),
                    )
                },
            ({
                let n = moves@.len();
                let last = replay(moves@, (n - 1) as nat);
                is_legal_move(
                    stones_of(last.0, last.1),
                    stones_of(last.0, last.1.spec_opponent()),
                    move_square(moves@[n - 1]),
                ) ==> game_over(game.board())
            }),
        decreases popcount(empty_squares(game.board())),
    {
        let mv = if moves.len() < num_random_moves {
            random.select_move(&game)
        } else {
            search.select_move(&game)
        };
        let ghost before_moves = moves@;
        let ghost before = game;
        let ghost n = before_moves.len();
        proof {
            let h = recorded_squares(before_moves, n);
            let pick = if n < num_random_moves {
                old(random).choice(before.board(), before.player(), h)
            } else {
                old(search).choice(before.board(), before.player(), h)
            };
            if pick is Some {
                assert(mv@ == pick->0);
            }
        }
        let code = mv.to_u8();
        moves.push(code);
        let result = game.apply_move(mv);
        proof {
            let n = before_moves.len();
            assert(moves@ == before_moves.push(code));
            assert forall|i: int| 0 <= i <= n implies #[trigger] replay(moves@, i as nat)
                == replay(before_moves, i as nat) by {
                lemma_replay_prefix(before_moves, code, i as nat);
            }
            assert(move_square(code) == mv@);
            assert forall|i: int| 0 <= i <= n implies #[trigger] recorded_squares(moves@, i as nat)
                == recorded_squares(before_moves, i as nat) by {
                assert(recorded_squares(moves@, i as nat) =~= recorded_squares(
                    before_moves,
                    i as nat,
                ));
            }
            assert(recorded_squares(moves@, n + 1) =~= recorded_squares(before_moves, n).push(
                mv@,
            ));
            assert(moves@[n as int] == code);
            if result is Ok {
                lemma_move_fills_one_square(before.board(), before.player(), mv@);
            }
        }
        if result.is_err() {
            break;
        }
        if game.is_game_over() {
            break;
        }
    }
    let (black, white) = game.current_score();
    proof {
        crate::bits::lemma_popcount_below_bound(game.board().0, 64);
        crate::bits::lemma_popcount_below_bound(game.board().1, 64);
    }
    GameRecord { moves, final_score: (black as u8, white as u8) }
}

/// The message shown when the games `start..end` of a batch are done:
/// "Batch {start}-{end - 1} completed and saved to SQLite".
pub fn batch_message(start: usize, end: usize) -> (r: String)
    requires
        end >= 1,
    ensures
        r@ == "Batch "@ + decimal_text(start as nat) + "-"@ + decimal_text((end - 1) as nat)
            + " completed and saved to SQLite"@,
{
    proof {
        reveal_strlit("Batch ");
        reveal_strlit("-");
        reveal_strlit(" completed and saved to SQLite");
    }
    let mut text = String::from_str("Batch ");
    text.append(decimal_string(start).as_str());
    text.append("-");
    text.append(decimal_string(end - 1).as_str());
    text.append(" completed and saved to SQLite");
    text
}

} // verus!
