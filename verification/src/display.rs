//! The text that shows a game at a terminal: the board, the score, and the
//! legal moves or, at the end, the winner.
use crate::bitboard::{game_over, legal_squares, rows_text, stones_of};
use crate::bits::popcount;
use crate::game::Game;
use crate::player::Player;
use crate::position::{position_name, Position};
use vstd::prelude::*;
use vstd::string::StringExecFns;

verus! {

/// The decimal digit `d` (0..10) as a character.
pub open spec fn digit_char(d: nat) -> char {
    (d + 48) as char
}

/// `n` written in decimal.
pub open spec fn decimal_text(n: nat) -> Seq<char>
    decreases n,
{
    if n < 10 {
        seq![digit_char(n)]
    } else {
        decimal_text(n / 10) + seq![digit_char(n % 10)]
    }
}

/// The names of `squares[0..k]`, separated by ", ".
pub open spec fn joined_names(squares: Seq<int>, k: nat) -> Seq<char>
    decreases k,
{
    if k == 0 {
        Seq::empty()
    } else if k == 1 {
        position_name(squares[0])
    } else {
        joined_names(squares, (k - 1) as nat) + ", "@ + position_name(squares[k - 1])
    }
}

/// The name of a player.
pub open spec fn player_name(player: Player) -> Seq<char> {
    match player {
        Player::Black => "Black"@,
        Player::White => "White"@,
    }
}

/// The line that names the result of a finished game with `b` black and `w`
/// white stones.
pub open spec fn result_line(b: nat, w: nat) -> Seq<char> {
    if b > w {
        "Winner: Black\n"@
    } else if w > b {
        "Winner: White\n"@
    } else {
        "It's a draw!\n"@
    }
}

/// The text that shows a game with board `v` and `player` to move. A
/// finished game shows "Game over!", the board, the final score and the
/// result; a game in progress shows the board, the player to move with the
/// score, and the legal moves of the player to move.
pub open spec fn display_spec(v: (u64, u64), player: Player) -> Seq<char> {
    let b = popcount(v.0);
    let w = popcount(v.1);
    if game_over(v) {
        "Game over!\n"@ + "Board:\n"@ + rows_text(v, 8) + "\n"@ + "Final Score - Black: "@
            + decimal_text(b) + ", White: "@ + decimal_text(w) + "\n"@ + result_line(b, w)
    } else {
        let moves = legal_squares(stones_of(v, player), stones_of(v, player.spec_opponent()));
        "Board:\n"@ + rows_text(v, 8) + "\n"@ + "Player: "@ + player_name(player)
            + ", Score - Black: "@ + decimal_text(b) + ", White: "@ + decimal_text(w) + "\n"@
            + "Valid moves: ["@ + joined_names(moves, moves.len()) + "]\n"@
    }
}

/// Whether text `t` ends with `s`.
pub open spec fn ends_with(t: Seq<char>, s: Seq<char>) -> bool {
    t.len() >= s.len() && t.subrange(t.len() - s.len(), t.len() as int) == s
}

proof fn lemma_ends_with_concat(q: Seq<char>, s: Seq<char>, x: Seq<char>)
    requires
        q.len() >= 1,
        q.last() == '\n',
    ensures
        ends_with(q + s, x) <==> (if x.len() <= s.len() {
            s.subrange(s.len() - x.len(), s.len() as int) == x
        } else if x.len() == s.len() + 1 {
            x[0] == '\n' && x.subrange(1, x.len() as int) == s
        } else {
            ends_with(q + s, x)
        }),
{
    let t = q + s;
    if x.len() <= s.len() {
        assert(t.subrange(t.len() - x.len(), t.len() as int) =~= s.subrange(
            s.len() - x.len(),
            s.len() as int,
        ));
    } else if x.len() == s.len() + 1 {
        let u = t.subrange(t.len() - x.len(), t.len() as int);
        assert(u[0] == '\n');
        assert(u.subrange(1, u.len() as int) =~= s);
        if x[0] == '\n' && x.subrange(1, x.len() as int) == s {
            assert(u =~= x);
        }
        if u == x {
            assert(x.subrange(1, x.len() as int) =~= u.subrange(1, u.len() as int));
        }
    }
}

/// The text of a finished game ends with the result, as `Game::winner`
/// decides it: "Winner: Black" exactly when Black has more stones, "Winner:
/// White" exactly when White has more, and "It's a draw!" exactly when the
/// counts are equal.
pub proof fn lemma_display_names_winner(v: (u64, u64), player: Player)
    requires
        game_over(v),
    ensures
        ends_with(display_spec(v, player), "Winner: Black\n"@) <==> popcount(v.0) > popcount(v.1),
        ends_with(display_spec(v, player), "Winner: White\n"@) <==> popcount(v.1) > popcount(v.0),
        ends_with(display_spec(v, player), "It's a draw!\n"@) <==> popcount(v.0) == popcount(
            v.1,
        ),
{
    reveal_strlit("Winner: Black\n");
    reveal_strlit("Winner: White\n");
    reveal_strlit("It's a draw!\n");
    reveal_strlit("\n");
    let b = popcount(v.0);
    let w = popcount(v.1);
    let q = "Game over!\n"@ + "Board:\n"@ + rows_text(v, 8) + "\n"@ + "Final Score - Black: "@
        + decimal_text(b) + ", White: "@ + decimal_text(w) + "\n"@;
    let res = result_line(b, w);
    assert(display_spec(v, player) == q + res);
    assert(q.last() == '\n');
    let wb = "Winner: Black\n"@;
    let ww = "Winner: White\n"@;
    let dr = "It's a draw!\n"@;
    lemma_ends_with_concat(q, res, wb);
    lemma_ends_with_concat(q, res, ww);
    lemma_ends_with_concat(q, res, dr);
    if b > w {
        assert(res.subrange(0, 14) =~= res);
        assert(res[8] != ww[8]);
        assert(res.subrange(1, 14)[0] != dr[0]);
    } else if w > b {
        assert(res.subrange(0, 14) =~= res);
        assert(res[8] != wb[8]);
        assert(res.subrange(1, 14)[0] != dr[0]);
    } else {
        assert(res.subrange(0, 13) =~= res);
        assert(wb[1] != res[0]);
        assert(ww[1] != res[0]);
    }
}

/// The decimal digit `d` as a string.
fn digit_str(d: usize) -> (r: &'static str)
    requires
        d < 10,
    ensures
        r@ == seq![digit_char(d as nat)],
{
    let r = match d {
        0 => "0",
        1 => "1",
        2 => "2",
        3 => "3",
        4 => "4",
        5 => "5",
        6 => "6",
        7 => "7",
        8 => "8",
        _ => "9",
    };
    proof {
        reveal_strlit("0");
        reveal_strlit("1");
        reveal_strlit("2");
        reveal_strlit("3");
        reveal_strlit("4");
        reveal_strlit("5");
        reveal_strlit("6");
        reveal_strlit("7");
        reveal_strlit("8");
        reveal_strlit("9");
    }
    r
}

/// Writes `n` in decimal.
pub fn decimal_string(n: usize) -> (r: String)
    ensures
        r@ == decimal_text(n as nat),
    decreases n,
{
    if n < 10 {
        String::from_str(digit_str(n))
    } else {
        let mut text = decimal_string(n / 10);
        text.append(digit_str(n % 10));
        text
    }
}

/// Appends literal `lit` to `text`.
fn push_str(text: &mut String, lit: &str)
    ensures
        final(text)@ == old(text)@ + lit@,
{
    text.append(lit);
}

/// The text that shows `game` at a terminal, line by line as
/// `display_spec` describes it.
pub fn display_text(game: &Game) -> (r: String)
    ensures
        r@ == display_spec(game.board(), game.player()),
{
    let board_text = game.board_state().to_string();
    let (black_score, white_score) = game.current_score();
    proof {
        reveal_strlit("Game over!\n");
        reveal_strlit("Board:\n");
        reveal_strlit("\n");
        reveal_strlit("Final Score - Black: ");
        reveal_strlit(", White: ");
        reveal_strlit("Winner: Black\n");
        reveal_strlit("Winner: White\n");
        reveal_strlit("It's a draw!\n");
        reveal_strlit("Player: ");
        reveal_strlit("Black");
        reveal_strlit("White");
        reveal_strlit(", Score - Black: ");
        reveal_strlit("Valid moves: [");
        reveal_strlit(", ");
        reveal_strlit("]\n");
    }
    let mut text = String::new();
    if game.is_game_over() {
        push_str(&mut text, "Game over!\n");
        push_str(&mut text, "Board:\n");
        push_str(&mut text, board_text.as_str());
        push_str(&mut text, "\n");
        push_str(&mut text, "Final Score - Black: ");
        push_str(&mut text, decimal_string(black_score).as_str());
        push_str(&mut text, ", White: ");
        push_str(&mut text, decimal_string(white_score).as_str());
        push_str(&mut text, "\n");
        if black_score > white_score {
            push_str(&mut text, "Winner: Black\n");
        } else if white_score > black_score {
            push_str(&mut text, "Winner: White\n");
        } else {
            push_str(&mut text, "It's a draw!\n");
        }
    } else {
        push_str(&mut text, "Board:\n");
        push_str(&mut text, board_text.as_str());
        push_str(&mut text, "\n");
        push_str(&mut text, "Player: ");
        match game.current_player() {
            Player::Black => push_str(&mut text, "Black"),
            Player::White => push_str(&mut text, "White"),
        }
        push_str(&mut text, ", Score - Black: ");
        push_str(&mut text, decimal_string(black_score).as_str());
        push_str(&mut text, ", White: ");
        push_str(&mut text, decimal_string(white_score).as_str());
        push_str(&mut text, "\n");
        push_str(&mut text, "Valid moves: [");
        let moves = game.valid_moves();
        let ghost squares = moves@.map_values(|q: Position| q@);
        let ghost before = text@;
        let mut i: usize = 0;
        while i < moves.len()
            invariant
                i <= moves@.len(),
                squares == moves@.map_values(|q: Position| q@),
                text@ == before + joined_names(squares, i as nat),
                ", "@ == seq![',', ' '],
            decreases moves@.len() - i,
        {
            if i > 0 {
                push_str(&mut text, ", ");
            }
            push_str(&mut text, moves[i].to_string().as_str());
            proof {
                assert(squares[i as int] == moves@[i as int]@);
            }
            i += 1;
        }
        push_str(&mut text, "]\n");
    }
    text
}

} // verus!
