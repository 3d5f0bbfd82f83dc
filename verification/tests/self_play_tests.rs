use temp_reversi::game::Game;
use temp_reversi::game_record::GameRecord;
use temp_reversi::player::Player;
use temp_reversi::position::Position;
use temp_reversi::run_game::GamePlayer;
use temp_reversi::self_play::{batch_message, match_outcome, play_match, play_match_game, play_record};

/// Plays the first legal move, or the last one, for one color or for both.
struct Scripted {
    side: Option<Player>,
    last: bool,
}

impl GamePlayer for Scripted {
    fn side(&self) -> Option<Player> {
        self.side
    }

    fn select_move(&mut self, game: &Game) -> Position {
        let moves = game.valid_moves();
        if self.last {
            moves[moves.len() - 1]
        } else {
            moves[0]
        }
    }
}

/// Always offers the pass.
struct Passer;

impl GamePlayer for Passer {
    fn side(&self) -> Option<Player> {
        None
    }

    fn select_move(&mut self, _game: &Game) -> Position {
        Position::pass()
    }
}

#[test]
fn match_outcome_tallies_one_game() {
    assert_eq!(match_outcome(40, 24), (1, 0, 0));
    assert_eq!(match_outcome(10, 54), (0, 1, 0));
    assert_eq!(match_outcome(32, 32), (0, 0, 1));
}

#[test]
fn match_game_plays_to_the_end() {
    let mut black = Scripted { side: Some(Player::Black), last: false };
    let mut white = Scripted { side: Some(Player::White), last: true };
    let game = play_match_game(&mut black, &mut white).unwrap();
    assert!(game.is_game_over());
    let mut replay = Game::default();
    for p in game.history() {
        assert!(replay.apply_move(*p).is_ok());
    }
    assert_eq!(replay.board_state().bits(), game.board_state().bits());
}

#[test]
fn play_record_replays_to_its_final_score() {
    let mut random = Scripted { side: None, last: true };
    let mut search = Scripted { side: None, last: false };
    let record = play_record(&mut random, &mut search, 10);
    assert!(record.moves.len() >= 10);
    let mut game = Game::default();
    for &m in &record.moves {
        assert!(game.apply_move(Position::from_u8(m)).is_ok());
    }
    assert!(game.is_game_over());
    let (b, w) = game.current_score();
    assert_eq!(record.final_score, (b as u8, w as u8));
    let samples = GameRecord { moves: record.moves.clone(), final_score: record.final_score }
        .to_samples();
    assert_eq!(samples.len(), record.moves.len());
}

#[test]
fn play_record_stops_at_an_illegal_move() {
    let mut random = Passer;
    let mut search = Passer;
    let record = play_record(&mut random, &mut search, 3);
    assert_eq!(record.moves, vec![64]);
    assert_eq!(record.final_score, (2, 2));
}

#[test]
fn batch_message_names_the_batch() {
    assert_eq!(batch_message(0, 1000), "Batch 0-999 completed and saved to SQLite");
    assert_eq!(batch_message(2000, 2500), "Batch 2000-2499 completed and saved to SQLite");
}

#[test]
fn play_match_counts_every_game() {
    let mut black = Scripted { side: Some(Player::Black), last: false };
    let mut white = Scripted { side: Some(Player::White), last: false };
    let (b, w, d) = play_match(&mut black, &mut white, 3).unwrap();
    assert_eq!(b + w + d, 3);
    // The scripted players play the same game each time.
    assert!(b == 3 || w == 3 || d == 3);
}
