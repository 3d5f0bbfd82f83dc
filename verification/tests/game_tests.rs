use temp_reversi::bitboard::Bitboard;
use temp_reversi::coordinate::{A1, C3, C4, D3, E6, F5};
use temp_reversi::game::Game;
use temp_reversi::player::Player;
use temp_reversi::position::Position;

#[test]
fn test_game_initialization() {
    let game = Game::default();
    let (black_count, white_count) = game.current_score();
    assert_eq!(black_count, 2);
    assert_eq!(white_count, 2);
    assert_eq!(game.current_player(), Player::Black);
}

#[test]
fn test_valid_moves() {
    let game = Game::default();
    let valid_moves = game.valid_moves();
    assert!(valid_moves.contains(&Position::from_u8(D3)));
    assert!(valid_moves.contains(&Position::from_u8(C4)));
    assert!(valid_moves.contains(&Position::from_u8(F5)));
    assert!(valid_moves.contains(&Position::from_u8(E6)));
    assert_eq!(valid_moves.len(), 4);
}

#[test]
fn test_apply_move_and_turn_switch() {
    let mut game = Game::default();
    assert!(game.apply_move(Position::from_u8(D3)).is_ok());
    assert_eq!(game.current_player(), Player::White);
    let (black_count, white_count) = game.current_score();
    assert_eq!(black_count, 4);
    assert_eq!(white_count, 1);
}

#[test]
fn test_game_over_and_winner() {
    let game = Game::new(
        Bitboard::new(0xffffffffff000000, 0x0000000000ffffff),
        Player::Black,
    );
    assert!(game.is_game_over());
    match game.winner() {
        Ok(Some(Player::Black)) => (),
        _ => panic!("Expected Black to win"),
    }
}

#[test]
fn illegal_move_changes_nothing() {
    let mut game = Game::default();
    assert_eq!(game.apply_move(Position::from_u8(A1)), Err("Invalid move"));
    assert_eq!(game.current_player(), Player::Black);
    assert!(game.history().is_empty());
    assert_eq!(game.board_state().bits(), Bitboard::default().bits());
}

#[test]
fn winner_before_the_end_is_an_error() {
    let game = Game::default();
    assert!(!game.is_game_over());
    assert_eq!(game.winner(), Err("Game is not over yet"));
}

#[test]
fn winner_draw_and_white() {
    let draw = Game::new(Bitboard::new(0xffffffff00000000, 0x00000000ffffffff), Player::White);
    assert_eq!(draw.winner(), Ok(None));
    let white = Game::new(Bitboard::new(0x00000000000000ff, 0xffffffffffffff00), Player::Black);
    assert_eq!(white.winner(), Ok(Some(Player::White)));
}

#[test]
fn history_records_the_moves_played() {
    let mut game = Game::default();
    assert!(game.apply_move(Position::from_u8(D3)).is_ok());
    assert!(game.is_valid_move(Position::from_u8(C3)));
    assert!(game.apply_move(Position::from_u8(C3)).is_ok());
    let names: Vec<String> = game.history().iter().map(|p| p.to_string()).collect();
    assert_eq!(names, vec!["D3", "C3"]);
    assert_eq!(game.current_player(), Player::Black);
}

#[test]
fn turn_stays_when_the_opponent_must_pass() {
    // Black on A1 takes White's only stone, on B1, by playing C1; White then
    // has no stone and cannot move.
    let mut game = Game::new(Bitboard::new(1u64 << 0, 1u64 << 1), Player::Black);
    assert!(game.apply_move(Position::new(0, 2)).is_ok());
    assert_eq!(game.current_player(), Player::Black);
    assert!(game.is_game_over());
    assert_eq!(game.winner(), Ok(Some(Player::Black)));
}

#[test]
fn opponent_is_an_involution() {
    assert_eq!(Player::Black.opponent(), Player::White);
    assert_eq!(Player::White.opponent(), Player::Black);
    assert_eq!(Player::Black.opponent().opponent(), Player::Black);
}

struct FirstMove(Player);

impl temp_reversi::run_game::GamePlayer for FirstMove {
    fn side(&self) -> Option<Player> {
        Some(self.0)
    }

    fn select_move(&mut self, game: &Game) -> Position {
        game.valid_moves()[0]
    }
}

struct AlwaysCorner;

impl temp_reversi::run_game::GamePlayer for AlwaysCorner {
    fn side(&self) -> Option<Player> {
        Some(Player::Black)
    }

    fn select_move(&mut self, _game: &Game) -> Position {
        Position::from_u8(A1)
    }
}

#[test]
fn run_game_plays_to_the_end() {
    let mut shown = 0;
    let result = temp_reversi::run_game::run_game(
        FirstMove(Player::Black),
        FirstMove(Player::White),
        |_g: &Game| shown += 1,
    );
    assert_eq!(result, Ok(()));
    assert!(shown >= 2);
}

#[test]
fn run_game_stops_on_an_illegal_move() {
    let result = temp_reversi::run_game::run_game(AlwaysCorner, FirstMove(Player::White), |_g: &Game| {});
    let err = result.unwrap_err();
    assert_eq!(err, "Invalid move: Position { bit: 1 }");
}

#[test]
fn play_turn_applies_legal_moves_and_refuses_others() {
    let mut game = Game::default();
    let refused = temp_reversi::run_game::play_turn(&mut game, Position::from_u8(A1));
    assert!(refused.unwrap_err().starts_with("Invalid move: "));
    assert!(game.history().is_empty());
    assert_eq!(game.current_player(), Player::Black);
    assert_eq!(temp_reversi::run_game::play_turn(&mut game, Position::from_u8(D3)), Ok(()));
    assert_eq!(game.current_player(), Player::White);
    assert_eq!(game.current_score(), (4, 1));
    assert_eq!(game.history().len(), 1);
}

struct Counting {
    color: Player,
    calls: std::rc::Rc<std::cell::Cell<usize>>,
    answer: Option<u8>,
}

impl temp_reversi::run_game::GamePlayer for Counting {
    fn side(&self) -> Option<Player> {
        Some(self.color)
    }

    fn select_move(&mut self, game: &Game) -> Position {
        assert_eq!(game.current_player(), self.color);
        self.calls.set(self.calls.get() + 1);
        match self.answer {
            Some(square) => Position::from_u8(square),
            None => game.valid_moves()[0],
        }
    }
}

#[test]
fn run_game_asks_only_the_player_to_move() {
    let black_calls = std::rc::Rc::new(std::cell::Cell::new(0));
    let white_calls = std::rc::Rc::new(std::cell::Cell::new(0));
    let black = Counting { color: Player::Black, calls: black_calls.clone(), answer: Some(A1) };
    let white = Counting { color: Player::White, calls: white_calls.clone(), answer: None };
    let mut shown = Vec::new();
    let result = temp_reversi::run_game::run_game(black, white, |g: &Game| {
        shown.push(g.board_state().bits())
    });
    assert_eq!(result, Err("Invalid move: Position { bit: 1 }".to_string()));
    assert_eq!(shown, vec![Bitboard::default().bits()]);
    assert_eq!(black_calls.get(), 1);
    assert_eq!(white_calls.get(), 0);

    let black_calls = std::rc::Rc::new(std::cell::Cell::new(0));
    let white_calls = std::rc::Rc::new(std::cell::Cell::new(0));
    let black = Counting { color: Player::Black, calls: black_calls.clone(), answer: None };
    let white = Counting { color: Player::White, calls: white_calls.clone(), answer: None };
    let mut shown = 0;
    let result = temp_reversi::run_game::run_game(black, white, |_g: &Game| shown += 1);
    assert_eq!(result, Ok(()));
    assert_eq!(shown, black_calls.get() + white_calls.get() + 1);
}

#[test]
fn display_text_of_a_game_in_progress_and_at_the_end() {
    let game = Game::default();
    let expected = format!(
        "Board:\n{}\nPlayer: Black, Score - Black: 2, White: 2\nValid moves: [D3, C4, F5, E6]\n",
        Bitboard::default().to_string()
    );
    assert_eq!(temp_reversi::display::display_text(&game), expected);

    let over = Game::new(Bitboard::new(0xffffffffff000000, 0x0000000000ffffff), Player::White);
    let text = temp_reversi::display::display_text(&over);
    assert!(text.starts_with("Game over!\nBoard:\n"));
    assert!(text.ends_with("\nFinal Score - Black: 40, White: 24\nWinner: Black\n"));
    assert_eq!(temp_reversi::display::decimal_string(0), "0");
    assert_eq!(temp_reversi::display::decimal_string(1234567), "1234567");
}
