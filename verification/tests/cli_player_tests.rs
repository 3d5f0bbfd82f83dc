use temp_reversi::cli_player::{trim_line, CliInput, CliPlayer};
use temp_reversi::game::Game;

#[test]
fn cli_selects_a_legal_move() {
    let game = Game::default();
    match CliPlayer.handle_input(&game, "  d3\n") {
        CliInput::Selected(p) => assert_eq!(p.to_string(), "D3"),
        _ => panic!("expected a selected move"),
    }
}

#[test]
fn cli_asks_again_for_an_illegal_position() {
    let game = Game::default();
    assert!(matches!(CliPlayer.handle_input(&game, "A1"), CliInput::InvalidPosition));
    assert!(matches!(CliPlayer.handle_input(&game, "PASS"), CliInput::InvalidPosition));
}

#[test]
fn cli_gives_up_on_a_line_that_names_no_position() {
    let game = Game::default();
    match CliPlayer.handle_input(&game, "hello") {
        CliInput::Failed(e) => assert_eq!(e, "Invalid format. Expected format: A1"),
        _ => panic!("expected a failure"),
    }
    match CliPlayer.handle_input(&game, "\tZ9 ") {
        CliInput::Failed(e) => assert_eq!(e, "Position out of range. Valid range: A1 to H8"),
        _ => panic!("expected a failure"),
    }
}

#[test]
fn trim_line_removes_outer_white_space_only() {
    assert_eq!(trim_line("  a b \r\n"), "a b");
    assert_eq!(trim_line("\u{3000}x\u{a0}"), "x");
    assert_eq!(trim_line("   "), "");
    assert_eq!(trim_line(""), "");
    let samples = ["  D3 ", "x\u{2003}", "\u{85}y", " z\t\n"];
    for s in samples {
        assert_eq!(trim_line(s), s.trim());
    }
}
