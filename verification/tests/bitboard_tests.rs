use temp_reversi::bitboard::Bitboard;
use temp_reversi::coordinate::{
    A1, A2, A3, A4, A5, A6, A7, A8, B1, B2, B3, B4, B7, B8, C1, C2, C3, C4, C5, C6, C7, C8, D1,
    D2, D3, D4, D5, D6, D7, D8, E1, E3, E4, E5, E6, E8, F1, F3, F4, F5, F6, F8, G1, G2, G3, G4, G7,
    G8, H1, H2, H3, H4, H5, H6, H7, H8,
};
use temp_reversi::player::Player;
use temp_reversi::position::Position;
use temp_reversi::utils::rotate_mask_90_cw;

fn bit(square: u8) -> u64 {
    Position::from_u8(square).to_bit()
}

fn pos(square: u8) -> Position {
    Position::from_u8(square)
}

#[test]
fn test_default() {
    let board = Bitboard::default();
    let (black, white) = board.bits();
    assert_eq!(black, bit(D5) | bit(E4));
    assert_eq!(white, bit(D4) | bit(E5));
}

#[test]
fn test_new() {
    let board = Bitboard::new(bit(D5) | bit(E4), bit(D4) | bit(E5));
    let (black, white) = board.bits();
    assert_eq!(black, bit(D5) | bit(E4));
    assert_eq!(white, bit(D4) | bit(E5));
}

#[test]
fn test_get_bitboard_states() {
    let board = Bitboard::new(bit(D5) | bit(E4), bit(D4) | bit(E5));
    let (black, white) = board.bits();
    assert_eq!(black, bit(D5) | bit(E4));
    assert_eq!(white, bit(D4) | bit(E5));
}

#[test]
fn test_count_stones() {
    let board = Bitboard::new(bit(D5) | bit(E4), bit(D4) | bit(E5));
    let (black_count, white_count) = board.count_stones();
    assert_eq!(black_count, 2);
    assert_eq!(white_count, 2);
}

#[test]
fn test_get_valid_moves_bitmask() {
    let black = bit(D5) | bit(E4);
    let white = bit(D4) | bit(E5);
    let board = Bitboard::new(black, white);
    let bitmask = board.valid_moves_bitmask(Player::Black);
    let expected = bit(D3) | bit(C4) | bit(F5) | bit(E6);
    assert_eq!(bitmask, expected);
}

fn black_moves(black: u64, white: u64) -> u64 {
    Bitboard::new(black, white).valid_moves_bitmask(Player::Black)
}

#[test]
fn test_valid_moves_corners() {
    assert_eq!(
        black_moves(bit(A1), bit(B1) | bit(A2) | bit(B2)),
        bit(C1) | bit(A3) | bit(C3)
    );
    assert_eq!(
        black_moves(bit(H1), bit(G1) | bit(H2) | bit(G2)),
        bit(F1) | bit(H3) | bit(F3)
    );
    assert_eq!(
        black_moves(bit(A8), bit(B8) | bit(A7) | bit(B7)),
        bit(C8) | bit(A6) | bit(C6)
    );
    assert_eq!(
        black_moves(bit(H8), bit(G8) | bit(H7) | bit(G7)),
        bit(F8) | bit(H6) | bit(F6)
    );
}

#[test]
fn test_valid_moves_edges() {
    assert_eq!(
        black_moves(bit(A3), bit(A2) | bit(A4) | bit(B2) | bit(B3) | bit(B4)),
        bit(A1) | bit(C1) | bit(C3) | bit(A5) | bit(C5)
    );
    assert_eq!(
        black_moves(bit(C1), bit(B1) | bit(D1) | bit(B2) | bit(C2) | bit(D2)),
        bit(A1) | bit(A3) | bit(C3) | bit(E1) | bit(E3)
    );
    assert_eq!(
        black_moves(bit(H3), bit(H2) | bit(H4) | bit(G2) | bit(G3) | bit(G4)),
        bit(H1) | bit(F1) | bit(F3) | bit(H5) | bit(F5)
    );
    assert_eq!(
        black_moves(bit(C8), bit(B8) | bit(D8) | bit(B7) | bit(C7) | bit(D7)),
        bit(A8) | bit(A6) | bit(C6) | bit(E8) | bit(E6)
    );
}

#[test]
fn test_valid_moves_edges_2() {
    assert_eq!(black_moves(bit(B3), bit(A2) | bit(A3) | bit(A4)), 0);
    assert_eq!(black_moves(bit(C2), bit(B1) | bit(C1) | bit(D1)), 0);
    assert_eq!(black_moves(bit(G3), bit(H2) | bit(H3) | bit(H4)), 0);
    assert_eq!(black_moves(bit(C7), bit(B8) | bit(C8) | bit(D8)), 0);
}

#[test]
fn test_apply_move() {
    let mut board = Bitboard::default();

    assert!(board.apply_move(pos(E6), Player::Black).is_ok());
    let (black_count, white_count) = board.count_stones();
    assert_eq!(black_count, 4);
    assert_eq!(white_count, 1);

    assert!(board.apply_move(pos(F4), Player::White).is_ok());
    let (black_count, white_count) = board.count_stones();
    assert_eq!(black_count, 3);
    assert_eq!(white_count, 3);

    let black_stones = [C2, D2, B3, C3, D3, C4, D4, E4, D5, E5, F5];
    let black_bits = black_stones.iter().fold(0, |bits, s| bits | bit(*s));
    let white_stones = [A1, B1, C1, D1, E1, A2, B2, A3];
    let white_bits = white_stones.iter().fold(0, |bits, s| bits | bit(*s));
    let mut board = Bitboard::new(black_bits, white_bits);
    let moves = board.valid_moves(Player::White);
    for m in moves.iter() {
        let _ = board.apply_move(*m, Player::White);
    }

    let black = bit(C3) | bit(D4);
    let white = bit(A1) | bit(B2) | bit(E5);
    let board = Bitboard::new(black, white);
    let bitmask = board.valid_moves_bitmask(Player::Black);
    assert_eq!(bitmask, bit(F6));
}

#[test]
fn test_apply_move_invalid_position() {
    let mut board = Bitboard::default();
    let position = Position::new(3, 3); // D4
    assert!(board.apply_move(position, Player::Black).is_err());
}

#[test]
fn test_apply_move_no_flips() {
    let mut board = Bitboard::default();
    let position = Position::new(0, 0); // A1
    assert!(board.apply_move(position, Player::Black).is_err());
}

#[test]
fn test_get_flips_bits() {
    let black = bit(D5) | bit(E4);
    let white = bit(D4) | bit(E5);

    let flips = Bitboard::get_flips_bits(bit(E6), black, white);
    assert_eq!(flips, bit(E5));

    let flips = Bitboard::get_flips_bits(bit(C4), white, black);
    assert_eq!(flips, 0x0000000000000000);
}

#[test]
fn test_get_flips_bits_custom_board() {
    let black = bit(A1) | bit(B1) | bit(C1) | bit(D1) | bit(A2) | bit(A3);
    let white = bit(B2) | bit(C2) | bit(B3);

    assert_eq!(Bitboard::get_flips_bits(bit(D2), black, white), bit(B2) | bit(C2));
    assert_eq!(Bitboard::get_flips_bits(bit(D3), black, white), bit(C2));
    assert_eq!(
        Bitboard::get_flips_bits(bit(C3), black, white),
        bit(B2) | bit(C2) | bit(B3)
    );
    assert_eq!(Bitboard::get_flips_bits(bit(A4), black, white), bit(C2) | bit(B3));
}

/// A small deterministic source of move choices.
struct Chooser(u64);

impl Chooser {
    fn pick(&mut self, n: usize) -> usize {
        self.0 ^= self.0 << 13;
        self.0 ^= self.0 >> 7;
        self.0 ^= self.0 << 17;
        (self.0 % n as u64) as usize
    }
}

#[test]
fn test_random_simulation() {
    for seed in [1u64, 7, 42, 2024, 99991] {
        let mut board = Bitboard::default();
        let mut chooser = Chooser(seed);
        let mut current_player = Player::Black;

        for _ in 0..60 {
            let valid_moves = board.valid_moves(current_player);
            if valid_moves.is_empty() {
                current_player = current_player.opponent();
                if board.valid_moves(current_player).is_empty() {
                    break;
                }
                continue;
            }
            let chosen_move = valid_moves[chooser.pick(valid_moves.len())];
            assert!(
                board.apply_move(chosen_move, current_player).is_ok(),
                "Failed to apply move"
            );
            current_player = current_player.opponent();
        }

        let (black_count, white_count) = board.count_stones();
        assert!(black_count + white_count <= 64, "Total stones exceed 64!");
    }
}

#[test]
fn bitmask_to_positions_lists_squares_in_order() {
    let board = Bitboard::default();
    let positions = board.bitmask_to_positions(bit(H8) | bit(A1) | bit(D4));
    let names: Vec<String> = positions.iter().map(|p| p.to_string()).collect();
    assert_eq!(names, vec!["A1", "D4", "H8"]);
    assert!(board.bitmask_to_positions(0).is_empty());
}

#[test]
fn valid_moves_of_the_initial_position() {
    let board = Bitboard::default();
    let moves: Vec<u8> = board.valid_moves(Player::White).iter().map(|p| p.to_u8()).collect();
    assert_eq!(moves, vec![E3, F4, C5, D6]);
}

#[test]
fn apply_move_reports_each_error() {
    let mut board = Bitboard::default();
    let occupied = board.apply_move(pos(D4), Player::Black);
    assert_eq!(occupied, Err("Invalid move: position is already occupied"));
    let no_flip = board.apply_move(pos(A1), Player::Black);
    assert_eq!(no_flip, Err("Invalid move: no stones to flip"));
    assert_eq!(board.bits(), Bitboard::default().bits());
}

#[test]
fn a_move_fills_one_square_and_keeps_the_stone_total() {
    let mut board = Bitboard::default();
    assert!(board.apply_move(pos(D3), Player::Black).is_ok());
    let (b, w) = board.bits();
    assert_eq!(b & w, 0);
    let (bc, wc) = board.count_stones();
    assert_eq!(bc + wc, 5);
    assert_eq!((bc, wc), (4, 1));
}

#[test]
fn game_over_on_a_full_board() {
    let board = Bitboard::new(0xffffffffff000000, 0x0000000000ffffff);
    assert!(board.is_game_over());
    assert!(!Bitboard::default().is_game_over());
}

#[test]
fn board_text_of_the_initial_position() {
    let text = Bitboard::default().to_string();
    let expected = "  A B C D E F G H\n\
1 . . . . . . . . \n\
2 . . . . . . . . \n\
3 . . . . . . . . \n\
4 . . . W B . . . \n\
5 . . . B W . . . \n\
6 . . . . . . . . \n\
7 . . . . . . . . \n\
8 . . . . . . . . \n";
    assert_eq!(text, expected);
}

#[test]
fn legal_moves_turn_with_the_board_and_swap_with_colors() {
    use_rotation_and_swap(bit(A1), bit(B1) | bit(A2) | bit(B2));
    use_rotation_and_swap(bit(D5) | bit(E4), bit(D4) | bit(E5));
    use_rotation_and_swap(bit(A3), bit(A2) | bit(A4) | bit(B2) | bit(B3) | bit(B4));
    use_rotation_and_swap(0x0000_1c24_1800_0000, 0x0000_0018_2400_0000 & !0x0000_1c24_1800_0000);
}

fn use_rotation_and_swap(b: u64, w: u64) {
    for player in [Player::Black, Player::White] {
        let turned = Bitboard::new(rotate_mask_90_cw(b), rotate_mask_90_cw(w)).valid_moves_bitmask(player);
        assert_eq!(turned, rotate_mask_90_cw(Bitboard::new(b, w).valid_moves_bitmask(player)));
    }
    assert_eq!(
        Bitboard::new(w, b).valid_moves_bitmask(Player::Black),
        Bitboard::new(b, w).valid_moves_bitmask(Player::White)
    );
}
