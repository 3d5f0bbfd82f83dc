use temp_reversi::bitboard::Bitboard;
use temp_reversi::coordinate::{
    A1, B1, C1, D1, E1, F1, G1, H1, A2, B2, C2, D2, E2, F2, G2, H2, A3, B3, C3, D3, E3, F3, G3, H3, A4, B4, C4, D4, E4, F4, G4, H4, A5, B5, C5, D5, E5, F5, G5, H5, A6, B6, C6, D6, E6, F6, G6, H6, A7, B7, C7, D7, E7, F7, G7, H7, A8, B8, C8, D8, E8, F8, G8, H8,
};
use temp_reversi::coordinate_to_feature::{
    c2f_count, make_c2f_list, A1_C2F_COUNT, B1_C2F_COUNT, C1_C2F_COUNT, D1_C2F_COUNT, E1_C2F_COUNT, F1_C2F_COUNT, G1_C2F_COUNT, H1_C2F_COUNT, A2_C2F_COUNT, B2_C2F_COUNT, C2_C2F_COUNT, D2_C2F_COUNT, E2_C2F_COUNT, F2_C2F_COUNT, G2_C2F_COUNT, H2_C2F_COUNT, A3_C2F_COUNT, B3_C2F_COUNT, C3_C2F_COUNT, D3_C2F_COUNT, E3_C2F_COUNT, F3_C2F_COUNT, G3_C2F_COUNT, H3_C2F_COUNT, A4_C2F_COUNT, B4_C2F_COUNT, C4_C2F_COUNT, D4_C2F_COUNT, E4_C2F_COUNT, F4_C2F_COUNT, G4_C2F_COUNT, H4_C2F_COUNT, A5_C2F_COUNT, B5_C2F_COUNT, C5_C2F_COUNT, D5_C2F_COUNT, E5_C2F_COUNT, F5_C2F_COUNT, G5_C2F_COUNT, H5_C2F_COUNT, A6_C2F_COUNT, B6_C2F_COUNT, C6_C2F_COUNT, D6_C2F_COUNT, E6_C2F_COUNT, F6_C2F_COUNT, G6_C2F_COUNT, H6_C2F_COUNT, A7_C2F_COUNT, B7_C2F_COUNT, C7_C2F_COUNT, D7_C2F_COUNT, E7_C2F_COUNT, F7_C2F_COUNT, G7_C2F_COUNT, H7_C2F_COUNT, A8_C2F_COUNT, B8_C2F_COUNT, C8_C2F_COUNT, D8_C2F_COUNT, E8_C2F_COUNT, F8_C2F_COUNT, G8_C2F_COUNT, H8_C2F_COUNT,
};
use temp_reversi::feature::{
    canonicalize_feature, canonicalize_pattern_feature, extract_feature, squares_from_bitboard,
    Feature,
};
use temp_reversi::feature_offsets::make_feature_offsets;
use temp_reversi::patterns::{get_symmetric_pattern_indices, pattern, rotate_90_cw_pattern};
use temp_reversi::position::Position;
use temp_reversi::utils::rotate_mask_90_cw;

fn pos(square: u8) -> Position {
    Position::from_u8(square)
}


#[test]
fn test_squares_from_bitboard() {
    let bitboard = Bitboard::default();
    let squares = squares_from_bitboard(&bitboard);

    for i in 0..64u8 {
        if i == D4 || i == E5 {
            assert_eq![squares[i as usize], 1];
        } else if i == D5 || i == E4 {
            assert_eq![squares[i as usize], 0];
        } else {
            assert_eq![squares[i as usize], 2];
        }
    }
}

#[test]
fn test_extract_feature() {
    let black = pos(A1) | pos(B1) | pos(C1);
    let white = pos(A2) | pos(B2) | pos(C2);
    let bitboard = Bitboard::new(black, white);

    let feature = extract_feature(&bitboard);
    assert_eq!(feature.indices[0], 6547);
    assert_eq![feature.indices[44], 19305];
}

#[test]
fn test_canonicalize_feature() {
    let black = pos(A1) | pos(B1) | pos(C1);
    let white = pos(A2) | pos(B2) | pos(C2);
    let bitboard = Bitboard::new(black, white);

    let feature = extract_feature(&bitboard);
    let canonical_feature = canonicalize_feature(&feature);

    assert_eq!(canonical_feature.indices[0], 3401);
    assert_eq![canonical_feature.indices[44], 15897];
    assert_eq![canonical_feature.indices[12], 13116];
}

#[test]
fn test_rotate_90_cw_pattern() {
    let pattern: [u8; 4] = [A1, B1, A2, B2];
    let rotated = rotate_90_cw_pattern(&pattern);

    assert_eq!(rotated[0], H1);
    assert_eq!(rotated[1], H2);
    assert_eq!(rotated[2], G1);
    assert_eq!(rotated[3], G2);
}

#[test]
fn test_c2f_count() {
    let a1_c2f_list = make_c2f_list::<A1, A1_C2F_COUNT>();
    assert_eq!(a1_c2f_list.len(), A1_C2F_COUNT);
}

#[test]
fn test_feature_offsets() {
    let offsets = make_feature_offsets();
    assert_eq!(offsets[0], 0);
    assert_eq!(offsets[1], 0);
    assert_eq!(offsets[2], 0);
    assert_eq!(offsets[3], 0);
    assert_eq!(offsets[4], pattern(4).len() as u16);
    assert_eq!(offsets[5], pattern(4).len() as u16);
    assert_eq!(offsets[6], pattern(4).len() as u16);
    assert_eq!(offsets[7], pattern(4).len() as u16);
}

#[test]
fn c2f_list_names_each_pattern_reading_the_square() {
    assert_eq!(c2f_count(A1), A1_C2F_COUNT);
    let list = make_c2f_list::<A1, A1_C2F_COUNT>();
    for entry in list.iter() {
        let squares = pattern(entry.pattern_index as usize);
        let digit = squares.iter().position(|&s| s == A1).unwrap();
        assert_eq!(entry.trit_place_value as u32, 3u32.pow(digit as u32));
    }
    // Entries beyond the count stay zero.
    let padded = make_c2f_list::<A1, 15>();
    assert_eq!(padded[13].pattern_index, 0);
    assert_eq!(padded[14].trit_place_value, 0);
}

#[test]
fn empty_board_feature_is_all_empty_digits() {
    let feature = extract_feature(&Bitboard::new(0, 0));
    assert_eq!(feature.phase, 0);
    for p in 0..64 {
        let n = pattern(p).len() as u32;
        assert_eq!(feature.indices[p] as u32, 3u32.pow(n) - 1);
    }
    let start = extract_feature(&Bitboard::default());
    assert_eq!(start.phase, 4);
}

#[test]
fn canonical_index_is_shared_by_mirror_images() {
    // Pattern 0 reads the second row; its mirror reverses the row.
    let left = extract_feature(&Bitboard::new(pos(A2) | pos(B2), 0));
    let right = extract_feature(&Bitboard::new(
        pos(H2) | pos(G2),
        0,
    ));
    assert_ne!(left.indices[0], right.indices[0]);
    let cl = canonicalize_pattern_feature(0, left.indices[0]);
    let cr = canonicalize_pattern_feature(0, right.indices[0]);
    assert_eq!(cl, cr);
    assert_eq!(cl, left.indices[0].min(right.indices[0]));
    // Canonicalizing twice changes nothing.
    assert_eq!(canonicalize_pattern_feature(0, cl), cl);
}

#[test]
fn symmetric_indices_are_involutions() {
    for p in 0..64 {
        let sym = get_symmetric_pattern_indices(p);
        assert_eq!(sym.len(), pattern(p).len());
        for i in 0..sym.len() {
            assert_eq!(sym[sym[i] as usize] as usize, i);
        }
    }
}

#[test]
fn canonicalize_keeps_the_phase() {
    let feature = Feature::default();
    assert_eq!(feature.phase, 0);
    let board = Bitboard::default();
    let f = extract_feature(&board);
    let c = canonicalize_feature(&f);
    assert_eq!(c.phase, f.phase);
    for i in 0..64 {
        assert!(c.indices[i] <= f.indices[i]);
    }
}

#[test]
fn turning_the_board_moves_features_to_the_next_orientation() {
    let boards = [
        Bitboard::default().bits(),
        (0x0000_0000_0000_00ff, 0x0000_0000_0000_ff00),
        (0x8040_2010_0804_0201, 0x0102_0408_1020_4080 & !0x0000_0018_1800_0000),
        (0x0123_4567_89ab_cdef & 0x5555_5555_5555_5555, 0xfedc_ba98_7654_3210 & 0xaaaa_aaaa_aaaa_aaaa),
    ];
    for (black, white) in boards {
        let f = extract_feature(&Bitboard::new(black, white));
        let g = extract_feature(&Bitboard::new(rotate_mask_90_cw(black), rotate_mask_90_cw(white)));
        for p in 0..64 {
            let next = 4 * (p / 4) + (p % 4 + 1) % 4;
            assert_eq!(g.indices[next], f.indices[p], "pattern {}", p);
        }
        assert_eq!(g.phase, f.phase);
    }
}

#[test]
fn c2f_count_constants_match_the_patterns() {
    let counts = [
        (A1, A1_C2F_COUNT),
        (B1, B1_C2F_COUNT),
        (C1, C1_C2F_COUNT),
        (D1, D1_C2F_COUNT),
        (E1, E1_C2F_COUNT),
        (F1, F1_C2F_COUNT),
        (G1, G1_C2F_COUNT),
        (H1, H1_C2F_COUNT),
        (A2, A2_C2F_COUNT),
        (B2, B2_C2F_COUNT),
        (C2, C2_C2F_COUNT),
        (D2, D2_C2F_COUNT),
        (E2, E2_C2F_COUNT),
        (F2, F2_C2F_COUNT),
        (G2, G2_C2F_COUNT),
        (H2, H2_C2F_COUNT),
        (A3, A3_C2F_COUNT),
        (B3, B3_C2F_COUNT),
        (C3, C3_C2F_COUNT),
        (D3, D3_C2F_COUNT),
        (E3, E3_C2F_COUNT),
        (F3, F3_C2F_COUNT),
        (G3, G3_C2F_COUNT),
        (H3, H3_C2F_COUNT),
        (A4, A4_C2F_COUNT),
        (B4, B4_C2F_COUNT),
        (C4, C4_C2F_COUNT),
        (D4, D4_C2F_COUNT),
        (E4, E4_C2F_COUNT),
        (F4, F4_C2F_COUNT),
        (G4, G4_C2F_COUNT),
        (H4, H4_C2F_COUNT),
        (A5, A5_C2F_COUNT),
        (B5, B5_C2F_COUNT),
        (C5, C5_C2F_COUNT),
        (D5, D5_C2F_COUNT),
        (E5, E5_C2F_COUNT),
        (F5, F5_C2F_COUNT),
        (G5, G5_C2F_COUNT),
        (H5, H5_C2F_COUNT),
        (A6, A6_C2F_COUNT),
        (B6, B6_C2F_COUNT),
        (C6, C6_C2F_COUNT),
        (D6, D6_C2F_COUNT),
        (E6, E6_C2F_COUNT),
        (F6, F6_C2F_COUNT),
        (G6, G6_C2F_COUNT),
        (H6, H6_C2F_COUNT),
        (A7, A7_C2F_COUNT),
        (B7, B7_C2F_COUNT),
        (C7, C7_C2F_COUNT),
        (D7, D7_C2F_COUNT),
        (E7, E7_C2F_COUNT),
        (F7, F7_C2F_COUNT),
        (G7, G7_C2F_COUNT),
        (H7, H7_C2F_COUNT),
        (A8, A8_C2F_COUNT),
        (B8, B8_C2F_COUNT),
        (C8, C8_C2F_COUNT),
        (D8, D8_C2F_COUNT),
        (E8, E8_C2F_COUNT),
        (F8, F8_C2F_COUNT),
        (G8, G8_C2F_COUNT),
        (H8, H8_C2F_COUNT),
    ];
    for (square, count) in counts {
        assert_eq!(c2f_count(square), count);
    }
}
