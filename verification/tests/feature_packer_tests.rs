use temp_reversi::bitboard::Bitboard;
use temp_reversi::coordinate::{A2, B2, G2, H2};
use temp_reversi::feature::{canonicalize_pattern_feature, extract_feature};
use temp_reversi::feature_packer::FeaturePacker;
use temp_reversi::patterns::{get_symmetric_pattern_indices, pattern};
use temp_reversi::position::Position;

#[test]
fn test_feature_packer() {
    let bitboard = Bitboard::new(0, 0);
    let feature = extract_feature(&bitboard);

    let feature_packer = FeaturePacker::new();
    let packed_feature = feature_packer.pack(&feature);

    assert_eq!(packed_feature.indices.len(), feature.indices.len());

    let expected: [(std::ops::Range<usize>, u16); 10] = [
        (0..12, 3320),
        (12..16, 39365),
        (16..20, 1133),
        (20..24, 377),
        (24..28, 134),
        (28..44, 29645),
        (44..48, 10205),
        (48..56, 29888),
        (56..64, 30617),
        (0..0, 0),
    ];
    for (range, value) in expected.iter() {
        for i in range.clone() {
            assert_eq!(packed_feature.indices[i], *value, "pattern {}", i);
        }
    }
}

#[test]
fn test_pack_to_vector() {
    let bitboard = Bitboard::new(0, 0);
    let feature = extract_feature(&bitboard);

    let feature_packer = FeaturePacker::new();
    let packed_feature = feature_packer.pack(&feature);
    let packed_vector = feature_packer.packed_feature_to_vector(&packed_feature);

    assert_eq!(packed_vector.len(), feature_packer.packed_feature_size);

    for (pattern_index, &index) in feature.indices.iter().enumerate() {
        let base_pattern_index = pattern_index / 4;
        let absolute_index =
            feature_packer.index_offsets[base_pattern_index] as usize + index as usize;
        let index_offset = feature_packer.index_offsets[base_pattern_index] as usize;
        let expected = if index as i64 == index_offset as i64 - 1 {
            4
        } else {
            0
        };
        assert_eq!(packed_vector[absolute_index], expected);
    }
}

#[test]
fn packed_index_is_shared_by_mirror_images_only() {
    let packer = FeaturePacker::new();
    let left = extract_feature(&Bitboard::new(
        Position::from_u8(A2) | Position::from_u8(B2),
        0,
    ));
    let right = extract_feature(&Bitboard::new(
        Position::from_u8(G2) | Position::from_u8(H2),
        0,
    ));
    let pl = packer.packed_index(0, left.indices[0]).unwrap();
    let pr = packer.packed_index(0, right.indices[0]).unwrap();
    assert_eq!(pl, pr);
    // A configuration that is no mirror image of these gets another index.
    let other = packer.packed_index(0, 0).unwrap();
    assert_ne!(other, pl);
    assert_eq!(other, 0);
    // Indices beyond the configurations of the pattern are not in the table.
    assert_eq!(packer.packed_index(0, 6561), None);
    assert_eq!(packer.packed_index(63, 59049), None);
}

#[test]
fn packer_tables_match_canonical_ranks() {
    let packer = FeaturePacker::new();
    assert_eq!(packer.index_map.len(), 16);
    assert_eq!(packer.index_offsets.len(), 16);
    assert_eq!(packer.index_offsets[0], 0);
    // Base pattern 0 has 8 squares: 3^8 configurations.
    let mut next = 0u16;
    for f in 0..6561u16 {
        let c = canonicalize_pattern_feature(0, f);
        let p = packer.packed_index(0, f).unwrap();
        if c == f {
            assert_eq!(p, next);
            next += 1;
        } else {
            assert_eq!(p, packer.packed_index(0, c).unwrap());
        }
    }
    assert_eq!(packer.index_offsets[1] as u16, next);
    assert_eq!(next, 3321);
    let total: usize = packer.index_map.iter().map(|m| m.len()).sum();
    assert_eq!(packer.packed_feature_size, total);
}

#[test]
fn packed_vector_counts_each_pattern_once() {
    let packer = FeaturePacker::new();
    let feature = extract_feature(&Bitboard::default());
    let packed = packer.pack(&feature);
    let vector = packer.packed_feature_to_vector(&packed);
    let sum: u32 = vector.iter().map(|&v| v as u32).sum();
    assert_eq!(sum, 64);
    assert_eq!(packed.phase, feature.phase);
}

#[test]
fn packed_counts_follow_the_mirror_orbits() {
    let packer = FeaturePacker::new();
    let mut total_configurations = 0usize;
    for b in 0..16 {
        let n = pattern(4 * b).len() as u32;
        let sym = get_symmetric_pattern_indices(4 * b);
        let orbits = (0..sym.len()).filter(|&i| sym[i] as usize >= i).count() as u32;
        let expected = (3u32.pow(n) + 3u32.pow(orbits)) / 2;
        let next = if b < 15 {
            packer.index_offsets[b + 1]
        } else {
            // The packed indices of the last base pattern: count them.
            let mut count = 0u32;
            for f in 0..3u32.pow(n) {
                let c = canonicalize_pattern_feature(4 * b, f as u16);
                if c as u32 == f {
                    count += 1;
                }
            }
            packer.index_offsets[b] + count
        };
        assert_eq!(next - packer.index_offsets[b], expected, "base pattern {}", b);
        total_configurations += 3usize.pow(n);
    }
    assert_eq!(packer.packed_feature_size, total_configurations);
}
