use temp_reversi::bitboard::Bitboard;
use temp_reversi::coordinate::{C4, D3, E3, F5};
use temp_reversi::dataset::{ReversiDataset, ReversiSample};
use temp_reversi::dataset_generator::{
    DatasetGeneratorConfig, EvaluatorType, StrategyType, BATCH_SIZE,
};
use temp_reversi::feature::extract_feature;
use temp_reversi::feature_packer::FeaturePacker;
use temp_reversi::game::Game;
use temp_reversi::game_record::GameRecord;
use temp_reversi::position::Position;
use temp_reversi::progress::{MockProgressReporter, ProgressReporter};
use temp_reversi::test_utils::TestCleanup;

#[test]
fn test_batch_ranges() {
    let config = DatasetGeneratorConfig {
        train_records: 5,
        valid_records: 2,
        num_random_moves: 3,
        search_depth: 2,
        evaluator: EvaluatorType::PhaseAware,
        order_evaluator: EvaluatorType::PhaseAware,
        strategy: StrategyType::NegaScount,
        output_dir: "test_output".to_string(),
        output_name: "test_records".to_string(),
    };

    let generator = config.init();

    let ranges: Vec<_> = generator.batch_ranges(0, 2500);
    assert!(!ranges.is_empty(), "Should generate batch ranges");
    assert_eq!(ranges[0], (0, 1000), "First batch should be 0-1000");
    assert_eq!(ranges[1], (1000, 2000), "Second batch should be 1000-2000");
    assert_eq!(ranges[2], (2000, 2500), "Last batch should handle remainder");

    let small_ranges: Vec<_> = generator.batch_ranges(10, 50);
    assert_eq!(small_ranges.len(), 1, "Small batch should be single range");
    assert_eq!(small_ranges[0], (10, 60), "Should handle offset correctly");
}

#[test]
fn batch_ranges_edge_counts() {
    let generator = DatasetGeneratorConfig::new().init();
    assert!(generator.batch_ranges(5, 0).is_empty());
    assert_eq!(generator.batch_ranges(0, BATCH_SIZE), vec![(0, 1000)]);
    assert_eq!(generator.batch_ranges(3, 1001), vec![(3, 1003), (1003, 1004)]);
    assert_eq!(generator.config.train_records, 100);
    assert_eq!(generator.config.output_dir, "work/dataset");
}

#[test]
fn to_samples_replays_the_game() {
    let record = GameRecord { moves: vec![D3, C4, 99, F5], final_score: (40, 24) };
    let samples = record.to_samples();
    assert_eq!(samples.len(), 4);

    let mut game = Game::default();
    let mut boards = Vec::new();
    for &m in &record.moves {
        let _ = game.apply_move(Position::from_u8(m));
        boards.push(game.board_state().bits());
    }
    for (sample, (black, white)) in samples.iter().zip(boards.iter()) {
        assert_eq!(sample.black_bits, *black);
        assert_eq!(sample.white_bits, *white);
        assert_eq!(sample.stone_diff, 16);
    }
    // The pass (99) is not legal for White here: the board stays.
    assert_eq!(samples[2].black_bits, samples[1].black_bits);
    assert_eq!(samples[2].white_bits, samples[1].white_bits);
    assert_eq!(samples[0].black_bits.count_ones(), 4);
}

#[test]
fn to_samples_reads_scores_as_signed_bytes() {
    let record = GameRecord { moves: vec![E3], final_score: (10, 50) };
    let samples = record.to_samples();
    assert_eq!(samples.len(), 1);
    assert_eq!(samples[0].stone_diff, -40);
    // E3 is no legal first move for Black.
    assert_eq!((samples[0].black_bits, samples[0].white_bits), Bitboard::default().bits());
    let wrapped = GameRecord { moves: vec![], final_score: (200, 200) };
    assert!(wrapped.to_samples().is_empty());
    assert!(GameRecord::default().to_samples().is_empty());
}

#[test]
fn sample_phase_and_feature_indices() {
    let (black_bits, white_bits) = Bitboard::default().bits();
    let sample = ReversiSample { black_bits, white_bits, stone_diff: 0 };
    assert_eq!(sample.phase(), 4);
    let packer = FeaturePacker::new();
    let indices = sample.feature_indices(&packer);
    assert_eq!(indices.len(), 64);
    let packed = packer.pack(&extract_feature(&Bitboard::default()));
    for i in 0..64 {
        let expected = packer.index_offsets[i / 4] as i32 + packed.indices[i] as i32;
        assert_eq!(indices[i], expected);
        assert!((indices[i] as usize) < packer.packed_feature_size);
    }
    assert_eq!(ReversiSample::default().phase(), 0);
}

#[test]
fn cleanup_lists_paths_in_order() {
    let mut cleanup = TestCleanup::new();
    cleanup.add_file("a.gz".to_string());
    cleanup.add_dir("dir".to_string());
    cleanup.add_file("b".to_string());
    assert_eq!(cleanup.files(), &vec!["a.gz".to_string(), "b".to_string()]);
    assert_eq!(cleanup.dirs(), &vec!["dir".to_string()]);
}

#[test]
fn mock_reporter_accepts_everything() {
    let reporter = MockProgressReporter;
    reporter.increment(3);
    reporter.set_message("working");
    reporter.finish();
}

#[test]
fn phase_feature_indices_shift_by_phase() {
    let (black_bits, white_bits) = Bitboard::default().bits();
    let sample = ReversiSample { black_bits, white_bits, stone_diff: 3 };
    let packer = FeaturePacker::new();
    let plain = sample.feature_indices(&packer);
    let combined = sample.phase_feature_indices(&packer);
    let size = packer.packed_feature_size as i32;
    for i in 0..64 {
        assert_eq!(combined[i], 4 * size + plain[i]);
    }
}

#[test]
fn dataset_get_and_len() {
    let a = ReversiSample { black_bits: 1, white_bits: 2, stone_diff: -1 };
    let b = ReversiSample { black_bits: 4, white_bits: 8, stone_diff: 5 };
    let dataset = ReversiDataset::new(vec![a, b]);
    assert_eq!(dataset.len(), 2);
    assert_eq!(dataset.get(1).unwrap().stone_diff, 5);
    assert_eq!(dataset.get(0).unwrap().black_bits, 1);
    assert!(dataset.get(2).is_none());
}
