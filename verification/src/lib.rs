//! Reversi (Othello) on 64-bit boards: board rules, game flow, board
//! symmetries, the pattern features that the evaluation functions read and
//! their packing, and the training samples taken from recorded games.
pub mod bits;
pub mod geometry;
pub mod rules;
pub mod player;
pub mod position;
pub mod coordinate;
pub mod bitboard;
pub mod game;
pub mod run_game;
pub mod board;
pub mod utils;
pub mod patterns;
pub mod feature;
pub mod coordinate_to_feature;
pub mod feature_offsets;
pub mod feature_packer;
pub mod dataset;
pub mod game_record;
pub mod cli_player;
pub mod progress;
pub mod test_utils;
pub mod dataset_generator;
pub mod model_config;
pub mod symmetry;
pub mod display;
pub mod self_play;
