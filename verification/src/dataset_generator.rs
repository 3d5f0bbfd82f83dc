//! The settings of dataset generation, and how the games to generate are cut
//! into batches.
use vstd::prelude::*;

verus! {

/// The games of a dataset are generated and written in batches of this size.
pub const BATCH_SIZE: usize = 1000;

/// Types of evaluators that can be used for position assessment.
#[derive(Debug, Clone, Copy, PartialEq, Eq, Structural)]
pub enum EvaluatorType {
    /// Phase-aware evaluator that adjusts evaluation based on game phase.
    PhaseAware,
}

/// Types of search strategies that can be used for move selection.
#[derive(Debug, Clone, Copy, PartialEq, Eq, Structural)]
pub enum StrategyType {
    /// NegaScout search algorithm for move selection.
    NegaScount,
}

/// Configuration for the dataset generation process.
#[derive(Debug)]
pub struct DatasetGeneratorConfig {
    /// Number of game records to generate for training.
    pub train_records: usize,
    /// Number of game records to generate for validation.
    pub valid_records: usize,
    /// Number of random moves to play at the beginning of each game.
    pub num_random_moves: usize,
    /// Maximum search depth of the search.
    pub search_depth: usize,
    /// Evaluator for position assessment.
    pub evaluator: EvaluatorType,
    /// Evaluator for move ordering in the search.
    pub order_evaluator: EvaluatorType,
    /// Search strategy for move selection.
    pub strategy: StrategyType,
    /// Directory to store the generated dataset.
    pub output_dir: String,
    /// Base file name of the generated dataset (without extension).
    pub output_name: String,
}

impl DatasetGeneratorConfig {
    /// The default settings: 100 training and 20 validation games, 10
    /// random opening moves, search depth 5, the phase-aware evaluator and
    /// NegaScout, written to `work/dataset/records`.
    pub fn new() -> (r: Self)
        ensures
            r.train_records == 100,
            r.valid_records == 20,
            r.num_random_moves == 10,
            r.search_depth == 5,
            r.evaluator == EvaluatorType::PhaseAware,
            r.order_evaluator == EvaluatorType::PhaseAware,
            r.strategy == StrategyType::NegaScount,
            r.output_dir@ == "work/dataset"@,
            r.output_name@ == "records"@,
    {
        DatasetGeneratorConfig {
            train_records: 100,
            valid_records: 20,
            num_random_moves: 10,
            search_depth: 5,
            evaluator: EvaluatorType::PhaseAware,
            order_evaluator: EvaluatorType::PhaseAware,
            strategy: StrategyType::NegaScount,
            output_dir: String::from_str("work/dataset"),
            output_name: String::from_str("records"),
        }
    }

    /// A generator with a copy of these settings.
    pub fn init(&self) -> (r: DatasetGenerator)
        ensures
            r.config.train_records == self.train_records,
            r.config.valid_records == self.valid_records,
            r.config.num_random_moves == self.num_random_moves,
            r.config.search_depth == self.search_depth,
            r.config.evaluator == self.evaluator,
            r.config.order_evaluator == self.order_evaluator,
            r.config.strategy == self.strategy,
            r.config.output_dir@ == self.output_dir@,
            r.config.output_name@ == self.output_name@,
    {
        DatasetGenerator {
            config: DatasetGeneratorConfig {
                train_records: self.train_records,
                valid_records: self.valid_records,
                num_random_moves: self.num_random_moves,
                search_depth: self.search_depth,
                evaluator: self.evaluator,
                order_evaluator: self.order_evaluator,
                strategy: self.strategy,
                output_dir: self.output_dir.clone(),
                output_name: self.output_name.clone(),
            },
        }
    }
}

/// Generates datasets with given settings.
pub struct DatasetGenerator {
    /// The settings.
    pub config: DatasetGeneratorConfig,
}

/// The batches that cover `count` games numbered from `start_offset`:
/// batch `k` runs from `start_offset + k * BATCH_SIZE` up to the next
/// multiple or to the end, whichever comes first.
pub open spec fn batch_range(start_offset: int, count: int, k: int) -> (int, int) {
    let start = start_offset + k * BATCH_SIZE;
    let end = if start + BATCH_SIZE <= start_offset + count {
        start + BATCH_SIZE
    } else {
        start_offset + count
    };
    (start, end)
}

/// The number of batches for `count` games.
pub open spec fn batch_count(count: int) -> int {
    (count + BATCH_SIZE - 1) / BATCH_SIZE as int
}

impl DatasetGenerator {
    /// Cuts `count` games numbered from `start_offset` into batches of
    /// `BATCH_SIZE`: each batch is (first game, one past its last game).
    pub fn batch_ranges(&self, start_offset: usize, count: usize) -> (r: Vec<(usize, usize)>)
        requires
            start_offset + batch_count(count as int) * BATCH_SIZE <= usize::MAX,
        ensures
            r@.len() == batch_count(count as int),
            forall|k: int|
                0 <= k < r@.len() ==> (#[trigger] r@[k]).0 == batch_range(
                    start_offset as int,
                    count as int,
                    k,
                ).0 && r@[k].1 == batch_range(start_offset as int, count as int, k).1,
    {
        let mut ranges: Vec<(usize, usize)> = Vec::new();
        let mut start: usize = 0;
        while start < count
            invariant
                start_offset + batch_count(count as int) * BATCH_SIZE <= usize::MAX,
                start <= count,
                start < count ==> start == ranges@.len() * BATCH_SIZE,
                start == count ==> ranges@.len() == batch_count(count as int),
                forall|k: int|
                    0 <= k < ranges@.len() ==> (#[trigger] ranges@[k]).0 == batch_range(
                        start_offset as int,
                        count as int,
                        k,
                    ).0 && ranges@[k].1 == batch_range(start_offset as int, count as int, k).1,
            decreases count - start,
        {
            let ghost len = ranges@.len() as int;
            proof {
                let c = count as int;
                let n = batch_count(c);
                assert(len * 1000 + 1000 <= n * 1000 && c <= n * 1000) by (nonlinear_arith)
                    requires
                        len * 1000 < c,
                        n == (c + 999) / 1000,
                ;
            }
            let batch_start = start_offset + start;
            let batch_end = if batch_start + BATCH_SIZE <= start_offset + count {
                batch_start + BATCH_SIZE
            } else {
                start_offset + count
            };
            ranges.push((batch_start, batch_end));
            if count - start > BATCH_SIZE {
                start += BATCH_SIZE;
            } else {
                proof {
                    let c = count as int;
                    assert((c + 999) / 1000 == len + 1) by (nonlinear_arith)
                        requires
                            len * 1000 < c <= len * 1000 + 1000,
                    ;
                }
                start = count;
            }
        }
        ranges
    }
}

} // verus!
