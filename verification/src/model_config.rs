//! The settings of the evaluation models. The models themselves hold
//! floating-point weights and live with the training code.
use vstd::prelude::*;

verus! {

/// Settings of the phase-aware linear evaluation model; it has none.
#[derive(Debug, Clone, Copy)]
pub struct ReversiModelConfig {}

impl ReversiModelConfig {
    /// The settings.
    pub fn new() -> (r: Self) {
        ReversiModelConfig {  }
    }
}

/// Settings of a sparse linear layer: a weight table of `d_input` rows of
/// `d_output` weights, and a bias unless switched off.
#[derive(Debug, Clone, Copy)]
pub struct SparseLinearConfig {
    /// The number of input positions.
    pub d_input: usize,
    /// The number of outputs.
    pub d_output: usize,
    /// Whether the layer adds a bias.
    pub bias: bool,
}

impl SparseLinearConfig {
    /// Settings with the given sizes and a bias.
    pub fn new(d_input: usize, d_output: usize) -> (r: Self)
        ensures
            r.d_input == d_input,
            r.d_output == d_output,
            r.bias,
    {
        SparseLinearConfig { d_input, d_output, bias: true }
    }

    /// The same settings with the bias switched on or off.
    pub fn with_bias(self, bias: bool) -> (r: Self)
        ensures
            r.d_input == self.d_input,
            r.d_output == self.d_output,
            r.bias == bias,
    {
        SparseLinearConfig { bias, ..self }
    }
}

/// Settings of the training model: one linear layer per phase over
/// `feature_size` inputs.
#[derive(Debug, Clone, Copy)]
pub struct TrainingModelConfig {
    /// The number of inputs of each layer.
    pub feature_size: usize,
}

impl TrainingModelConfig {
    /// Settings with the given input size.
    pub fn new(feature_size: usize) -> (r: Self)
        ensures
            r.feature_size == feature_size,
    {
        TrainingModelConfig { feature_size }
    }
}

} // verus!
