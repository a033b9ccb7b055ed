use vstd::prelude::*;

verus! {

/// The ways a run of an algorithm can fail.
#[derive(Debug, Clone, Copy, PartialEq, Eq, Structural)]
pub enum AlgorithmError {
    /// A parameter lies outside the range the algorithm accepts.
    ParameterOutOfRange,
    /// A statistic was asked of an empty sequence.
    EmptyInput,
    /// A sequence held more than the one element that was expected.
    MultipleElements,
    /// The inner dimensions of a matrix product differ.
    DimensionMismatch,
}

} // verus!
