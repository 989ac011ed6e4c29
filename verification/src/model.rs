//! The values a chart is planned from.
//!
//! Measured numbers reach this crate as ordinals: signed integers that order exactly as the
//! numbers they stand for, with zero standing for zero (see [`crate::ordinal`]). Arithmetic
//! on the numbers themselves is left to the caller, who finds each again through its
//! position or its ordinal.

use vstd::prelude::*;

verus! {

/// How a value axis is divided.
#[derive(Clone, Copy, Debug, PartialEq, Eq)]
pub enum AxisScale {
    Linear,
    Logarithmic,
}

/// What the numeric input of a benchmark counts.
#[derive(Clone, Copy, Debug, PartialEq, Eq)]
pub enum ValueType {
    Bytes,
    Elements,
    Value,
}

/// The identity of one benchmark.
#[derive(Debug)]
pub struct BenchmarkId {
    /// The function measured; benchmarks that share it form one line.
    pub function_id: Option<String>,
    /// The ordinal of the numeric input, if the benchmark has one.
    pub value: Option<i64>,
    /// The name shown beside the benchmark's violin.
    pub title: String,
}

/// The latest statistics of one benchmark, as far as a line chart reads them.
#[derive(Clone, Copy, Debug)]
pub struct Benchmark {
    /// The ordinal of the typical point estimate, if one was computed.
    pub typical: Option<i64>,
}

/// Why a chart could not be planned.
#[derive(Clone, Copy, Debug, PartialEq, Eq)]
pub enum PlotError {
    /// The benchmark at `index` has no typical estimate.
    MissingTypical { index: usize },
    /// The benchmark at `index` has no numeric input.
    MissingInput { index: usize },
    /// No density curve has a positive support value, so there is no range to scale by.
    EmptyRange,
}

impl BenchmarkId {
    /// The ordinal of the numeric input, if there is one.
    pub fn as_number(&self) -> (number: Option<i64>)
        ensures
            number == self.value,
    {
        self.value
    }

    /// The name shown beside the benchmark's violin.
    pub fn as_title(&self) -> (title: &str)
        ensures
            title@ == self.title@,
    {
        self.title.as_str()
    }
}

} // verus!
